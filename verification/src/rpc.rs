use vstd::prelude::*;
use vstd::string::StringExecFns;
use crate::array_response::array_response;
use crate::error::{Error, ErrorKind};
use crate::resource::Resource;
use crate::value::Value;

verus! {

/// The methods of the engine's RPC surface, as named inside a decoded
/// request frame. A name the engine does not know still decodes, and the
/// engine reports its own error for it.
#[derive(Debug, Clone, Copy, PartialEq, Eq, Structural)]
pub enum Method {
    Ping,
    Info,
    Use,
    Signup,
    Signin,
    Authenticate,
    Invalidate,
    Kill,
    Live,
    SetVar,
    UnsetVar,
    Select,
    Insert,
    Create,
    Upsert,
    Update,
    Merge,
    Patch,
    Delete,
    Version,
    Query,
    Run,
    Unknown,
}

pub open spec fn spec_parse_method(s: Seq<char>) -> Method {
    if s == "ping"@ {
        Method::Ping
    } else if s == "info"@ {
        Method::Info
    } else if s == "use"@ {
        Method::Use
    } else if s == "signup"@ {
        Method::Signup
    } else if s == "signin"@ {
        Method::Signin
    } else if s == "authenticate"@ {
        Method::Authenticate
    } else if s == "invalidate"@ {
        Method::Invalidate
    } else if s == "kill"@ {
        Method::Kill
    } else if s == "live"@ {
        Method::Live
    } else if s == "set"@ {
        Method::SetVar
    } else if s == "unset"@ {
        Method::UnsetVar
    } else if s == "select"@ {
        Method::Select
    } else if s == "insert"@ {
        Method::Insert
    } else if s == "create"@ {
        Method::Create
    } else if s == "upsert"@ {
        Method::Upsert
    } else if s == "update"@ {
        Method::Update
    } else if s == "merge"@ {
        Method::Merge
    } else if s == "patch"@ {
        Method::Patch
    } else if s == "delete"@ {
        Method::Delete
    } else if s == "version"@ {
        Method::Version
    } else if s == "query"@ {
        Method::Query
    } else if s == "run"@ {
        Method::Run
    } else {
        Method::Unknown
    }
}

/// Reads a request frame's method name.
pub fn parse_method(name: &str) -> (m: Method)
    ensures
        m == spec_parse_method(name@),
{
    let s = name.to_owned();
    if s == "ping".to_owned() {
        Method::Ping
    } else if s == "info".to_owned() {
        Method::Info
    } else if s == "use".to_owned() {
        Method::Use
    } else if s == "signup".to_owned() {
        Method::Signup
    } else if s == "signin".to_owned() {
        Method::Signin
    } else if s == "authenticate".to_owned() {
        Method::Authenticate
    } else if s == "invalidate".to_owned() {
        Method::Invalidate
    } else if s == "kill".to_owned() {
        Method::Kill
    } else if s == "live".to_owned() {
        Method::Live
    } else if s == "set".to_owned() {
        Method::SetVar
    } else if s == "unset".to_owned() {
        Method::UnsetVar
    } else if s == "select".to_owned() {
        Method::Select
    } else if s == "insert".to_owned() {
        Method::Insert
    } else if s == "create".to_owned() {
        Method::Create
    } else if s == "upsert".to_owned() {
        Method::Upsert
    } else if s == "update".to_owned() {
        Method::Update
    } else if s == "merge".to_owned() {
        Method::Merge
    } else if s == "patch".to_owned() {
        Method::Patch
    } else if s == "delete".to_owned() {
        Method::Delete
    } else if s == "version".to_owned() {
        Method::Version
    } else if s == "query".to_owned() {
        Method::Query
    } else if s == "run".to_owned() {
        Method::Run
    } else {
        Method::Unknown
    }
}

/// The read-only probes and queries: they leave session state and data
/// untouched, so they may share a read lock; every other method serializes
/// behind an exclusive write lock.
pub open spec fn spec_can_be_immut(m: Method) -> bool {
    match m {
        Method::Ping | Method::Info | Method::Select | Method::Version | Method::Query
            | Method::Run => true,
        _ => false,
    }
}

pub fn can_be_immut(m: Method) -> (b: bool)
    ensures
        b == spec_can_be_immut(m),
{
    match m {
        Method::Ping | Method::Info | Method::Select | Method::Version | Method::Query
            | Method::Run => true,
        _ => false,
    }
}

/// How an operation takes the connection's session lock.
#[derive(Debug, Clone, Copy, PartialEq, Eq, Structural)]
pub enum LockKind {
    SharedRead,
    ExclusiveWrite,
}

/// The lock an incoming method runs under: shared reads may run beside
/// each other, writes serialize against everything.
pub fn lock_for(m: Method) -> (r: LockKind)
    ensures
        r == LockKind::SharedRead <==> spec_can_be_immut(m),
{
    if can_be_immut(m) {
        LockKind::SharedRead
    } else {
        LockKind::ExclusiveWrite
    }
}

/// The session state an open connection holds between calls.
#[derive(Debug, PartialEq)]
pub struct Session {
    pub namespace: Option<String>,
    pub database: Option<String>,
    pub token: Option<String>,
}

impl Session {
    /// A fresh session: unscoped and unauthenticated.
    pub fn new() -> (s: Session)
        ensures
            s.namespace is None,
            s.database is None,
            s.token is None,
    {
        Session { namespace: None, database: None, token: None }
    }
}

/// Rescopes the session in place. With neither namespace nor database this
/// is a usage error and the session is left exactly as it was; with either
/// or both the named fields are replaced, an absent one keeps its old
/// value, and authentication is untouched.
pub fn apply_use(session: &mut Session, namespace: Option<String>, database: Option<String>) -> (r:
    Result<(), Error>)
    ensures
        r is Ok <==> (namespace is Some || database is Some),
        r is Ok ==> {
            &&& final(session).namespace == (if namespace is Some {
                namespace
            } else {
                old(session).namespace
            })
            &&& final(session).database == (if database is Some {
                database
            } else {
                old(session).database
            })
            &&& final(session).token == old(session).token
        },
        r matches Err(e) ==> e.kind == ErrorKind::Usage && *final(session) == *old(session),
{
    match (namespace, database) {
        (Option::None, Option::None) => Err(
            Error::new(
                ErrorKind::Usage,
                "use requires a namespace or a database".to_owned(),
            ),
        ),
        (ns, db) => {
            if let Option::Some(n) = ns {
                session.namespace = Option::Some(n);
            }
            if let Option::Some(d) = db {
                session.database = Option::Some(d);
            }
            Ok(())
        },
    }
}

/// Drops the session's authentication in place, keeping its scoping.
pub fn invalidate(session: &mut Session)
    ensures
        final(session).token is None,
        final(session).namespace == old(session).namespace,
        final(session).database == old(session).database,
{
    session.token = None;
}

/// Installs an authentication token on the session in place, keeping its
/// scoping. Whether the token is valid is the engine's own verdict.
pub fn authenticate(session: &mut Session, token: String)
    ensures
        final(session).token == Option::Some(token),
        final(session).namespace == old(session).namespace,
        final(session).database == old(session).database,
{
    session.token = Some(token);
}

/// Bindings handed with a query must be an object of named parameters;
/// anything else fails with an encoding error, never a silent default.
/// Absent bindings bind nothing.
pub fn parse_bindings(bindings: Option<Value>) -> (r: Result<Vec<(String, Value)>, Error>)
    ensures
        match r {
            Ok(params) => match bindings {
                Option::Some(v) => v is Object && params@ == v->Object_0@,
                Option::None => params@.len() == 0,
            },
            Err(e) => bindings matches Option::Some(v) && !(v is Object) && e.kind
                == ErrorKind::Encoding,
        },
{
    match bindings {
        Option::Some(Value::Object(fields)) => Ok(fields),
        Option::Some(_) => Err(
            Error::new(ErrorKind::Encoding, "bindings must be an object".to_owned()),
        ),
        Option::None => Ok(Vec::new()),
    }
}

/// What the engine reported for one statement of a query: its value, or
/// its own error text, each statement standing alone.
#[derive(Debug, PartialEq)]
pub enum StatementResult {
    Success(Value),
    Failure(String),
}

/// `v` is the host-facing entry for one statement result: a status marker
/// beside the statement's value or error text.
pub open spec fn statement_entry_rel(sr: StatementResult, v: Value) -> bool {
    v is Object && v->Object_0@.len() == 2 && v->Object_0@[0].0@ == "status"@
        && v->Object_0@[1].0@ == "result"@ && match sr {
        StatementResult::Success(x) => (v->Object_0@[0].1 matches Value::Strand(s) && s@ == "OK"@)
            && v->Object_0@[1].1 == x,
        StatementResult::Failure(msg) => (v->Object_0@[0].1 matches Value::Strand(s) && s@
            == "ERR"@) && v->Object_0@[1].1 == Value::Strand(msg),
    }
}

/// Collects per-statement results, in statement order, into the single
/// ordered sequence handed back to the host; a statement's failure is
/// surfaced in its own entry rather than aborting the rest.
pub fn collect_query_results(results: Vec<StatementResult>) -> (r: Value)
    ensures
        r is Array,
        r->Array_0@.len() == results@.len(),
        forall|i: int|
            0 <= i < results@.len() ==> statement_entry_rel(
                results@[i],
                #[trigger] r->Array_0@[i],
            ),
{
    let ghost rs = results@;
    let mut items = results;
    let mut out: Vec<Value> = Vec::new();
    let ghost mut i: int = 0;
    while items.len() > 0
        invariant
            0 <= i <= rs.len(),
            items@ =~= rs.subrange(i, rs.len() as int),
            out@.len() == i,
            forall|j: int| 0 <= j < i ==> statement_entry_rel(rs[j], #[trigger] out@[j]),
        decreases items@.len(),
    {
        let item = items.remove(0);
        proof {
            assert(item == rs[i]);
            assert(items@ =~= rs.subrange(i + 1, rs.len() as int));
        }
        let mut fields: Vec<(String, Value)> = Vec::new();
        match item {
            StatementResult::Success(x) => {
                fields.push(("status".to_owned(), Value::Strand("OK".to_owned())));
                fields.push(("result".to_owned(), x));
            },
            StatementResult::Failure(msg) => {
                fields.push(("status".to_owned(), Value::Strand("ERR".to_owned())));
                fields.push(("result".to_owned(), Value::Strand(msg)));
            },
        }
        out.push(Value::Object(fields));
        proof {
            i = i + 1;
        }
    }
    Value::Array(out)
}

/// Whether a CRUD target names exactly one record.
pub open spec fn is_single_target(r: Resource) -> bool {
    r is Record
}

/// How a single-record target's lone result is shaped into the uniform
/// always-an-array response. Host revisions differ on whether a lone
/// result that is itself an array is nested again, so the choice is an
/// explicit configuration rather than a silent default.
#[derive(Debug, Clone, Copy, PartialEq, Eq, Structural)]
pub enum WrapMode {
    /// A lone result that is already an array passes through unchanged;
    /// anything else is wrapped.
    KeepArrays,
    /// Every lone result is wrapped, so a single-record response holds
    /// exactly one element whatever the engine returned.
    AlwaysWrap,
}

/// Response normalization for the CRUD calls under an explicit wrap mode:
/// a single-record target's lone result becomes a one-element sequence
/// (unconditionally under `AlwaysWrap`; under `KeepArrays` an array lone
/// result stands as it is); a table or range target's result sequence
/// passes through unchanged, one element per matched row, an empty match
/// included.
pub fn crud_response_with(mode: WrapMode, target: &Resource, result: Value) -> (r: Value)
    ensures
        is_single_target(*target) && mode == WrapMode::AlwaysWrap ==> r is Array && r->Array_0@
            =~= seq![result] && r->Array_0@.len() == 1,
        is_single_target(*target) && mode == WrapMode::KeepArrays && !(result is Array) ==> r
            is Array && r->Array_0@ =~= seq![result] && r->Array_0@.len() == 1,
        is_single_target(*target) && mode == WrapMode::KeepArrays && result is Array ==> r
            == result,
        !is_single_target(*target) ==> r == result,
{
    match target {
        Resource::Record { .. } => match mode {
            WrapMode::AlwaysWrap => {
                let mut items: Vec<Value> = Vec::new();
                items.push(result);
                Value::Array(items)
            },
            WrapMode::KeepArrays => array_response(result),
        },
        _ => result,
    }
}

/// Response normalization under the `KeepArrays` compatibility mode.
pub fn crud_response(target: &Resource, result: Value) -> (r: Value)
    ensures
        is_single_target(*target) && !(result is Array) ==> r is Array && r->Array_0@ =~= seq![
            result,
        ] && r->Array_0@.len() == 1,
        is_single_target(*target) && result is Array ==> r == result,
        !is_single_target(*target) ==> r == result,
{
    crud_response_with(WrapMode::KeepArrays, target, result)
}

/// Everything decided before an incoming call reaches the engine: the
/// method, the name it arrived under, its parameters, and the lock the
/// call runs under.
#[derive(Debug)]
pub struct ExecutionPlan {
    pub lock: LockKind,
    pub method: Method,
    pub method_name: String,
    pub params: Vec<Value>,
}

/// The verified core of execute: decodes a binary request frame, names the
/// method and picks the session lock it runs under. A frame that spells no
/// request object at all is an encoding error; what the engine then does
/// with the parameters is its own verdict.
pub fn plan_execution(frame: &[u8]) -> (r: Result<ExecutionPlan, Error>)
    ensures
        match r {
            Ok(plan) => {
                &&& exists|v: Value|
                    #![auto]
                    crate::frame::encodable(v) && crate::frame::spec_encode(v) == frame@ && v
                        is Object && crate::frame::request_rel(
                        v->Object_0@,
                        plan.method_name,
                        plan.params,
                    )
                &&& plan.method == spec_parse_method(plan.method_name@)
                &&& (plan.lock == LockKind::SharedRead <==> spec_can_be_immut(plan.method))
            },
            Err(e) => e.kind == ErrorKind::Encoding && !(exists|v: Value, m: String, ps: Vec<
                Value,
            >|
                #![auto]
                crate::frame::encodable(v) && crate::frame::spec_encode(v) == frame@ && v
                    is Object && crate::frame::request_rel(v->Object_0@, m, ps)),
        },
{
    let (method_name, params) = match crate::frame::decode_request(frame) {
        Ok(p) => p,
        Err(e) => {
            return Err(e);
        },
    };
    let method = parse_method(method_name.as_str());
    let lock = lock_for(method);
    Ok(ExecutionPlan { lock, method, method_name, params })
}

/// The version banner the connection reports: the product name, a dash,
/// and the build's engine version string, computed once per call from that
/// immutable datum.
pub fn version_banner(engine_version: &str) -> (r: String)
    ensures
        r@ == "surrealdb-"@ + engine_version@,
{
    let mut out = "surrealdb-".to_owned();
    out.append(engine_version);
    out
}

/// After teardown every operation on the handle fails deterministically
/// rather than reach freed engine state.
pub fn guard_open(open: bool) -> (r: Result<(), Error>)
    ensures
        r is Ok <==> open,
        r matches Err(e) ==> e.kind == ErrorKind::Engine,
{
    if open {
        Ok(())
    } else {
        Err(Error::new(ErrorKind::Engine, "connection is closed".to_owned()))
    }
}

} // verus!
