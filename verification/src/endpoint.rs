use vstd::prelude::*;
use crate::error::{Error, ErrorKind};
use crate::value::{get_field, lookup, Value};

verus! {

/// Connection options handed by the host at connect time: strictness,
/// query/transaction timeouts in seconds, and an optional capability policy.
/// Parsed once, consumed to configure the engine instance, not retained.
#[derive(Debug, PartialEq)]
pub struct Options {
    pub strict: Option<bool>,
    pub query_timeout: Option<u8>,
    pub transaction_timeout: Option<u8>,
    pub capabilities: Option<CapabilitiesConfig>,
}

/// Capability policy as the host writes it: either one blanket boolean or a
/// structure of independent sub-policies.
#[derive(Debug, PartialEq)]
pub enum CapabilitiesConfig {
    Bool(bool),
    Capabilities {
        scripting: Option<bool>,
        guest_access: Option<bool>,
        live_query_notifications: Option<bool>,
        functions: Option<Targets>,
        network_targets: Option<Targets>,
    },
}

/// A sub-policy over named targets: a blanket boolean, a plain list of
/// allowed names, or separate allow and deny lists.
#[derive(Debug, PartialEq)]
pub enum Targets {
    Bool(bool),
    Array(Vec<String>),
    Config { allow: Option<TargetsConfig>, deny: Option<TargetsConfig> },
}

/// One side (allow or deny) of a target sub-policy.
#[derive(Debug, PartialEq)]
pub enum TargetsConfig {
    Bool(bool),
    Array(Vec<String>),
}

/// The views of a list of strings.
pub open spec fn views_of(xs: Seq<String>) -> Seq<Seq<char>> {
    xs.map_values(|s: String| s@)
}

pub open spec fn all_strands(vs: Seq<Value>) -> bool {
    forall|i: int| 0 <= i < vs.len() ==> vs[i] is Strand
}

/// The string contents of a list of string values (meaningful under
/// `all_strands`).
pub open spec fn strand_views(vs: Seq<Value>) -> Seq<Seq<char>> {
    vs.map_values(|v: Value| v->Strand_0@)
}

pub open spec fn targets_config_shape(v: Value) -> bool {
    ||| v is Bool
    ||| (v is Array && all_strands(v->Array_0@))
}

/// `t` is the interpretation of the host value `v` as one allow/deny side.
pub open spec fn targets_config_rel(v: Value, t: TargetsConfig) -> bool {
    match t {
        TargetsConfig::Bool(b) => v == Value::Bool(b),
        TargetsConfig::Array(xs) => v is Array && all_strands(v->Array_0@) && views_of(xs@)
            == strand_views(v->Array_0@),
    }
}

/// Shape of an optional allow/deny entry of a target sub-policy object.
pub open spec fn opt_targets_config_shape(entry: Option<Value>) -> bool {
    match entry {
        Option::None => true,
        Option::Some(v) => targets_config_shape(v),
    }
}

pub open spec fn opt_targets_config_rel(entry: Option<Value>, t: Option<TargetsConfig>) -> bool {
    match (entry, t) {
        (Option::None, Option::None) => true,
        (Option::Some(v), Option::Some(tc)) => targets_config_rel(v, tc),
        _ => false,
    }
}

pub open spec fn targets_shape(v: Value) -> bool {
    ||| v is Bool
    ||| (v is Array && all_strands(v->Array_0@))
    ||| (v is Object && opt_targets_config_shape(lookup(v->Object_0@, "allow"@))
        && opt_targets_config_shape(lookup(v->Object_0@, "deny"@)))
}

/// `t` is the interpretation of the host value `v` as a target sub-policy.
/// A boolean is read first, then a plain list, then an allow/deny object.
pub open spec fn targets_rel(v: Value, t: Targets) -> bool {
    match t {
        Targets::Bool(b) => v == Value::Bool(b),
        Targets::Array(xs) => v is Array && all_strands(v->Array_0@) && views_of(xs@)
            == strand_views(v->Array_0@),
        Targets::Config { allow, deny } => v is Object && opt_targets_config_rel(
            lookup(v->Object_0@, "allow"@),
            allow,
        ) && opt_targets_config_rel(lookup(v->Object_0@, "deny"@), deny),
    }
}

pub open spec fn opt_targets_shape(entry: Option<Value>) -> bool {
    match entry {
        Option::None => true,
        Option::Some(v) => targets_shape(v),
    }
}

pub open spec fn opt_targets_rel(entry: Option<Value>, t: Option<Targets>) -> bool {
    match (entry, t) {
        (Option::None, Option::None) => true,
        (Option::Some(v), Option::Some(ts)) => targets_rel(v, ts),
        _ => false,
    }
}

pub open spec fn capabilities_config_shape(v: Value) -> bool {
    ||| v is Bool
    ||| (v is Object && {
        let f = v->Object_0@;
        &&& opt_bool_shape(lookup(f, "scripting"@))
        &&& opt_bool_shape(lookup(f, "guest_access"@))
        &&& opt_bool_shape(lookup(f, "live_query_notifications"@))
        &&& opt_targets_shape(lookup(f, "functions"@))
        &&& opt_targets_shape(lookup(f, "network_targets"@))
    })
}

/// `c` is the interpretation of the host value `v` as a capability policy.
pub open spec fn capabilities_config_rel(v: Value, c: CapabilitiesConfig) -> bool {
    match c {
        CapabilitiesConfig::Bool(b) => v == Value::Bool(b),
        CapabilitiesConfig::Capabilities {
            scripting,
            guest_access,
            live_query_notifications,
            functions,
            network_targets,
        } => v is Object && {
            let f = v->Object_0@;
            &&& opt_bool_rel(lookup(f, "scripting"@), scripting)
            &&& opt_bool_rel(lookup(f, "guest_access"@), guest_access)
            &&& opt_bool_rel(lookup(f, "live_query_notifications"@), live_query_notifications)
            &&& opt_targets_rel(lookup(f, "functions"@), functions)
            &&& opt_targets_rel(lookup(f, "network_targets"@), network_targets)
        },
    }
}

pub open spec fn opt_bool_shape(entry: Option<Value>) -> bool {
    match entry {
        Option::None => true,
        Option::Some(v) => v is Bool,
    }
}

pub open spec fn opt_bool_rel(entry: Option<Value>, b: Option<bool>) -> bool {
    match (entry, b) {
        (Option::None, Option::None) => true,
        (Option::Some(v), Option::Some(x)) => v == Value::Bool(x),
        _ => false,
    }
}

pub open spec fn opt_u8_shape(entry: Option<Value>) -> bool {
    match entry {
        Option::None => true,
        Option::Some(v) => v is Int && 0 <= v->Int_0 <= u8::MAX,
    }
}

pub open spec fn opt_u8_rel(entry: Option<Value>, n: Option<u8>) -> bool {
    match (entry, n) {
        (Option::None, Option::None) => true,
        (Option::Some(v), Option::Some(x)) => v == Value::Int(x as i64),
        _ => false,
    }
}

/// Shape of a whole connection-options object. Unknown fields are ignored,
/// as the host may send more than the binding reads.
pub open spec fn options_shape(v: Value) -> bool {
    &&& v is Object
    &&& opt_bool_shape(lookup(v->Object_0@, "strict"@))
    &&& opt_u8_shape(lookup(v->Object_0@, "query_timeout"@))
    &&& opt_u8_shape(lookup(v->Object_0@, "transaction_timeout"@))
    &&& match lookup(v->Object_0@, "capabilities"@) {
        Option::None => true,
        Option::Some(c) => capabilities_config_shape(c),
    }
}

pub open spec fn options_rel(v: Value, o: Options) -> bool {
    &&& v is Object
    &&& opt_bool_rel(lookup(v->Object_0@, "strict"@), o.strict)
    &&& opt_u8_rel(lookup(v->Object_0@, "query_timeout"@), o.query_timeout)
    &&& opt_u8_rel(lookup(v->Object_0@, "transaction_timeout"@), o.transaction_timeout)
    &&& match (lookup(v->Object_0@, "capabilities"@), o.capabilities) {
        (Option::None, Option::None) => true,
        (Option::Some(cv), Option::Some(c)) => capabilities_config_rel(cv, c),
        _ => false,
    }
}

/// Collects the contents of a list of string values, rejecting any
/// non-string element.
fn parse_string_list(vs: &Vec<Value>) -> (r: Result<Vec<String>, Error>)
    ensures
        match r {
            Ok(xs) => all_strands(vs@) && views_of(xs@) == strand_views(vs@),
            Err(e) => !all_strands(vs@) && e.kind == ErrorKind::Malformed,
        },
{
    let mut out: Vec<String> = Vec::new();
    let mut i: usize = 0;
    while i < vs.len()
        invariant
            0 <= i <= vs.len(),
            out@.len() == i,
            forall|j: int|
                0 <= j < i ==> #[trigger] vs@[j] is Strand && out@[j]@ == vs@[j]->Strand_0@,
        decreases vs.len() - i,
    {
        match &vs[i] {
            Value::Strand(s) => {
                out.push(s.clone());
            },
            _ => {
                return Err(
                    Error::new(ErrorKind::Malformed, "expected a list of strings".to_owned()),
                );
            },
        }
        i += 1;
    }
    proof {
        assert forall|j: int| 0 <= j < vs@.len() implies #[trigger] views_of(out@)[j]
            == strand_views(vs@)[j] by {
            assert(out@[j]@ == vs@[j]->Strand_0@);
        }
        assert(views_of(out@) =~= strand_views(vs@));
    }
    Ok(out)
}

/// Reads one allow/deny side: a boolean or a list of names.
fn parse_targets_config(v: &Value) -> (r: Result<TargetsConfig, Error>)
    ensures
        match r {
            Ok(t) => targets_config_shape(*v) && targets_config_rel(*v, t),
            Err(e) => !targets_config_shape(*v) && e.kind == ErrorKind::Malformed,
        },
{
    match v {
        Value::Bool(b) => Ok(TargetsConfig::Bool(*b)),
        Value::Array(vs) => match parse_string_list(vs) {
            Ok(xs) => Ok(TargetsConfig::Array(xs)),
            Err(e) => Err(e),
        },
        _ => Err(
            Error::new(
                ErrorKind::Malformed,
                "expected a boolean or a list of strings".to_owned(),
            ),
        ),
    }
}

/// Reads a target sub-policy: a boolean is tried first, then a plain list,
/// then an object with optional allow and deny sides.
fn parse_targets(v: &Value) -> (r: Result<Targets, Error>)
    ensures
        match r {
            Ok(t) => targets_shape(*v) && targets_rel(*v, t),
            Err(e) => !targets_shape(*v) && e.kind == ErrorKind::Malformed,
        },
{
    match v {
        Value::Bool(b) => Ok(Targets::Bool(*b)),
        Value::Array(vs) => match parse_string_list(vs) {
            Ok(xs) => Ok(Targets::Array(xs)),
            Err(e) => Err(e),
        },
        Value::Object(fields) => {
            let allow = match get_field(fields, &"allow".to_owned()) {
                Option::Some(av) => match parse_targets_config(av) {
                    Ok(t) => Option::Some(t),
                    Err(e) => {
                        return Err(e);
                    },
                },
                Option::None => Option::None,
            };
            let deny = match get_field(fields, &"deny".to_owned()) {
                Option::Some(dv) => match parse_targets_config(dv) {
                    Ok(t) => Option::Some(t),
                    Err(e) => {
                        return Err(e);
                    },
                },
                Option::None => Option::None,
            };
            Ok(Targets::Config { allow, deny })
        },
        _ => Err(
            Error::new(
                ErrorKind::Malformed,
                "expected a boolean, a list of strings or an allow/deny object".to_owned(),
            ),
        ),
    }
}

/// Reads a capability policy from the host's loosely-typed value.
pub fn parse_capabilities_config(v: &Value) -> (r: Result<CapabilitiesConfig, Error>)
    ensures
        match r {
            Ok(c) => capabilities_config_shape(*v) && capabilities_config_rel(*v, c),
            Err(e) => !capabilities_config_shape(*v) && e.kind == ErrorKind::Malformed,
        },
{
    match v {
        Value::Bool(b) => Ok(CapabilitiesConfig::Bool(*b)),
        Value::Object(fields) => {
            let scripting = match parse_opt_bool_field(fields, "scripting") {
                Ok(b) => b,
                Err(e) => {
                    return Err(e);
                },
            };
            let guest_access = match parse_opt_bool_field(fields, "guest_access") {
                Ok(b) => b,
                Err(e) => {
                    return Err(e);
                },
            };
            let live_query_notifications = match parse_opt_bool_field(
                fields,
                "live_query_notifications",
            ) {
                Ok(b) => b,
                Err(e) => {
                    return Err(e);
                },
            };
            let functions = match get_field(fields, &"functions".to_owned()) {
                Option::Some(fv) => match parse_targets(fv) {
                    Ok(t) => Option::Some(t),
                    Err(e) => {
                        return Err(e);
                    },
                },
                Option::None => Option::None,
            };
            let network_targets = match get_field(fields, &"network_targets".to_owned()) {
                Option::Some(nv) => match parse_targets(nv) {
                    Ok(t) => Option::Some(t),
                    Err(e) => {
                        return Err(e);
                    },
                },
                Option::None => Option::None,
            };
            Ok(
                CapabilitiesConfig::Capabilities {
                    scripting,
                    guest_access,
                    live_query_notifications,
                    functions,
                    network_targets,
                },
            )
        },
        _ => Err(
            Error::new(
                ErrorKind::Malformed,
                "expected a boolean or a capabilities object".to_owned(),
            ),
        ),
    }
}

/// Reads one optional boolean field of an options object.
fn parse_opt_bool_field(fields: &Vec<(String, Value)>, key: &str) -> (r: Result<
    Option<bool>,
    Error,
>)
    ensures
        match r {
            Ok(b) => opt_bool_shape(lookup(fields@, key@)) && opt_bool_rel(
                lookup(fields@, key@),
                b,
            ),
            Err(e) => !opt_bool_shape(lookup(fields@, key@)) && e.kind == ErrorKind::Malformed,
        },
{
    match get_field(fields, &key.to_owned()) {
        Option::Some(v) => match v {
            Value::Bool(b) => Ok(Option::Some(*b)),
            _ => Err(Error::new(ErrorKind::Malformed, "expected a boolean".to_owned())),
        },
        Option::None => {
            proof {
                crate::value::lemma_lookup_some_iff_has_key(fields@, key@);
            }
            Ok(Option::None)
        },
    }
}

/// Reads one optional timeout field: an integer number of seconds that must
/// fit in a byte, as the host contract states.
fn parse_opt_u8_field(fields: &Vec<(String, Value)>, key: &str) -> (r: Result<Option<u8>, Error>)
    ensures
        match r {
            Ok(n) => opt_u8_shape(lookup(fields@, key@)) && opt_u8_rel(lookup(fields@, key@), n),
            Err(e) => !opt_u8_shape(lookup(fields@, key@)) && e.kind == ErrorKind::Malformed,
        },
{
    match get_field(fields, &key.to_owned()) {
        Option::Some(v) => match v {
            Value::Int(n) => {
                if 0 <= *n && *n <= u8::MAX as i64 {
                    Ok(Option::Some(*n as u8))
                } else {
                    Err(
                        Error::new(
                            ErrorKind::Malformed,
                            "timeout does not fit in a byte".to_owned(),
                        ),
                    )
                }
            },
            _ => Err(Error::new(ErrorKind::Malformed, "expected an integer".to_owned())),
        },
        Option::None => {
            proof {
                crate::value::lemma_lookup_some_iff_has_key(fields@, key@);
            }
            Ok(Option::None)
        },
    }
}

/// Reads a whole connection-options object from the host's loosely-typed
/// value. Exactly the well-shaped values parse; every malformed one is
/// rejected before any engine call.
pub fn parse_options(v: &Value) -> (r: Result<Options, Error>)
    ensures
        match r {
            Ok(o) => options_shape(*v) && options_rel(*v, o),
            Err(e) => !options_shape(*v) && e.kind == ErrorKind::Malformed,
        },
{
    match v {
        Value::Object(fields) => {
            let strict = match parse_opt_bool_field(fields, "strict") {
                Ok(b) => b,
                Err(e) => {
                    return Err(e);
                },
            };
            let query_timeout = match parse_opt_u8_field(fields, "query_timeout") {
                Ok(n) => n,
                Err(e) => {
                    return Err(e);
                },
            };
            let transaction_timeout = match parse_opt_u8_field(fields, "transaction_timeout") {
                Ok(n) => n,
                Err(e) => {
                    return Err(e);
                },
            };
            let capabilities = match get_field(fields, &"capabilities".to_owned()) {
                Option::Some(cv) => match parse_capabilities_config(cv) {
                    Ok(c) => Option::Some(c),
                    Err(e) => {
                        return Err(e);
                    },
                },
                Option::None => Option::None,
            };
            Ok(Options { strict, query_timeout, transaction_timeout, capabilities })
        },
        _ => Err(Error::new(ErrorKind::Malformed, "expected an options object".to_owned())),
    }
}

} // verus!
