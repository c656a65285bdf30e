use vstd::prelude::*;
use crate::error::{Error, ErrorKind};
use crate::value::{
    get_field, lemma_first_occurrence, lemma_lookup_remove_other, lemma_no_occurrence, lookup,
    remove_key, strand_entry, take_field, Value,
};

verus! {

/// Authentication credentials as a tagged union over the built-in root,
/// namespace and database roles and application-defined scope rules; each
/// variant carries a disjoint field set, and the variant is decided by
/// which scoping fields the host's credential object holds.
#[derive(Debug, PartialEq)]
pub enum Credentials {
    Root { username: String, password: String },
    Namespace { namespace: String, username: String, password: String },
    Database { namespace: String, database: String, username: String, password: String },
    Scope { namespace: String, database: String, scope: String, params: Vec<(String, Value)> },
}

/// The well-shaped credential objects: a scope name demands namespace and
/// database beside it; without one, username and password decide a built-in
/// role, a database never standing without its namespace. Anything else is
/// rejected before any engine call.
pub open spec fn cred_shape(f: Seq<(String, Value)>) -> bool {
    if lookup(f, "scope"@) is Some {
        strand_entry(lookup(f, "scope"@)) && strand_entry(lookup(f, "namespace"@)) && strand_entry(
            lookup(f, "database"@),
        )
    } else {
        strand_entry(lookup(f, "username"@)) && strand_entry(lookup(f, "password"@)) && match (
            lookup(f, "namespace"@),
            lookup(f, "database"@),
        ) {
            (Option::None, Option::None) => true,
            (Option::Some(n), Option::None) => n is Strand,
            (Option::Some(n), Option::Some(d)) => n is Strand && d is Strand,
            (Option::None, Option::Some(_)) => false,
        }
    }
}

/// `c` is the reading of the credential object with fields `f`.
pub open spec fn cred_rel(f: Seq<(String, Value)>, c: Credentials) -> bool {
    match c {
        Credentials::Root { username, password } => {
            &&& lookup(f, "scope"@) is None
            &&& lookup(f, "namespace"@) is None
            &&& lookup(f, "database"@) is None
            &&& lookup(f, "username"@) == Option::Some(Value::Strand(username))
            &&& lookup(f, "password"@) == Option::Some(Value::Strand(password))
        },
        Credentials::Namespace { namespace, username, password } => {
            &&& lookup(f, "scope"@) is None
            &&& lookup(f, "database"@) is None
            &&& lookup(f, "namespace"@) == Option::Some(Value::Strand(namespace))
            &&& lookup(f, "username"@) == Option::Some(Value::Strand(username))
            &&& lookup(f, "password"@) == Option::Some(Value::Strand(password))
        },
        Credentials::Database { namespace, database, username, password } => {
            &&& lookup(f, "scope"@) is None
            &&& lookup(f, "namespace"@) == Option::Some(Value::Strand(namespace))
            &&& lookup(f, "database"@) == Option::Some(Value::Strand(database))
            &&& lookup(f, "username"@) == Option::Some(Value::Strand(username))
            &&& lookup(f, "password"@) == Option::Some(Value::Strand(password))
        },
        Credentials::Scope { namespace, database, scope, params } => {
            &&& lookup(f, "scope"@) == Option::Some(Value::Strand(scope))
            &&& lookup(f, "namespace"@) == Option::Some(Value::Strand(namespace))
            &&& lookup(f, "database"@) == Option::Some(Value::Strand(database))
            &&& params@ == remove_key(
                remove_key(remove_key(f, "namespace"@), "database"@),
                "scope"@,
            )
        },
    }
}

/// The credential keys are five distinct words.
proof fn lemma_cred_keys_distinct()
    ensures
        "scope"@ != "namespace"@,
        "scope"@ != "database"@,
        "scope"@ != "username"@,
        "scope"@ != "password"@,
        "namespace"@ != "database"@,
        "namespace"@ != "username"@,
        "namespace"@ != "password"@,
        "database"@ != "username"@,
        "database"@ != "password"@,
        "username"@ != "password"@,
{
    reveal_strlit("scope");
    reveal_strlit("namespace");
    reveal_strlit("database");
    reveal_strlit("username");
    reveal_strlit("password");
    assert("scope"@.len() == 5);
    assert("namespace"@.len() == 9);
    assert("database"@.len() == 8);
    assert("username"@.len() == 8);
    assert("password"@.len() == 8);
    assert("database"@[0] == 'd');
    assert("username"@[0] == 'u');
    assert("password"@[0] == 'p');
}

/// Which tagged variant a credential object is read as is decided by which
/// scoping keys it holds: a scope name always yields scope credentials, and
/// the namespace/database keys pick among the built-in roles.
pub proof fn lemma_credentials_variant(f: Seq<(String, Value)>, c: Credentials)
    requires
        cred_rel(f, c),
    ensures
        c is Scope <==> lookup(f, "scope"@) is Some,
        c is Database <==> lookup(f, "scope"@) is None && lookup(f, "namespace"@) is Some && lookup(
            f,
            "database"@,
        ) is Some,
        c is Namespace <==> lookup(f, "scope"@) is None && lookup(f, "namespace"@) is Some
            && lookup(f, "database"@) is None,
        c is Root <==> lookup(f, "scope"@) is None && lookup(f, "namespace"@) is None && lookup(
            f,
            "database"@,
        ) is None,
{
}

/// Equality of credentials up to the contents of the scope parameter list.
pub open spec fn cred_eq(a: Credentials, b: Credentials) -> bool {
    match (a, b) {
        (
            Credentials::Scope { namespace: n1, database: d1, scope: s1, params: p1 },
            Credentials::Scope { namespace: n2, database: d2, scope: s2, params: p2 },
        ) => n1 == n2 && d1 == d2 && s1 == s2 && p1@ == p2@,
        _ => a == b,
    }
}

/// Reading a credential object is unambiguous: two credentials read from
/// the same object are the same, so a well-shaped object round-trips to
/// exactly one tagged variant.
pub proof fn lemma_credentials_unambiguous(f: Seq<(String, Value)>, c1: Credentials, c2: Credentials)
    requires
        cred_rel(f, c1),
        cred_rel(f, c2),
    ensures
        cred_eq(c1, c2),
{
    lemma_credentials_variant(f, c1);
    lemma_credentials_variant(f, c2);
}

/// Reads a credential object, consuming it. Exactly the well-shaped
/// objects are accepted; every other shape fails here, before any engine
/// call. For scope credentials the fields beyond the three scoping keys are
/// kept, in order, as the parameters of the scope's own rules.
pub fn parse_credentials(v: Value) -> (r: Result<Credentials, Error>)
    ensures
        match r {
            Ok(c) => v is Object && cred_shape(v->Object_0@) && cred_rel(v->Object_0@, c),
            Err(e) => (!(v is Object) || !cred_shape(v->Object_0@)) && e.kind
                == ErrorKind::Malformed,
        },
{
    let mut fields = match v {
        Value::Object(fields) => fields,
        _ => {
            return Err(
                Error::new(ErrorKind::Malformed, "expected a credentials object".to_owned()),
            );
        },
    };
    let ghost f = fields@;
    proof {
        lemma_cred_keys_distinct();
    }
    let scope_present = match get_field(&fields, &"scope".to_owned()) {
        Option::Some(sv) => match sv {
            Value::Strand(_) => true,
            _ => {
                return Err(
                    Error::new(ErrorKind::Malformed, "scope must be a string".to_owned()),
                );
            },
        },
        Option::None => false,
    };
    if scope_present {
        let namespace = match take_field(&mut fields, &"namespace".to_owned()) {
            Option::Some(Value::Strand(s)) => s,
            _ => {
                return Err(
                    Error::new(
                        ErrorKind::Malformed,
                        "scope credentials require a namespace".to_owned(),
                    ),
                );
            },
        };
        proof {
            lemma_lookup_remove_other(f, "namespace"@, "database"@);
            lemma_lookup_remove_other(f, "namespace"@, "scope"@);
        }
        let database = match take_field(&mut fields, &"database".to_owned()) {
            Option::Some(Value::Strand(s)) => s,
            _ => {
                return Err(
                    Error::new(
                        ErrorKind::Malformed,
                        "scope credentials require a database".to_owned(),
                    ),
                );
            },
        };
        proof {
            lemma_lookup_remove_other(remove_key(f, "namespace"@), "database"@, "scope"@);
        }
        let scope = match take_field(&mut fields, &"scope".to_owned()) {
            Option::Some(Value::Strand(s)) => s,
            _ => {
                return Err(
                    Error::new(ErrorKind::Malformed, "scope must be a string".to_owned()),
                );
            },
        };
        Ok(Credentials::Scope { namespace, database, scope, params: fields })
    } else {
        let username = match take_field(&mut fields, &"username".to_owned()) {
            Option::Some(Value::Strand(s)) => s,
            _ => {
                return Err(
                    Error::new(
                        ErrorKind::Malformed,
                        "credentials require username and password strings".to_owned(),
                    ),
                );
            },
        };
        proof {
            lemma_lookup_remove_other(f, "username"@, "password"@);
            lemma_lookup_remove_other(f, "username"@, "namespace"@);
            lemma_lookup_remove_other(f, "username"@, "database"@);
            lemma_lookup_remove_other(f, "username"@, "scope"@);
        }
        let ghost f1 = remove_key(f, "username"@);
        let password = match take_field(&mut fields, &"password".to_owned()) {
            Option::Some(Value::Strand(s)) => s,
            _ => {
                return Err(
                    Error::new(
                        ErrorKind::Malformed,
                        "credentials require username and password strings".to_owned(),
                    ),
                );
            },
        };
        proof {
            lemma_lookup_remove_other(f1, "password"@, "namespace"@);
            lemma_lookup_remove_other(f1, "password"@, "database"@);
            lemma_lookup_remove_other(f1, "password"@, "scope"@);
        }
        let ghost f2 = remove_key(f1, "password"@);
        let namespace = match take_field(&mut fields, &"namespace".to_owned()) {
            Option::Some(Value::Strand(s)) => Option::Some(s),
            Option::Some(_) => {
                return Err(
                    Error::new(ErrorKind::Malformed, "namespace must be a string".to_owned()),
                );
            },
            Option::None => Option::None,
        };
        proof {
            lemma_lookup_remove_other(f2, "namespace"@, "database"@);
            lemma_lookup_remove_other(f2, "namespace"@, "scope"@);
        }
        let ghost f3 = remove_key(f2, "namespace"@);
        let database = match take_field(&mut fields, &"database".to_owned()) {
            Option::Some(Value::Strand(s)) => Option::Some(s),
            Option::Some(_) => {
                return Err(
                    Error::new(ErrorKind::Malformed, "database must be a string".to_owned()),
                );
            },
            Option::None => Option::None,
        };
        match (namespace, database) {
            (Option::Some(namespace), Option::Some(database)) => Ok(
                Credentials::Database { namespace, database, username, password },
            ),
            (Option::Some(namespace), Option::None) => Ok(
                Credentials::Namespace { namespace, username, password },
            ),
            (Option::None, Option::None) => Ok(Credentials::Root { username, password }),
            (Option::None, Option::Some(_)) => Err(
                Error::new(
                    ErrorKind::Malformed,
                    "a database credential requires its namespace".to_owned(),
                ),
            ),
        }
    }
}

/// Writes credentials back as the credential object they parse from: the
/// scoping keys first, then, for scope credentials, the scope's own
/// parameters in order. Together with the reading relation this is the
/// round trip: the object built here is well shaped and reads back as the
/// same tagged variant with the same fields.
pub fn credentials_to_value(c: Credentials) -> (v: Value)
    ensures
        v is Object,
        cred_shape(v->Object_0@),
        cred_rel(v->Object_0@, c),
{
    proof {
        lemma_cred_keys_distinct();
    }
    let mut fields: Vec<(String, Value)> = Vec::new();
    match c {
        Credentials::Root { username, password } => {
            fields.push(("username".to_owned(), Value::Strand(username)));
            fields.push(("password".to_owned(), Value::Strand(password)));
            proof {
                let f = fields@;
                assert forall|j: int| 0 <= j < f.len() implies #[trigger] f[j].0@ != "scope"@ by {}
                lemma_no_occurrence(f, "scope"@);
                assert forall|j: int|
                    0 <= j < f.len() implies #[trigger] f[j].0@ != "namespace"@ by {}
                lemma_no_occurrence(f, "namespace"@);
                assert forall|j: int|
                    0 <= j < f.len() implies #[trigger] f[j].0@ != "database"@ by {}
                lemma_no_occurrence(f, "database"@);
                lemma_first_occurrence(f, "username"@, 0);
                lemma_first_occurrence(f, "password"@, 1);
            }
            Value::Object(fields)
        },
        Credentials::Namespace { namespace, username, password } => {
            fields.push(("namespace".to_owned(), Value::Strand(namespace)));
            fields.push(("username".to_owned(), Value::Strand(username)));
            fields.push(("password".to_owned(), Value::Strand(password)));
            proof {
                let f = fields@;
                assert forall|j: int| 0 <= j < f.len() implies #[trigger] f[j].0@ != "scope"@ by {}
                lemma_no_occurrence(f, "scope"@);
                assert forall|j: int|
                    0 <= j < f.len() implies #[trigger] f[j].0@ != "database"@ by {}
                lemma_no_occurrence(f, "database"@);
                lemma_first_occurrence(f, "namespace"@, 0);
                lemma_first_occurrence(f, "username"@, 1);
                lemma_first_occurrence(f, "password"@, 2);
            }
            Value::Object(fields)
        },
        Credentials::Database { namespace, database, username, password } => {
            fields.push(("namespace".to_owned(), Value::Strand(namespace)));
            fields.push(("database".to_owned(), Value::Strand(database)));
            fields.push(("username".to_owned(), Value::Strand(username)));
            fields.push(("password".to_owned(), Value::Strand(password)));
            proof {
                let f = fields@;
                assert forall|j: int| 0 <= j < f.len() implies #[trigger] f[j].0@ != "scope"@ by {}
                lemma_no_occurrence(f, "scope"@);
                lemma_first_occurrence(f, "namespace"@, 0);
                lemma_first_occurrence(f, "database"@, 1);
                lemma_first_occurrence(f, "username"@, 2);
                lemma_first_occurrence(f, "password"@, 3);
            }
            Value::Object(fields)
        },
        Credentials::Scope { namespace, database, scope, params } => {
            let mut rest = params;
            fields.push(("namespace".to_owned(), Value::Strand(namespace)));
            fields.push(("database".to_owned(), Value::Strand(database)));
            fields.push(("scope".to_owned(), Value::Strand(scope)));
            let ghost head = fields@;
            let ghost tail = rest@;
            fields.append(&mut rest);
            proof {
                let f = fields@;
                assert(f =~= head + tail);
                assert(f[0] == head[0] && f[1] == head[1] && f[2] == head[2]);
                lemma_first_occurrence(f, "namespace"@, 0);
                lemma_first_occurrence(f, "database"@, 1);
                lemma_first_occurrence(f, "scope"@, 2);
                assert(remove_key(f, "namespace"@) =~= f.remove(0));
                assert(f.remove(0) =~= head.subrange(1, 3) + tail);
                let f1 = head.subrange(1, 3) + tail;
                assert(f1[0] == head[1] && f1[1] == head[2]);
                lemma_first_occurrence(f1, "database"@, 0);
                assert(remove_key(f1, "database"@) =~= f1.remove(0));
                assert(f1.remove(0) =~= head.subrange(2, 3) + tail);
                let f2 = head.subrange(2, 3) + tail;
                assert(f2[0] == head[2]);
                lemma_first_occurrence(f2, "scope"@, 0);
                assert(remove_key(f2, "scope"@) =~= f2.remove(0));
                assert(f2.remove(0) =~= tail);
            }
            Value::Object(fields)
        },
    }
}

/// Sign-up reaches the engine only with scope credentials; the built-in
/// roles are rejected with a usage error before any engine call.
pub fn check_signup(c: &Credentials) -> (r: Result<(), Error>)
    ensures
        r is Ok <==> c is Scope,
        r is Err ==> r->Err_0.kind == ErrorKind::Usage,
{
    match c {
        Credentials::Scope { .. } => Ok(()),
        _ => Err(
            Error::new(ErrorKind::Usage, "signup requires scope credentials".to_owned()),
        ),
    }
}

} // verus!
