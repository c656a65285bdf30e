use surrealdb_node::capabilities::{resolve_capabilities, Capabilities, TargetSet};
use surrealdb_node::credentials::{check_signup, parse_credentials, Credentials};
use surrealdb_node::endpoint::{parse_options, CapabilitiesConfig, Targets, TargetsConfig};
use surrealdb_node::error::ErrorKind;
use surrealdb_node::resource::{parse_resource, Bound, Resource};
use surrealdb_node::value::Value;

fn obj(fields: Vec<(&str, Value)>) -> Value {
    Value::Object(fields.into_iter().map(|(k, v)| (k.to_string(), v)).collect())
}

fn s(text: &str) -> Value {
    Value::Strand(text.to_string())
}

#[test]
fn options_full_object() {
    let v = obj(vec![
        ("strict", Value::Bool(true)),
        ("query_timeout", Value::Int(5)),
        ("transaction_timeout", Value::Int(10)),
        ("capabilities", Value::Bool(true)),
    ]);
    let o = parse_options(&v).unwrap();
    assert_eq!(o.strict, Some(true));
    assert_eq!(o.query_timeout, Some(5));
    assert_eq!(o.transaction_timeout, Some(10));
    assert!(matches!(o.capabilities, Some(CapabilitiesConfig::Bool(true))));
}

#[test]
fn options_empty_object_is_all_defaults() {
    let o = parse_options(&obj(vec![])).unwrap();
    assert_eq!(o.strict, None);
    assert_eq!(o.query_timeout, None);
    assert_eq!(o.transaction_timeout, None);
    assert!(o.capabilities.is_none());
}

#[test]
fn options_ignores_unknown_fields() {
    let v = obj(vec![("something_else", Value::Int(1)), ("strict", Value::Bool(false))]);
    let o = parse_options(&v).unwrap();
    assert_eq!(o.strict, Some(false));
}

#[test]
fn options_rejects_non_object() {
    let e = parse_options(&Value::Int(3)).unwrap_err();
    assert_eq!(e.kind(), ErrorKind::Malformed);
}

#[test]
fn options_rejects_oversized_timeout() {
    let v = obj(vec![("query_timeout", Value::Int(300))]);
    let e = parse_options(&v).unwrap_err();
    assert_eq!(e.kind(), ErrorKind::Malformed);
}

#[test]
fn options_rejects_non_boolean_strict() {
    let v = obj(vec![("strict", s("yes"))]);
    let e = parse_options(&v).unwrap_err();
    assert_eq!(e.kind(), ErrorKind::Malformed);
}

#[test]
fn capabilities_blanket_true_allows_everything() {
    let v = obj(vec![("capabilities", Value::Bool(true))]);
    let o = parse_options(&v).unwrap();
    let caps = resolve_capabilities(o.capabilities.unwrap());
    assert_eq!(caps, Capabilities::all_set());
    assert!(caps.scripting);
    assert!(caps.guest_access);
    assert!(caps.live_query_notifications);
    assert_eq!(caps.functions.allow, TargetSet::All);
    assert_eq!(caps.network_targets.allow, TargetSet::All);
}

#[test]
fn capabilities_blanket_false_allows_no_functions() {
    let caps = resolve_capabilities(CapabilitiesConfig::Bool(false));
    assert!(!caps.scripting);
    assert!(!caps.guest_access);
    assert_eq!(caps.functions.allow, TargetSet::Empty);
    assert_eq!(caps.network_targets.allow, TargetSet::Empty);
}

#[test]
fn capabilities_structured_policy_resolves_field_by_field() {
    let v = obj(vec![(
        "capabilities",
        obj(vec![
            ("scripting", Value::Bool(true)),
            ("functions", Value::Array(vec![s("math::sum")])),
            (
                "network_targets",
                obj(vec![
                    ("allow", Value::Array(vec![s("example.com")])),
                    ("deny", Value::Bool(true)),
                ]),
            ),
        ]),
    )]);
    let o = parse_options(&v).unwrap();
    let caps = resolve_capabilities(o.capabilities.unwrap());
    assert!(caps.scripting);
    assert!(!caps.guest_access);
    assert_eq!(caps.functions.allow, TargetSet::Listed(vec!["math::sum".to_string()]));
    assert_eq!(caps.functions.deny, TargetSet::Empty);
    assert_eq!(
        caps.network_targets.allow,
        TargetSet::Listed(vec!["example.com".to_string()])
    );
    assert_eq!(caps.network_targets.deny, TargetSet::All);
}

#[test]
fn targets_boolean_reads_as_blanket_not_list() {
    let v = obj(vec![("capabilities", obj(vec![("functions", Value::Bool(false))]))]);
    let o = parse_options(&v).unwrap();
    match o.capabilities.unwrap() {
        CapabilitiesConfig::Capabilities { functions, .. } => {
            assert!(matches!(functions, Some(Targets::Bool(false))));
        }
        _ => panic!("expected a structured policy"),
    }
}

#[test]
fn targets_list_must_hold_strings() {
    let v = obj(vec![("capabilities", obj(vec![("functions", Value::Array(vec![Value::Int(1)]))]))]);
    let e = parse_options(&v).unwrap_err();
    assert_eq!(e.kind(), ErrorKind::Malformed);
}

#[test]
fn targets_allow_deny_object() {
    let v = obj(vec![(
        "capabilities",
        obj(vec![("functions", obj(vec![("deny", Value::Array(vec![s("http::get")]))]))]),
    )]);
    let o = parse_options(&v).unwrap();
    match o.capabilities.unwrap() {
        CapabilitiesConfig::Capabilities { functions, .. } => match functions.unwrap() {
            Targets::Config { allow, deny } => {
                assert!(allow.is_none());
                assert_eq!(deny, Some(TargetsConfig::Array(vec!["http::get".to_string()])));
            }
            _ => panic!("expected an allow/deny object"),
        },
        _ => panic!("expected a structured policy"),
    }
}

#[test]
fn credentials_root_round_trip() {
    let v = obj(vec![("username", s("root")), ("password", s("root"))]);
    let c = parse_credentials(v).unwrap();
    assert_eq!(
        c,
        Credentials::Root { username: "root".to_string(), password: "root".to_string() }
    );
}

#[test]
fn credentials_namespace_round_trip() {
    let v = obj(vec![("namespace", s("test")), ("username", s("u")), ("password", s("p"))]);
    let c = parse_credentials(v).unwrap();
    assert_eq!(
        c,
        Credentials::Namespace {
            namespace: "test".to_string(),
            username: "u".to_string(),
            password: "p".to_string(),
        }
    );
}

#[test]
fn credentials_database_round_trip() {
    let v = obj(vec![
        ("namespace", s("test")),
        ("database", s("test")),
        ("username", s("u")),
        ("password", s("p")),
    ]);
    let c = parse_credentials(v).unwrap();
    assert_eq!(
        c,
        Credentials::Database {
            namespace: "test".to_string(),
            database: "test".to_string(),
            username: "u".to_string(),
            password: "p".to_string(),
        }
    );
}

#[test]
fn credentials_scope_keeps_extra_params() {
    let v = obj(vec![
        ("namespace", s("test")),
        ("database", s("test")),
        ("scope", s("account")),
        ("email", s("tobie@example.com")),
        ("pass", s("secret")),
    ]);
    let c = parse_credentials(v).unwrap();
    match c {
        Credentials::Scope { namespace, database, scope, params } => {
            assert_eq!(namespace, "test");
            assert_eq!(database, "test");
            assert_eq!(scope, "account");
            assert_eq!(
                params,
                vec![
                    ("email".to_string(), s("tobie@example.com")),
                    ("pass".to_string(), s("secret")),
                ]
            );
        }
        _ => panic!("expected scope credentials"),
    }
}

#[test]
fn credentials_database_without_namespace_fails() {
    let v = obj(vec![("database", s("test")), ("username", s("u")), ("password", s("p"))]);
    let e = parse_credentials(v).unwrap_err();
    assert_eq!(e.kind(), ErrorKind::Malformed);
}

#[test]
fn credentials_scope_without_database_fails() {
    let v = obj(vec![("namespace", s("test")), ("scope", s("account"))]);
    let e = parse_credentials(v).unwrap_err();
    assert_eq!(e.kind(), ErrorKind::Malformed);
}

#[test]
fn credentials_missing_password_fails() {
    let v = obj(vec![("username", s("root"))]);
    let e = parse_credentials(v).unwrap_err();
    assert_eq!(e.kind(), ErrorKind::Malformed);
}

#[test]
fn credentials_non_string_field_fails() {
    let v = obj(vec![("username", Value::Int(1)), ("password", s("p"))]);
    let e = parse_credentials(v).unwrap_err();
    assert_eq!(e.kind(), ErrorKind::Malformed);
}

#[test]
fn credentials_non_object_fails() {
    let e = parse_credentials(Value::Null).unwrap_err();
    assert_eq!(e.kind(), ErrorKind::Malformed);
}

#[test]
fn signup_accepts_only_scope_credentials() {
    let scope = Credentials::Scope {
        namespace: "n".to_string(),
        database: "d".to_string(),
        scope: "s".to_string(),
        params: vec![],
    };
    assert!(check_signup(&scope).is_ok());
    let root = Credentials::Root { username: "u".to_string(), password: "p".to_string() };
    let e = check_signup(&root).unwrap_err();
    assert_eq!(e.kind(), ErrorKind::Usage);
}

#[test]
fn resource_plain_table() {
    assert_eq!(parse_resource("person"), Resource::Table("person".to_string()));
}

#[test]
fn resource_empty_string_is_a_table() {
    assert_eq!(parse_resource(""), Resource::Table(String::new()));
}

#[test]
fn resource_record_locator() {
    assert_eq!(
        parse_resource("person:tobie"),
        Resource::Record { table: "person".to_string(), id: "tobie".to_string() }
    );
}

#[test]
fn resource_range_default_bounds() {
    assert_eq!(
        parse_resource("person:1..100"),
        Resource::Range {
            table: "person".to_string(),
            begin: Bound::Inclusive("1".to_string()),
            end: Bound::Exclusive("100".to_string()),
        }
    );
}

#[test]
fn resource_range_inclusive_end() {
    assert_eq!(
        parse_resource("person:a..=b"),
        Resource::Range {
            table: "person".to_string(),
            begin: Bound::Inclusive("a".to_string()),
            end: Bound::Inclusive("b".to_string()),
        }
    );
}

#[test]
fn resource_range_exclusive_begin() {
    assert_eq!(
        parse_resource("person:a>..b"),
        Resource::Range {
            table: "person".to_string(),
            begin: Bound::Exclusive("a".to_string()),
            end: Bound::Exclusive("b".to_string()),
        }
    );
}

#[test]
fn resource_range_fully_open() {
    assert_eq!(
        parse_resource("person:.."),
        Resource::Range {
            table: "person".to_string(),
            begin: Bound::Unbounded,
            end: Bound::Unbounded,
        }
    );
}

#[test]
fn resource_range_wins_over_plain_identifier() {
    // The id text would be a perfectly fine record id, but the `..` marker
    // makes it a range, never a plain locator.
    let r = parse_resource("person:1..2");
    assert!(matches!(r, Resource::Range { .. }));
    let r = parse_resource("person:..x");
    assert!(matches!(r, Resource::Range { .. }));
}

#[test]
fn resource_multibyte_table_name() {
    assert_eq!(
        parse_resource("personne\u{e9}:ab"),
        Resource::Record { table: "personne\u{e9}".to_string(), id: "ab".to_string() }
    );
}

#[test]
fn credentials_write_and_read_back() {
    let cases = vec![
        Credentials::Root { username: "u".to_string(), password: "p".to_string() },
        Credentials::Namespace {
            namespace: "n".to_string(),
            username: "u".to_string(),
            password: "p".to_string(),
        },
        Credentials::Database {
            namespace: "n".to_string(),
            database: "d".to_string(),
            username: "u".to_string(),
            password: "p".to_string(),
        },
        Credentials::Scope {
            namespace: "n".to_string(),
            database: "d".to_string(),
            scope: "account".to_string(),
            params: vec![("email".to_string(), s("a@b.c"))],
        },
    ];
    for (case, again) in cases.into_iter().zip(vec![
        Credentials::Root { username: "u".to_string(), password: "p".to_string() },
        Credentials::Namespace {
            namespace: "n".to_string(),
            username: "u".to_string(),
            password: "p".to_string(),
        },
        Credentials::Database {
            namespace: "n".to_string(),
            database: "d".to_string(),
            username: "u".to_string(),
            password: "p".to_string(),
        },
        Credentials::Scope {
            namespace: "n".to_string(),
            database: "d".to_string(),
            scope: "account".to_string(),
            params: vec![("email".to_string(), s("a@b.c"))],
        },
    ]) {
        let v = surrealdb_node::credentials::credentials_to_value(case);
        assert_eq!(parse_credentials(v).unwrap(), again);
    }
}

#[test]
fn resource_range_mixed_bounds() {
    assert_eq!(
        parse_resource("person:a>..=b"),
        Resource::Range {
            table: "person".to_string(),
            begin: Bound::Exclusive("a".to_string()),
            end: Bound::Inclusive("b".to_string()),
        }
    );
}

#[test]
fn capabilities_config_rejects_other_shapes() {
    let e = surrealdb_node::endpoint::parse_capabilities_config(&Value::Int(1)).unwrap_err();
    assert_eq!(e.kind(), ErrorKind::Malformed);
    let e = surrealdb_node::endpoint::parse_capabilities_config(&Value::Array(vec![])).unwrap_err();
    assert_eq!(e.kind(), ErrorKind::Malformed);
}
