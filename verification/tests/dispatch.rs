use surrealdb_node::array_response::array_response;
use surrealdb_node::capabilities::Capabilities;
use surrealdb_node::connect::{configure, normalize_endpoint};
use surrealdb_node::endpoint::Options;
use surrealdb_node::error::ErrorKind;
use surrealdb_node::export::assemble_export;
use surrealdb_node::patch::{
    fold_patches, parse_patch_list, parse_patch_op, update_request, PatchOp, UpdateAction,
};
use surrealdb_node::resource::Resource;
use surrealdb_node::rpc::{
    apply_use, authenticate, can_be_immut, collect_query_results, crud_response,
    crud_response_with, guard_open, invalidate, lock_for, parse_bindings, parse_method, LockKind,
    Method, Session, StatementResult, WrapMode,
};
use surrealdb_node::value::Value;

fn obj(fields: Vec<(&str, Value)>) -> Value {
    Value::Object(fields.into_iter().map(|(k, v)| (k.to_string(), v)).collect())
}

fn s(text: &str) -> Value {
    Value::Strand(text.to_string())
}

#[test]
fn method_names_parse() {
    assert_eq!(parse_method("ping"), Method::Ping);
    assert_eq!(parse_method("use"), Method::Use);
    assert_eq!(parse_method("signup"), Method::Signup);
    assert_eq!(parse_method("signin"), Method::Signin);
    assert_eq!(parse_method("select"), Method::Select);
    assert_eq!(parse_method("create"), Method::Create);
    assert_eq!(parse_method("update"), Method::Update);
    assert_eq!(parse_method("merge"), Method::Merge);
    assert_eq!(parse_method("patch"), Method::Patch);
    assert_eq!(parse_method("delete"), Method::Delete);
    assert_eq!(parse_method("query"), Method::Query);
    assert_eq!(parse_method("version"), Method::Version);
    assert_eq!(parse_method("set"), Method::SetVar);
    assert_eq!(parse_method("unset"), Method::UnsetVar);
    assert_eq!(parse_method("no-such-call"), Method::Unknown);
}

#[test]
fn read_only_methods_share_the_lock() {
    assert!(can_be_immut(Method::Ping));
    assert!(can_be_immut(Method::Select));
    assert!(can_be_immut(Method::Query));
    assert!(can_be_immut(Method::Version));
    assert!(!can_be_immut(Method::Use));
    assert!(!can_be_immut(Method::Create));
    assert!(!can_be_immut(Method::Signin));
    assert_eq!(lock_for(Method::Select), LockKind::SharedRead);
    assert_eq!(lock_for(Method::Update), LockKind::ExclusiveWrite);
    assert_eq!(lock_for(Method::Unknown), LockKind::ExclusiveWrite);
}

#[test]
fn use_with_neither_field_is_a_usage_error() {
    let mut session = Session::new();
    let e = apply_use(&mut session, None, None).unwrap_err();
    assert_eq!(e.kind(), ErrorKind::Usage);
}

#[test]
fn failed_use_leaves_the_session_untouched() {
    let mut session = Session {
        namespace: Some("kept_ns".to_string()),
        database: Some("kept_db".to_string()),
        token: Some("kept_tok".to_string()),
    };
    let e = apply_use(&mut session, None, None).unwrap_err();
    assert_eq!(e.kind(), ErrorKind::Usage);
    assert_eq!(session.namespace, Some("kept_ns".to_string()));
    assert_eq!(session.database, Some("kept_db".to_string()));
    assert_eq!(session.token, Some("kept_tok".to_string()));
}

#[test]
fn use_with_namespace_only_succeeds() {
    let mut session = Session::new();
    apply_use(&mut session, Some("test".to_string()), None).unwrap();
    assert_eq!(session.namespace, Some("test".to_string()));
    assert_eq!(session.database, None);
}

#[test]
fn use_with_database_only_succeeds() {
    let mut session = Session::new();
    apply_use(&mut session, None, Some("db".to_string())).unwrap();
    assert_eq!(session.namespace, None);
    assert_eq!(session.database, Some("db".to_string()));
}

#[test]
fn use_with_both_rescopes_and_keeps_token() {
    let mut session = Session::new();
    authenticate(&mut session, "tok".to_string());
    apply_use(&mut session, Some("n".to_string()), Some("d".to_string())).unwrap();
    assert_eq!(session.namespace, Some("n".to_string()));
    assert_eq!(session.database, Some("d".to_string()));
    assert_eq!(session.token, Some("tok".to_string()));
}

#[test]
fn use_absent_field_keeps_old_scope() {
    let mut session = Session {
        namespace: Some("old_ns".to_string()),
        database: Some("old_db".to_string()),
        token: None,
    };
    apply_use(&mut session, None, Some("new_db".to_string())).unwrap();
    assert_eq!(session.namespace, Some("old_ns".to_string()));
    assert_eq!(session.database, Some("new_db".to_string()));
}

#[test]
fn invalidate_clears_only_the_token() {
    let mut session = Session {
        namespace: Some("n".to_string()),
        database: Some("d".to_string()),
        token: Some("tok".to_string()),
    };
    invalidate(&mut session);
    assert_eq!(session.token, None);
    assert_eq!(session.namespace, Some("n".to_string()));
    assert_eq!(session.database, Some("d".to_string()));
}

#[test]
fn bindings_must_be_an_object() {
    let e = parse_bindings(Some(Value::Int(1))).unwrap_err();
    assert_eq!(e.kind(), ErrorKind::Encoding);
    let e = parse_bindings(Some(Value::Array(vec![]))).unwrap_err();
    assert_eq!(e.kind(), ErrorKind::Encoding);
}

#[test]
fn bindings_object_passes_through_in_order() {
    let params = parse_bindings(Some(obj(vec![("a", Value::Int(1)), ("b", s("x"))]))).unwrap();
    assert_eq!(params, vec![("a".to_string(), Value::Int(1)), ("b".to_string(), s("x"))]);
    assert!(parse_bindings(None).unwrap().is_empty());
}

#[test]
fn query_results_keep_statement_order_and_surface_errors() {
    let results = vec![
        StatementResult::Success(Value::Int(1)),
        StatementResult::Failure("boom".to_string()),
        StatementResult::Success(s("done")),
    ];
    let out = collect_query_results(results);
    let expected = Value::Array(vec![
        obj(vec![("status", s("OK")), ("result", Value::Int(1))]),
        obj(vec![("status", s("ERR")), ("result", s("boom"))]),
        obj(vec![("status", s("OK")), ("result", s("done"))]),
    ]);
    assert_eq!(out, expected);
}

#[test]
fn array_response_wraps_a_lone_value() {
    assert_eq!(array_response(Value::Int(7)), Value::Array(vec![Value::Int(7)]));
}

#[test]
fn array_response_keeps_an_array() {
    let arr = Value::Array(vec![Value::Int(1), Value::Int(2)]);
    assert_eq!(array_response(arr), Value::Array(vec![Value::Int(1), Value::Int(2)]));
}

#[test]
fn single_record_response_is_a_one_element_sequence() {
    let target = Resource::Record { table: "person".to_string(), id: "one".to_string() };
    let out = crud_response(&target, s("row"));
    assert_eq!(out, Value::Array(vec![s("row")]));
}

#[test]
fn range_response_passes_through_row_for_row() {
    let target = Resource::Range {
        table: "person".to_string(),
        begin: surrealdb_node::resource::Bound::Unbounded,
        end: surrealdb_node::resource::Bound::Unbounded,
    };
    let three = Value::Array(vec![Value::Int(1), Value::Int(2), Value::Int(3)]);
    assert_eq!(crud_response(&target, three), Value::Array(vec![
        Value::Int(1),
        Value::Int(2),
        Value::Int(3),
    ]));
    let none = Value::Array(vec![]);
    assert_eq!(crud_response(&target, none), Value::Array(vec![]));
}

#[test]
fn patch_operations_parse() {
    let add = parse_patch_op(obj(vec![
        ("op", s("add")),
        ("path", s("/name")),
        ("value", s("Tobie")),
    ]))
    .unwrap();
    assert_eq!(add, PatchOp::Add { path: "/name".to_string(), value: s("Tobie") });
    let remove = parse_patch_op(obj(vec![("op", s("remove")), ("path", s("/name"))])).unwrap();
    assert_eq!(remove, PatchOp::Remove { path: "/name".to_string() });
    let replace = parse_patch_op(obj(vec![
        ("op", s("replace")),
        ("path", s("/age")),
        ("value", Value::Int(30)),
    ]))
    .unwrap();
    assert_eq!(replace, PatchOp::Replace { path: "/age".to_string(), value: Value::Int(30) });
    let change = parse_patch_op(obj(vec![
        ("op", s("change")),
        ("path", s("/bio")),
        ("value", s("@@ -1 +1 @@")),
    ]))
    .unwrap();
    assert_eq!(
        change,
        PatchOp::Change { path: "/bio".to_string(), diff: "@@ -1 +1 @@".to_string() }
    );
}

#[test]
fn malformed_patch_is_an_encoding_error() {
    let e = parse_patch_op(obj(vec![("op", s("rename")), ("path", s("/x"))])).unwrap_err();
    assert_eq!(e.kind(), ErrorKind::Encoding);
    let e = parse_patch_op(obj(vec![("op", s("add")), ("path", s("/x"))])).unwrap_err();
    assert_eq!(e.kind(), ErrorKind::Encoding);
    let e = parse_patch_list(Value::Int(1)).unwrap_err();
    assert_eq!(e.kind(), ErrorKind::Encoding);
    let e = parse_patch_list(Value::Array(vec![Value::Null])).unwrap_err();
    assert_eq!(e.kind(), ErrorKind::Encoding);
}

#[test]
fn patch_list_keeps_operation_order() {
    let ops = parse_patch_list(Value::Array(vec![
        obj(vec![("op", s("remove")), ("path", s("/a"))]),
        obj(vec![("op", s("remove")), ("path", s("/b"))]),
    ]))
    .unwrap();
    assert_eq!(ops, vec![
        PatchOp::Remove { path: "/a".to_string() },
        PatchOp::Remove { path: "/b".to_string() },
    ]);
}

#[test]
fn empty_patch_list_is_a_plain_update_with_no_content() {
    let folded = fold_patches(vec![]);
    let plain = update_request(None);
    assert_eq!(folded, plain);
    assert_eq!(folded, UpdateAction::Unchanged);
}

#[test]
fn nonempty_patch_list_composes_into_one_request() {
    let ops = vec![PatchOp::Remove { path: "/a".to_string() }];
    let folded = fold_patches(ops);
    assert_eq!(folded, UpdateAction::Patch(vec![PatchOp::Remove { path: "/a".to_string() }]));
}

#[test]
fn operations_after_teardown_fail_deterministically() {
    assert!(guard_open(true).is_ok());
    let e = guard_open(false).unwrap_err();
    assert_eq!(e.kind(), ErrorKind::Engine);
    assert_eq!(e.message(), "connection is closed".to_string());
}

#[test]
fn memory_shorthand_normalizes() {
    assert_eq!(normalize_endpoint("mem://"), "memory".to_string());
    assert_eq!(normalize_endpoint("mem:"), "memory".to_string());
    assert_eq!(normalize_endpoint("memory"), "memory".to_string());
    assert_eq!(normalize_endpoint("rocksdb:/data/db"), "rocksdb:/data/db".to_string());
    assert_eq!(normalize_endpoint("me"), "me".to_string());
}

#[test]
fn configure_without_options_uses_the_baseline() {
    let cfg = configure("mem://", None);
    assert_eq!(cfg.endpoint, "memory".to_string());
    assert!(!cfg.strict);
    assert_eq!(cfg.query_timeout_secs, None);
    assert_eq!(cfg.transaction_timeout_secs, None);
    assert_eq!(cfg.capabilities, Capabilities::default_set());
}

#[test]
fn configure_applies_parsed_options() {
    let opts = Options {
        strict: Some(true),
        query_timeout: Some(5),
        transaction_timeout: None,
        capabilities: Some(surrealdb_node::endpoint::CapabilitiesConfig::Bool(true)),
    };
    let cfg = configure("file:/tmp/db", Some(opts));
    assert_eq!(cfg.endpoint, "file:/tmp/db".to_string());
    assert!(cfg.strict);
    assert_eq!(cfg.query_timeout_secs, Some(5));
    assert_eq!(cfg.transaction_timeout_secs, None);
    assert_eq!(cfg.capabilities, Capabilities::all_set());
}

#[test]
fn export_concatenates_chunks_in_order() {
    let chunks = vec![b"DEFINE ".to_vec(), b"TABLE person;".to_vec()];
    assert_eq!(assemble_export(chunks).unwrap(), "DEFINE TABLE person;".to_string());
}

#[test]
fn export_decodes_text_split_mid_character() {
    // One two-byte character delivered across a chunk boundary must still
    // decode once the chunks are joined.
    let chunks = vec![vec![b'h', 0xC3], vec![0xA9, b'!'], vec![]];
    assert_eq!(assemble_export(chunks).unwrap(), "h\u{e9}!".to_string());
}

#[test]
fn export_of_invalid_bytes_is_an_encoding_error() {
    let e = assemble_export(vec![vec![0xFF, 0xFE]]).unwrap_err();
    assert_eq!(e.kind(), ErrorKind::Encoding);
}

#[test]
fn export_of_no_chunks_is_empty() {
    assert_eq!(assemble_export(vec![]).unwrap(), String::new());
}

#[test]
fn version_banner_prefixes_the_engine_version() {
    assert_eq!(
        surrealdb_node::rpc::version_banner("2.0.5"),
        "surrealdb-2.0.5".to_string()
    );
}

#[test]
fn empty_patch_payload_through_the_parser_is_a_plain_update() {
    let ops = parse_patch_list(Value::Array(vec![])).unwrap();
    assert!(ops.is_empty());
    assert_eq!(fold_patches(ops), update_request(None));
}

#[test]
fn export_single_chunk_passes_through() {
    assert_eq!(assemble_export(vec![b"abc".to_vec()]).unwrap(), "abc".to_string());
}

#[test]
fn always_wrap_mode_nests_even_an_array_result() {
    let target = Resource::Record { table: "person".to_string(), id: "one".to_string() };
    let lone = Value::Array(vec![Value::Int(1), Value::Int(2)]);
    let out = crud_response_with(WrapMode::AlwaysWrap, &target, lone);
    assert_eq!(
        out,
        Value::Array(vec![Value::Array(vec![Value::Int(1), Value::Int(2)])])
    );
    let kept = crud_response_with(
        WrapMode::KeepArrays,
        &target,
        Value::Array(vec![Value::Int(1)]),
    );
    assert_eq!(kept, Value::Array(vec![Value::Int(1)]));
}
