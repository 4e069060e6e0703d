use jsonrpc_cli::error::RpcError;
use jsonrpc_cli::request::{build_request, request_text};
use jsonrpc_cli::value::Id;

fn toks(items: &[&str]) -> Vec<String> {
    items.iter().map(|s| s.to_string()).collect()
}

#[test]
fn envelope_round_trip_exact_text() {
    let req = build_request(Some("say_hello"), "2.0", "null()", &toks(&[]), None).unwrap();
    assert_eq!(
        request_text(&req),
        "{\"jsonrpc\":\"2.0\",\"method\":\"say_hello\",\"params\":null,\"id\":null}"
    );
}

#[test]
fn envelope_with_params_and_numeric_id() {
    let req = build_request(
        Some("add"),
        "2.0",
        "int(7)",
        &toks(&["1,2"]),
        None,
    )
    .unwrap();
    assert_eq!(
        request_text(&req),
        "{\"jsonrpc\":\"2.0\",\"method\":\"add\",\"params\":[1,2],\"id\":7}"
    );
}

#[test]
fn envelope_with_string_id_is_quoted() {
    let req = build_request(Some("m"), "2.0", "test", &toks(&[]), None).unwrap();
    assert_eq!(req.id, Id::Text("test".to_string()));
    assert_eq!(
        request_text(&req),
        "{\"jsonrpc\":\"2.0\",\"method\":\"m\",\"params\":null,\"id\":\"test\"}"
    );
}

#[test]
fn no_method_emits_only_version_and_id() {
    // The degenerate "ping" form: params are never built, the version
    // passes through as given.
    let req = build_request(None, "1.0", "abc", &toks(&["ignored,tokens"]), None).unwrap();
    assert_eq!(req.method, None);
    assert_eq!(req.params, None);
    assert_eq!(request_text(&req), "{\"jsonrpc\":\"1.0\",\"id\":\"abc\"}");
}

#[test]
fn id_error_propagates() {
    assert!(matches!(
        build_request(Some("m"), "2.0", "int(x)", &toks(&[]), None),
        Err(RpcError::InvalidExpression(_))
    ));
    // Without a method the id is still parsed.
    assert!(matches!(
        build_request(None, "2.0", "null(x)", &toks(&[]), None),
        Err(RpcError::InvalidExpression(_))
    ));
}

#[test]
fn params_error_propagates() {
    assert!(matches!(
        build_request(Some("m"), "2.0", "null()", &toks(&["oops"]), None),
        Err(RpcError::InvalidParams(_))
    ));
}

#[test]
fn file_params_reach_the_envelope() {
    let outcome: Result<String, String> = Ok("[true]".to_string());
    let req = build_request(
        Some("m"),
        "2.0",
        "null()",
        &toks(&["@p.json"]),
        Some(&outcome),
    )
    .unwrap();
    assert_eq!(
        request_text(&req),
        "{\"jsonrpc\":\"2.0\",\"method\":\"m\",\"params\":[true],\"id\":null}"
    );
}

#[test]
fn method_name_is_escaped() {
    let req = build_request(Some("say \"hi\""), "2.0", "null()", &toks(&[]), None).unwrap();
    assert_eq!(
        request_text(&req),
        "{\"jsonrpc\":\"2.0\",\"method\":\"say \\\"hi\\\"\",\"params\":null,\"id\":null}"
    );
}

#[test]
fn large_ids_serialize_exactly() {
    let req = build_request(
        Some("m"),
        "2.0",
        "int(18446744073709551615)",
        &toks(&[]),
        None,
    )
    .unwrap();
    assert_eq!(req.id, Id::Num(u64::MAX));
    assert_eq!(
        request_text(&req),
        "{\"jsonrpc\":\"2.0\",\"method\":\"m\",\"params\":null,\"id\":18446744073709551615}"
    );
}
