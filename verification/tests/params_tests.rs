use jsonrpc_cli::error::RpcError;
use jsonrpc_cli::params::{build_params, extract_key_value, file_reference};
use jsonrpc_cli::value::{params_to_string, ObjVal, ParamsValue};

fn toks(items: &[&str]) -> Vec<String> {
    items.iter().map(|s| s.to_string()).collect()
}

fn built_text(items: &[&str]) -> String {
    let v = build_params(&toks(items), None).expect("params should build");
    params_to_string(&v)
}

#[test]
fn empty_tokens_yield_null() {
    let v = build_params(&toks(&[]), None).unwrap();
    assert_eq!(v, ParamsValue::Null);
    assert_eq!(params_to_string(&v), "null");
}

#[test]
fn raw_json_object_passes_through() {
    assert_eq!(built_text(&["{\"a\":1}"]), "{\"a\":1}");
}

#[test]
fn raw_json_is_normalized_not_echoed() {
    // The first token is parsed and reprinted, not copied.
    assert_eq!(built_text(&["{ \"a\" : 1 }"]), "{\"a\":1}");
    assert_eq!(built_text(&["[ 1 , 2 ]"]), "[1,2]");
}

#[test]
fn raw_json_ignores_remaining_tokens() {
    assert_eq!(built_text(&["[1]", "ignored"]), "[1]");
}

#[test]
fn raw_json_failure_is_invalid_params() {
    let r = build_params(&toks(&["{oops"]), None);
    match r {
        Err(RpcError::InvalidParams(m)) => {
            assert!(m.starts_with("invalid JSON string: {oops: "));
        }
        other => panic!("expected InvalidParams, got: {:?}", other),
    }
}

#[test]
fn comma_token_splits_into_array() {
    assert_eq!(built_text(&["1,2,3"]), "[1,2,3]");
}

#[test]
fn comma_pieces_are_parsed_not_copied() {
    // Each piece goes through the JSON parser, so surrounding blanks and
    // quoting come out in canonical form.
    assert_eq!(built_text(&["1, 2"]), "[1,2]");
    assert_eq!(built_text(&["true,\"x\",3"]), "[true,\"x\",3]");
}

#[test]
fn comma_case_ignores_remaining_tokens() {
    assert_eq!(built_text(&["1,2", "3"]), "[1,2]");
}

#[test]
fn comma_case_collects_all_errors() {
    let r = build_params(&toks(&["a,b"]), None);
    match r {
        Err(RpcError::InvalidParams(m)) => {
            // Two bad pieces: both messages, newline-joined after the header.
            assert!(m.starts_with("invalid JSON array\n"));
            let body = &m["invalid JSON array\n".len()..];
            assert_eq!(body.lines().count(), 2);
        }
        other => panic!("expected InvalidParams, got: {:?}", other),
    }
}

#[test]
fn comma_case_trailing_comma_fails() {
    assert!(matches!(
        build_params(&toks(&["1,"]), None),
        Err(RpcError::InvalidParams(_))
    ));
}

#[test]
fn bare_tokens_become_array() {
    assert_eq!(built_text(&["true", "3", "\"s\""]), "[true,3,\"s\"]");
}

#[test]
fn bare_token_that_is_not_json_fails() {
    assert!(matches!(
        build_params(&toks(&["oops"]), None),
        Err(RpcError::InvalidParams(_))
    ));
}

#[test]
fn long_option_with_equals_builds_object() {
    assert_eq!(built_text(&["--foo=bar"]), "{\"foo\":\"bar\"}");
}

#[test]
fn long_option_with_next_token_builds_same_object() {
    let a = build_params(&toks(&["--foo=bar"]), None).unwrap();
    let b = build_params(&toks(&["--foo", "bar"]), None).unwrap();
    assert_eq!(a, b);
    assert_eq!(params_to_string(&b), "{\"foo\":\"bar\"}");
}

#[test]
fn short_option_builds_object() {
    assert_eq!(built_text(&["-k", "v"]), "{\"k\":\"v\"}");
    assert_eq!(built_text(&["-k=v"]), "{\"k\":\"v\"}");
}

#[test]
fn option_values_stay_strings() {
    // Values from the option paths are never type-coerced.
    assert_eq!(built_text(&["--n=5"]), "{\"n\":\"5\"}");
    assert_eq!(built_text(&["--b", "true"]), "{\"b\":\"true\"}");
}

#[test]
fn int_call_inserts_number() {
    assert_eq!(built_text(&["-a", "1", "int(5)"]), "{\"a\":\"1\",\"int\":5}");
}

#[test]
fn lone_int_call_routes_to_bare_array() {
    // `int(5)` alone holds neither `-` nor `=`, so the bare-array shape
    // wins the dispatch and the token must parse as JSON, which it does
    // not. The function-call path is reached only past that check.
    assert!(matches!(
        build_params(&toks(&["int(5)"]), None),
        Err(RpcError::InvalidParams(_))
    ));
}

#[test]
fn int_call_accepts_negative_in_params() {
    // Signed in the key-value position, unlike the id position.
    assert_eq!(built_text(&["int(-1)"]), "{\"int\":-1}");
    assert_eq!(
        built_text(&["int(-9223372036854775808)"]),
        "{\"int\":-9223372036854775808}"
    );
    assert_eq!(built_text(&["-a", "1", "int(+3)"]), "{\"a\":\"1\",\"int\":3}");
}

#[test]
fn null_call_inserts_null() {
    assert_eq!(built_text(&["-a", "1", "null()"]), "{\"a\":\"1\",\"null\":null}");
}

#[test]
fn mixed_options_keep_insertion_order() {
    assert_eq!(
        built_text(&["-k", "v", "int(2)", "--x=1"]),
        "{\"k\":\"v\",\"int\":2,\"x\":\"1\"}"
    );
}

#[test]
fn repeated_key_last_write_wins() {
    assert_eq!(built_text(&["--a", "1", "--a", "2"]), "{\"a\":\"2\"}");
}

#[test]
fn option_with_equals_drops_the_following_token() {
    // An option token always draws the token after it out of the stream;
    // with an `=` already present that drawn token is discarded.
    assert_eq!(built_text(&["--a=1", "--a=2"]), "{\"a\":\"1\"}");
}

#[test]
fn option_value_is_escaped() {
    assert_eq!(built_text(&["--k=va\"l"]), "{\"k\":\"va\\\"l\"}");
    assert_eq!(built_text(&["--k=a\\b"]), "{\"k\":\"a\\\\b\"}");
    assert_eq!(built_text(&["--k=a\nb"]), "{\"k\":\"a\\nb\"}");
    assert_eq!(built_text(&["--k=a\u{1}b"]), "{\"k\":\"a\\u0001b\"}");
}

#[test]
fn missing_value_fails() {
    match build_params(&toks(&["--a"]), None) {
        Err(RpcError::MissingValue(m)) => {
            assert_eq!(m, "missing value for param a");
        }
        other => panic!("expected MissingValue, got: {:?}", other),
    }
}

#[test]
fn token_without_call_shape_fails() {
    assert!(matches!(
        build_params(&toks(&["x=y"]), None),
        Err(RpcError::InvalidFunctionCall(_))
    ));
    assert!(matches!(
        build_params(&toks(&["-a", "1", "foo"]), None),
        Err(RpcError::InvalidFunctionCall(_))
    ));
    assert!(matches!(
        build_params(&toks(&["-a", "1", "int(1"]), None),
        Err(RpcError::InvalidFunctionCall(_))
    ));
}

#[test]
fn unsupported_function_fails() {
    match build_params(&toks(&["-a", "1", "foo(1)"]), None) {
        Err(RpcError::UnsupportedFunction(m)) => {
            assert_eq!(m, "unsupported function: foo");
        }
        other => panic!("expected UnsupportedFunction, got: {:?}", other),
    }
}

#[test]
fn bad_int_argument_in_params_fails() {
    assert!(matches!(
        build_params(&toks(&["-a", "1", "int(x)"]), None),
        Err(RpcError::InvalidExpression(_))
    ));
    assert!(matches!(
        build_params(&toks(&["-a", "1", "null(x)"]), None),
        Err(RpcError::InvalidExpression(_))
    ));
}

#[test]
fn comma_beats_option_shape() {
    // A first token with both a comma and dashes still splits as an array:
    // the comma check comes first in the priority order.
    let r = build_params(&toks(&["--flag,2"]), None);
    assert!(matches!(r, Err(RpcError::InvalidParams(_))));
    assert_eq!(built_text(&["1,2"]), "[1,2]");
}

#[test]
fn option_first_token_without_comma_routes_to_object() {
    // First token has no comma, so the comma-array shape never triggers;
    // the list routes to the key-value case, `--a=1` carries its own value,
    // and `2,3` is drawn from the stream with no pending key to serve.
    assert_eq!(built_text(&["--a=1", "2,3"]), "{\"a\":\"1\"}");
}

#[test]
fn file_reference_names_the_path() {
    assert_eq!(
        file_reference(&toks(&["@missing.json"])),
        Some("missing.json".to_string())
    );
    assert_eq!(file_reference(&toks(&["plain"])), None);
    assert_eq!(file_reference(&toks(&[])), None);
}

#[test]
fn file_read_failure_is_read_error() {
    let outcome: Result<String, String> =
        Err("No such file or directory (os error 2)".to_string());
    match build_params(&toks(&["@missing.json"]), Some(&outcome)) {
        Err(RpcError::ReadError(m)) => {
            assert_eq!(m, "No such file or directory (os error 2)");
        }
        other => panic!("expected ReadError, got: {:?}", other),
    }
}

#[test]
fn file_contents_parse_as_params() {
    let outcome: Result<String, String> = Ok("{ \"a\": [1, 2] }".to_string());
    let v = build_params(&toks(&["@params.json"]), Some(&outcome)).unwrap();
    assert_eq!(params_to_string(&v), "{\"a\":[1,2]}");
}

#[test]
fn bad_file_contents_are_invalid_params() {
    let outcome: Result<String, String> = Ok("nonsense".to_string());
    match build_params(&toks(&["@params.json"]), Some(&outcome)) {
        Err(RpcError::InvalidParams(m)) => {
            assert!(m.starts_with("invalid JSON file: "));
        }
        other => panic!("expected InvalidParams, got: {:?}", other),
    }
}

#[test]
fn extract_key_value_splits_once_on_equals() {
    assert_eq!(extract_key_value("a=b", None), Ok(("a", "b")));
    assert_eq!(extract_key_value("a=b=c", None), Ok(("a", "b=c")));
    assert_eq!(extract_key_value("=x", None), Ok(("", "x")));
    assert_eq!(extract_key_value("a", Some("v")), Ok(("a", "v")));
    assert!(matches!(
        extract_key_value("a", None),
        Err(RpcError::MissingValue(_))
    ));
}

#[test]
fn object_value_kinds_serialize_exactly() {
    let v = ParamsValue::Obj(vec![
        ("t".to_string(), ObjVal::Text("x".to_string())),
        ("n".to_string(), ObjVal::Int(-3)),
        ("z".to_string(), ObjVal::Null),
    ]);
    assert_eq!(params_to_string(&v), "{\"t\":\"x\",\"n\":-3,\"z\":null}");
}
