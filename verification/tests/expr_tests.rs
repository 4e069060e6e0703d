use jsonrpc_cli::error::RpcError;
use jsonrpc_cli::expr::parse_expr;
use jsonrpc_cli::value::Id;

#[test]
fn bare_string_is_string_id() {
    assert_eq!(
        parse_expr("say_hello"),
        Ok(Id::Text("say_hello".to_string()))
    );
    assert_eq!(parse_expr(""), Ok(Id::Text("".to_string())));
    assert_eq!(parse_expr("42"), Ok(Id::Text("42".to_string())));
}

#[test]
fn unknown_function_name_is_string_id() {
    // The wrapper grammar only matches `int(...)` or `null(...)`; any other
    // name falls through to a bare string id.
    assert_eq!(parse_expr("foo(x)"), Ok(Id::Text("foo(x)".to_string())));
    assert_eq!(parse_expr("int[5]"), Ok(Id::Text("int[5]".to_string())));
}

#[test]
fn unterminated_call_is_string_id() {
    assert_eq!(parse_expr("int(1"), Ok(Id::Text("int(1".to_string())));
    assert_eq!(parse_expr("int(1)x"), Ok(Id::Text("int(1)x".to_string())));
}

#[test]
fn argument_cannot_span_lines() {
    // The anchored pattern never matches across a line break, so such a
    // string falls back to a bare string id.
    assert_eq!(
        parse_expr("int(1\n2)"),
        Ok(Id::Text("int(1\n2)".to_string()))
    );
    assert_eq!(
        parse_expr("null(\n)"),
        Ok(Id::Text("null(\n)".to_string()))
    );
}

#[test]
fn int_id_parses_number() {
    assert_eq!(parse_expr("int(42)"), Ok(Id::Num(42)));
    assert_eq!(parse_expr("int(0)"), Ok(Id::Num(0)));
    assert_eq!(parse_expr("int(042)"), Ok(Id::Num(42)));
    assert_eq!(parse_expr("int(+7)"), Ok(Id::Num(7)));
    assert_eq!(
        parse_expr("int(18446744073709551615)"),
        Ok(Id::Num(u64::MAX))
    );
}

#[test]
fn int_id_rejects_negative() {
    // The id position takes unsigned integers only.
    assert!(matches!(
        parse_expr("int(-1)"),
        Err(RpcError::InvalidExpression(_))
    ));
}

#[test]
fn int_id_rejects_garbage_and_overflow() {
    assert!(matches!(
        parse_expr("int(x)"),
        Err(RpcError::InvalidExpression(_))
    ));
    assert!(matches!(
        parse_expr("int()"),
        Err(RpcError::InvalidExpression(_))
    ));
    assert!(matches!(
        parse_expr("int(18446744073709551616)"),
        Err(RpcError::InvalidExpression(_))
    ));
    // The argument capture is greedy: inner parentheses stay in the argument.
    assert!(matches!(
        parse_expr("int((1))"),
        Err(RpcError::InvalidExpression(_))
    ));
}

#[test]
fn null_id_parses_null() {
    assert_eq!(parse_expr("null()"), Ok(Id::Null));
}

#[test]
fn null_id_rejects_argument() {
    assert!(matches!(
        parse_expr("null(x)"),
        Err(RpcError::InvalidExpression(_))
    ));
    assert!(matches!(
        parse_expr("null(())"),
        Err(RpcError::InvalidExpression(_))
    ));
}
