use micronuts::mint_json::error_body;

#[test]
fn error_body_formats_code_and_message() {
    assert_eq!(error_body(404, "not found"), r#"{"code":404,"error":"not found"}"#);
    assert_eq!(error_body(0, ""), r#"{"code":0,"error":""}"#);
    assert_eq!(error_body(65535, "x"), r#"{"code":65535,"error":"x"}"#);
}

#[test]
fn error_body_escapes_quotes_and_backslashes() {
    assert_eq!(
        error_body(500, r#"bad "key" \ here"#),
        r#"{"code":500,"error":"bad \"key\" \\ here"}"#
    );
    assert_eq!(error_body(503, "mint lock poisoned"), r#"{"code":503,"error":"mint lock poisoned"}"#);
    assert_eq!(error_body(400, "é\"ü"), "{\"code\":400,\"error\":\"é\\\"ü\"}");
}
