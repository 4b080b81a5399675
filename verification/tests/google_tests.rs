use subforge::google::parse_google_body;

#[test]
fn parse_google_nested_array() {
    let text = parse_google_body(r#"[[["你好","hello",null,null,10]],null,"en"]"#).unwrap();
    assert_eq!(text, "你好");
}
