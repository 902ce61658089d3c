use chi::syntax::concrete::parser::remove_comment;

#[test]
fn test_remove_comment() {
    let code = " x --abc";
    assert_eq!(remove_comment(code), " x ");
    let code = r#"x --abc
            def
            {- xxxx
            yyyy
            -}
            ghi"#;
    assert_eq!(
        remove_comment(code),
        "x \n            def\n            \n            ghi"
    );
}
