use blink_pairs::nom::{parse, token, CToken};

#[test]
fn nom_test_parse() {
    assert_eq!(
        parse(" {"),
        Ok(("", vec![CToken::DelimiterOpen(("{", "}"))]))
    );

    assert_eq!(
        parse("int main(int argc, char **argv) { return 0; }"),
        Ok((
            "",
            vec![
                CToken::DelimiterOpen(("(", ")")),
                CToken::DelimiterClose(")"),
                CToken::DelimiterOpen(("{", "}")),
                CToken::DelimiterClose("}"),
            ]
        ))
    );
}

#[test]
fn nom_token_kinds() {
    assert_eq!(token("// rest"), Some((CToken::LineComment, 2)));
    assert_eq!(token("/* rest"), Some((CToken::BlockCommentOpen(("/*", "*/")), 2)));
    assert_eq!(token("*/ rest"), Some((CToken::BlockCommentClose("*/"), 2)));
    assert_eq!(token("\\x"), Some((CToken::Escape, 1)));
    assert_eq!(token("[a]"), Some((CToken::DelimiterOpen(("[", "]")), 1)));
    assert_eq!(token("x"), None);
    assert_eq!(token(""), None);
}

#[test]
fn nom_skips_non_tokens_and_multibyte_text() {
    let r = parse("a*b // c").unwrap();
    assert_eq!(r.0, "");
    assert_eq!(r.1, vec![CToken::LineComment]);

    let r = parse("é{é}").unwrap();
    assert_eq!(
        r.1,
        vec![
            CToken::DelimiterOpen(("{", "}")),
            CToken::DelimiterClose("}"),
        ]
    );
}
