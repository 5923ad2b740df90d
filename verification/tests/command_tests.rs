use workflow::command::parse;

#[test]
fn parse_splits_and_respects_quotes() {
    let p = parse("/role show \"foo bar\"");
    assert_eq!(p.tokens, vec!["role", "show", "foo bar"]);
}

#[test]
fn parse_trims_and_skips_empty_tokens() {
    let p = parse("   help \t  me  ");
    assert_eq!(p.tokens, vec!["help", "me"]);
    assert!(parse("   ").tokens.is_empty());
    assert_eq!(parse("'a b' c").tokens, vec!["a b", "c"]);
}
