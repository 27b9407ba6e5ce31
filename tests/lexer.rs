use esoteric_reaction::lex::Lexer;
use esoteric_reaction::tok::Type;

#[test]
fn read_and_put_back_track_lines() {
    let mut lx = Lexer::new("a\nb".to_string());
    assert_eq!(lx.read_char(), Ok('a'));
    assert_eq!((lx.idx, lx.line, lx.col), (1, 1, 1));
    assert_eq!(lx.read_char(), Ok('\n'));
    assert_eq!((lx.idx, lx.line, lx.col), (2, 2, 0));
    assert_eq!(lx.read_char(), Ok('b'));
    assert!(lx.read_char().is_err());
    assert_eq!(lx.put_back(), Ok('b'));
    assert_eq!(lx.put_back(), Ok('\n'));
    assert_eq!(lx.line, 1);
}

#[test]
fn put_back_at_start_fails() {
    let mut lx = Lexer::new("x".to_string());
    assert!(lx.put_back().is_err());
    assert_eq!(lx.idx, 0);
}

#[test]
fn tokens_of_an_equation() {
    let mut lx = Lexer::new("C_3 + O -> ^12 \"hi\" ; note\n".to_string());
    let toks = lx.all_tokens();
    let kinds: Vec<String> = toks.iter().map(|t| format!("{:?}", t.token)).collect();
    assert!(matches!(toks[0].token, Type::Element(ref s) if s == "C"));
    assert!(matches!(toks[1].token, Type::Underscore));
    assert!(kinds.iter().any(|k| k == "Arrow"));
    assert!(toks.iter().any(|t| matches!(t.token, Type::Number(_))));
    assert!(toks.iter().any(|t| matches!(t.token, Type::String(ref s) if s == "hi")));
    assert!(toks.iter().any(|t| matches!(t.token, Type::Comment(_))));
}

#[test]
fn unknown_character_is_an_error() {
    let mut lx = Lexer::new("#".to_string());
    let r = lx.next_token();
    assert_eq!(r.err(), Some("unknown character: #".to_string()));
    assert_eq!(lx.idx, 1);
}
