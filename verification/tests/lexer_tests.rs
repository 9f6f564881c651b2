use magma::lexer::Lexer;
use magma::lexer::TokenKind;

#[test]
fn lex_identifiers_and_numbers() {
    let mut lx = Lexer::new("let x = 42;");
    assert_eq!(lx.next_token().unwrap().kind, TokenKind::Identifier("let".into()));
    assert_eq!(lx.next_token().unwrap().kind, TokenKind::Identifier("x".into()));
    assert_eq!(lx.next_token().unwrap().kind, TokenKind::Symbol('='));
    assert_eq!(lx.next_token().unwrap().kind, TokenKind::Number("42".into()));
    assert_eq!(lx.next_token().unwrap().kind, TokenKind::Symbol(';'));
}

#[test]
fn lex_comments() {
    let mut lx = Lexer::new("// hello\n123");
    assert_eq!(lx.next_token().unwrap().kind, TokenKind::Comment(" hello".into()));
    assert_eq!(lx.next_token().unwrap().kind, TokenKind::Number("123".into()));
}

#[test]
fn run_cli_example() {
    let input = "foo 123 //a comment\n;";
    let mut lx = Lexer::new(input);
    let mut kinds = Vec::new();
    while let Some(tok) = lx.next_token() {
        if let TokenKind::Eof = &tok.kind {
            kinds.push(tok.kind);
            break;
        }
        kinds.push(tok.kind);
    }
    assert!(kinds.iter().any(|k| matches!(k, TokenKind::Identifier(s) if s == "foo")));
}
