use magma::lexer::Lexer;
use magma::lexer::Token;
use magma::lexer::TokenKind;

fn next(lx: &mut Lexer) -> Token {
    lx.next_token().unwrap()
}

#[test]
fn whitespace_only_yields_eof() {
    let mut lx = Lexer::new(" \t\n\r ");
    let tok = next(&mut lx);
    assert_eq!(tok.kind, TokenKind::Eof);
}

#[test]
fn every_unicode_whitespace_character_is_skipped() {
    let blanks: String = ('\u{0}'..='\u{10FFFF}').filter(|c| c.is_whitespace()).collect();
    let mut lx = Lexer::new(&blanks);
    let tok = next(&mut lx);
    assert_eq!(tok.kind, TokenKind::Eof);
}

#[test]
fn no_other_character_is_skipped() {
    for c in '\u{0}'..='\u{2FF}' {
        if c.is_whitespace() {
            continue;
        }
        let s: String = c.to_string();
        let mut lx = Lexer::new(&s);
        let tok = next(&mut lx);
        assert_ne!(tok.kind, TokenKind::Eof, "character {:?} was skipped", c);
    }
}

#[test]
fn empty_input_yields_eof_at_origin() {
    let mut lx = Lexer::new("");
    let tok = next(&mut lx);
    assert_eq!(tok.kind, TokenKind::Eof);
    assert_eq!(tok.line, 1);
    assert_eq!(tok.column, 1);
}

#[test]
fn position_tracking_across_newline() {
    let mut lx = Lexer::new("a\nb");
    let a = next(&mut lx);
    assert_eq!(a.kind, TokenKind::Identifier("a".into()));
    assert_eq!(a.line, 1);
    assert_eq!(a.column, 1);
    let b = next(&mut lx);
    assert_eq!(b.kind, TokenKind::Identifier("b".into()));
    assert_eq!(b.line, 2);
    assert_eq!(b.column, 1);
}

#[test]
fn comment_marker_stripped_content_kept() {
    let mut lx = Lexer::new("// hello");
    let tok = next(&mut lx);
    assert_eq!(tok.kind, TokenKind::Comment(" hello".into()));
    assert_eq!(tok.line, 1);
    assert_eq!(tok.column, 1);
    assert_eq!(next(&mut lx).kind, TokenKind::Eof);
}

#[test]
fn single_slash_is_a_symbol() {
    let mut lx = Lexer::new("/");
    let tok = next(&mut lx);
    assert_eq!(tok.kind, TokenKind::Symbol('/'));
    assert_eq!(next(&mut lx).kind, TokenKind::Eof);
}

#[test]
fn slash_before_other_character_is_a_symbol() {
    let mut lx = Lexer::new("/x");
    assert_eq!(next(&mut lx).kind, TokenKind::Symbol('/'));
    assert_eq!(next(&mut lx).kind, TokenKind::Identifier("x".into()));
    assert_eq!(next(&mut lx).kind, TokenKind::Eof);
}

#[test]
fn scenario_let_statement() {
    let mut lx = Lexer::new("let x = 42;");
    assert_eq!(next(&mut lx).kind, TokenKind::Identifier("let".into()));
    assert_eq!(next(&mut lx).kind, TokenKind::Identifier("x".into()));
    assert_eq!(next(&mut lx).kind, TokenKind::Symbol('='));
    assert_eq!(next(&mut lx).kind, TokenKind::Number("42".into()));
    assert_eq!(next(&mut lx).kind, TokenKind::Symbol(';'));
    assert_eq!(next(&mut lx).kind, TokenKind::Eof);
}

#[test]
fn scenario_comment_between_tokens() {
    let mut lx = Lexer::new("foo 123 //a comment\n;");
    assert_eq!(next(&mut lx).kind, TokenKind::Identifier("foo".into()));
    assert_eq!(next(&mut lx).kind, TokenKind::Number("123".into()));
    assert_eq!(next(&mut lx).kind, TokenKind::Comment("a comment".into()));
    assert_eq!(next(&mut lx).kind, TokenKind::Symbol(';'));
    assert_eq!(next(&mut lx).kind, TokenKind::Eof);
}

#[test]
fn eof_repeats_with_unchanged_position() {
    let mut lx = Lexer::new("x\n");
    assert_eq!(next(&mut lx).kind, TokenKind::Identifier("x".into()));
    let first = next(&mut lx);
    assert_eq!(first.kind, TokenKind::Eof);
    for _ in 0..3 {
        let again = next(&mut lx);
        assert_eq!(again.kind, TokenKind::Eof);
        assert_eq!(again.line, first.line);
        assert_eq!(again.column, first.column);
    }
}

#[test]
fn comment_runs_to_end_of_input() {
    let mut lx = Lexer::new("//abc");
    assert_eq!(next(&mut lx).kind, TokenKind::Comment("abc".into()));
    assert_eq!(next(&mut lx).kind, TokenKind::Eof);
}

#[test]
fn identifier_may_start_with_underscore() {
    let mut lx = Lexer::new("_a1 b_2");
    assert_eq!(next(&mut lx).kind, TokenKind::Identifier("_a1".into()));
    assert_eq!(next(&mut lx).kind, TokenKind::Identifier("b_2".into()));
}

#[test]
fn number_stops_at_letter() {
    let mut lx = Lexer::new("12ab");
    let n = next(&mut lx);
    assert_eq!(n.kind, TokenKind::Number("12".into()));
    assert_eq!(n.column, 1);
    let id = next(&mut lx);
    assert_eq!(id.kind, TokenKind::Identifier("ab".into()));
    assert_eq!(id.column, 3);
}

#[test]
fn column_counts_characters_not_bytes() {
    let mut lx = Lexer::new("é b");
    let sym = next(&mut lx);
    assert_eq!(sym.kind, TokenKind::Symbol('é'));
    assert_eq!(sym.column, 1);
    let id = next(&mut lx);
    assert_eq!(id.kind, TokenKind::Identifier("b".into()));
    assert_eq!(id.column, 3);
}

#[test]
fn token_after_comment_starts_on_next_line() {
    let mut lx = Lexer::new("//x\ny");
    let c = next(&mut lx);
    assert_eq!(c.kind, TokenKind::Comment("x".into()));
    assert_eq!(c.line, 1);
    assert_eq!(c.column, 1);
    let y = next(&mut lx);
    assert_eq!(y.kind, TokenKind::Identifier("y".into()));
    assert_eq!(y.line, 2);
    assert_eq!(y.column, 1);
}

#[test]
fn symbol_position_after_leading_whitespace() {
    let mut lx = Lexer::new("  +");
    let tok = next(&mut lx);
    assert_eq!(tok.kind, TokenKind::Symbol('+'));
    assert_eq!(tok.line, 1);
    assert_eq!(tok.column, 3);
}
