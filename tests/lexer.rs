use filter_manager::lexer::{Lexer, Token, TokenKind};

fn tok(kind: TokenKind, lexeme: &str) -> Token {
    Token { kind, lexeme: lexeme.to_string() }
}

#[test]
fn splits_fields_and_lines() {
    let mut lx = Lexer::new(b"a bc\r\n\n  d\0".to_vec());
    assert_eq!(lx.next_token(), tok(TokenKind::Text, "a"));
    assert_eq!(lx.next_token(), tok(TokenKind::Text, "bc"));
    assert_eq!(lx.next_token(), tok(TokenKind::Eol, "\r\n\n"));
    assert_eq!(lx.next_token(), tok(TokenKind::Text, "d"));
    assert_eq!(lx.next_token(), tok(TokenKind::End, ""));
}

#[test]
fn mixed_newline_run_is_one_token() {
    let mut lx = Lexer::new(b"x\r\r\n\n\r\n\ry\0".to_vec());
    assert_eq!(lx.next_token(), tok(TokenKind::Text, "x"));
    assert_eq!(lx.next_token(), tok(TokenKind::Eol, "\r\r\n\n\r\n\r"));
    assert_eq!(lx.next_token(), tok(TokenKind::Text, "y"));
    assert_eq!(lx.next_token().kind, TokenKind::End);
}

#[test]
fn newline_runs_of_each_shape() {
    for input in [&b"\n"[..], b"\r", b"\r\n", b"\n\n", b"\r\r", b"\n\r\n\r"] {
        let mut lx = Lexer::new(input.to_vec());
        let first = lx.next_token();
        assert_eq!(first.kind, TokenKind::Eol);
        assert_eq!(first.lexeme.as_bytes(), input);
        assert_eq!(lx.next_token().kind, TokenKind::End);
    }
}

#[test]
fn tab_is_part_of_text() {
    let mut lx = Lexer::new(b" \ta\tb c".to_vec());
    assert_eq!(lx.next_token(), tok(TokenKind::Text, "\ta\tb"));
    assert_eq!(lx.next_token(), tok(TokenKind::Text, "c"));
    assert_eq!(lx.next_token(), tok(TokenKind::End, ""));
}

#[test]
fn empty_input_is_end() {
    let mut lx = Lexer::new(Vec::new());
    assert_eq!(lx.next_token(), tok(TokenKind::End, ""));
    assert_eq!(lx.next_token(), tok(TokenKind::End, ""));
}

#[test]
fn end_of_input_is_terminal() {
    let mut lx = Lexer::new(b"a\0b c\n".to_vec());
    assert_eq!(lx.next_token(), tok(TokenKind::Text, "a"));
    for _ in 0..3 {
        assert_eq!(lx.next_token(), tok(TokenKind::End, ""));
    }
}

#[test]
fn spaces_only_then_nul() {
    let mut lx = Lexer::new(b"     \0".to_vec());
    assert_eq!(lx.next_token(), tok(TokenKind::End, ""));
}

#[test]
fn invalid_utf8_is_replaced_in_lexeme() {
    let mut lx = Lexer::new(vec![b'a', 0xff, b'b', b' ']);
    assert_eq!(lx.next_token(), tok(TokenKind::Text, "a\u{fffd}b"));
    assert_eq!(lx.next_token().kind, TokenKind::End);
}
