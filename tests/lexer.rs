use truthtable::lexer::Lexer;
use truthtable::parser::Parser;
use truthtable::reader::{is_alpha, StringReader};
use truthtable::token::{ErrorKind, ErrorPosition, Token, TokenKind};

fn lexer_of(s: &str) -> Lexer {
    Lexer { reader: StringReader::new(s.to_string()) }
}

#[test]
fn reader_tracks_lines_and_columns() {
    let mut r = StringReader::new("ab\nc".to_string());
    assert_eq!(r.peak(), Some('a'));
    assert_eq!(r.read(), Some('a'));
    assert_eq!((r.line, r.col, r.pos), (1, 1, 1));
    assert_eq!(r.read(), Some('b'));
    assert_eq!(r.read(), Some('\n'));
    assert_eq!((r.line, r.col, r.pos), (2, 0, 3));
    assert_eq!(r.read(), Some('c'));
    assert_eq!((r.line, r.col), (2, 1));
    assert_eq!(r.read(), None);
    assert_eq!(r.peak(), None);
    assert_eq!(r.pos, 4);
}

#[test]
fn letters_are_ascii_only() {
    assert!(is_alpha('a') && is_alpha('Z'));
    assert!(!is_alpha('1') && !is_alpha('_') && !is_alpha('é'));
}

#[test]
fn tokens_carry_the_column_after_them() {
    let mut lx = lexer_of("(ab & c)");
    let t = lx.next_token().ok().unwrap();
    assert!(matches!(t.kind, TokenKind::LeftParen));
    assert_eq!((t.col, t.line), (1, 1));
    let t = lx.next_token().ok().unwrap();
    match &t.kind {
        TokenKind::Identifier(n) => assert_eq!(n, "ab"),
        _ => panic!("expected identifier"),
    }
    assert_eq!(t.col, 3);
    let t = lx.next_token().ok().unwrap();
    assert!(matches!(t.kind, TokenKind::And));
    assert_eq!(t.col, 5);
    let t = lx.next_token().ok().unwrap();
    assert!(matches!(t.kind, TokenKind::Identifier(_)));
    let t = lx.next_token().ok().unwrap();
    assert!(matches!(t.kind, TokenKind::RightParen));
    assert_eq!(t.col, 8);
    let t = lx.next_token().ok().unwrap();
    assert!(matches!(t.kind, TokenKind::EndOfInput));
    assert_eq!(t.col, 8);
}

#[test]
fn synonym_symbols_share_kinds() {
    let mut lx = lexer_of("* + ~ ^ & | !");
    let kinds: Vec<TokenKind> = (0..7).map(|_| lx.next_token().ok().unwrap().kind).collect();
    assert!(matches!(kinds[0], TokenKind::And));
    assert!(matches!(kinds[1], TokenKind::Or));
    assert!(matches!(kinds[2], TokenKind::Not));
    assert!(matches!(kinds[3], TokenKind::Xor));
    assert!(matches!(kinds[4], TokenKind::And));
    assert!(matches!(kinds[5], TokenKind::Or));
    assert!(matches!(kinds[6], TokenKind::Not));
}

#[test]
fn identifiers_stop_at_non_letters() {
    let mut lx = lexer_of("ab1");
    let t = lx.next_token().ok().unwrap();
    match &t.kind {
        TokenKind::Identifier(n) => assert_eq!(n, "ab"),
        _ => panic!("expected identifier"),
    }
    let e = lx.next_token().err().unwrap();
    assert!(matches!(e.kind, ErrorKind::UnexpectedCharacter('1')));
    assert_eq!(e.col_range, (3, 3));
}

#[test]
fn parser_collects_tokens_up_to_end() {
    let mut lx = lexer_of("a & !b");
    let mut p = Parser::new(&mut lx).ok().unwrap();
    assert_eq!(p.tokens.len(), 5);
    assert!(matches!(p.tokens[4].kind, TokenKind::EndOfInput));
    let t = p.next();
    assert!(matches!(t.kind, TokenKind::Identifier(_)));
    assert_eq!(p.pos, 1);
    p.back();
    assert_eq!(p.pos, 0);
    let c = p.component().ok().unwrap();
    assert!(!c.negated);
    assert_eq!(p.pos, 1);
}

#[test]
fn parser_new_reports_lexing_error() {
    let mut lx = lexer_of("a # b");
    let e = Parser::new(&mut lx).err().unwrap();
    assert!(matches!(e.kind, ErrorKind::UnexpectedCharacter('#')));
}

#[test]
fn error_from_token_takes_its_place() {
    let t = Token { kind: TokenKind::Xor, col: 4, line: 2 };
    let e = ErrorPosition::from_token(ErrorKind::UnexpectedToken(TokenKind::Xor), &t);
    assert_eq!(e.line, 2);
    assert_eq!(e.col_range, (4, 4));
    let tok = lexer_of("  x").tok(TokenKind::Or);
    assert_eq!((tok.col, tok.line), (0, 1));
}
