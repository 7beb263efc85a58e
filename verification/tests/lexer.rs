use snlc::cursor::{Cursor, EOF_CHAR};
use snlc::lexer::{
    is_id_continue, is_id_start, is_ident, is_whitespace, tokensize, CharClass, LiteralKind,
    Token, TokenKind,
};

fn kinds_and_lens(src: &str) -> Vec<(TokenKind, u32)> {
    tokensize(src).iter().map(|t| (t.kind, t.len)).collect()
}

#[test]
fn tokensize_splits_an_assignment() {
    assert_eq!(
        kinds_and_lens("a := 12"),
        vec![
            (TokenKind::Ident, 1),
            (TokenKind::Whitespace, 1),
            (TokenKind::Assign, 2),
            (TokenKind::Whitespace, 1),
            (TokenKind::Literal { kind: LiteralKind::Integer }, 2),
        ]
    );
}

#[test]
fn tokensize_of_empty_text_is_empty() {
    assert_eq!(tokensize("").len(), 0);
}

#[test]
fn single_character_tokens() {
    assert_eq!(
        kinds_and_lens("=()[]+-*/;,"),
        vec![
            (TokenKind::Eq, 1),
            (TokenKind::OpenParen, 1),
            (TokenKind::CloseParen, 1),
            (TokenKind::OpenBracket, 1),
            (TokenKind::CloseBracket, 1),
            (TokenKind::Plus, 1),
            (TokenKind::Minus, 1),
            (TokenKind::Star, 1),
            (TokenKind::Slash, 1),
            (TokenKind::Semicolon, 1),
            (TokenKind::Comma, 1),
        ]
    );
}

#[test]
fn two_character_tokens_win_over_one() {
    assert_eq!(
        kinds_and_lens(":=:<=<...."),
        vec![
            (TokenKind::Assign, 2),
            (TokenKind::Colon, 1),
            (TokenKind::LessEq, 2),
            (TokenKind::Less, 1),
            (TokenKind::UnderRange, 2),
            (TokenKind::UnderRange, 2),
        ]
    );
    assert_eq!(kinds_and_lens("."), vec![(TokenKind::Dot, 1)]);
    assert_eq!(
        kinds_and_lens("..."),
        vec![(TokenKind::UnderRange, 2), (TokenKind::Dot, 1)]
    );
    assert_eq!(
        kinds_and_lens("< ="),
        vec![(TokenKind::Less, 1), (TokenKind::Whitespace, 1), (TokenKind::Eq, 1)]
    );
}

#[test]
fn terminated_comment_includes_its_closing_brace() {
    assert_eq!(
        kinds_and_lens("{ note }x"),
        vec![(TokenKind::Comment { terminated: true }, 8), (TokenKind::Ident, 1)]
    );
}

#[test]
fn comments_do_not_nest() {
    assert_eq!(
        kinds_and_lens("{a{b}c"),
        vec![(TokenKind::Comment { terminated: true }, 5), (TokenKind::Ident, 1)]
    );
}

#[test]
fn unterminated_comment_covers_the_rest() {
    assert_eq!(
        kinds_and_lens("x {abc def;\n 12"),
        vec![
            (TokenKind::Ident, 1),
            (TokenKind::Whitespace, 1),
            (TokenKind::Comment { terminated: false }, 13),
        ]
    );
    assert_eq!(kinds_and_lens("{"), vec![(TokenKind::Comment { terminated: false }, 1)]);
}

#[test]
fn char_literals() {
    let closed = TokenKind::Literal { kind: LiteralKind::Char { terminated: true } };
    let open = TokenKind::Literal { kind: LiteralKind::Char { terminated: false } };
    assert_eq!(kinds_and_lens("'a'"), vec![(closed, 3)]);
    assert_eq!(kinds_and_lens("'''"), vec![(closed, 3)]);
    assert_eq!(kinds_and_lens("'a"), vec![(open, 2)]);
    assert_eq!(kinds_and_lens("'"), vec![(open, 1)]);
    assert_eq!(kinds_and_lens("'ab'"), vec![(open, 2), (TokenKind::Ident, 1), (open, 1)]);
    assert_eq!(kinds_and_lens("'é'"), vec![(closed, 4)]);
}

#[test]
fn unknown_characters_are_tokens_of_their_own() {
    assert_eq!(
        kinds_and_lens("#}@"),
        vec![(TokenKind::Unknown, 1), (TokenKind::Unknown, 1), (TokenKind::Unknown, 1)]
    );
    assert_eq!(kinds_and_lens("△"), vec![(TokenKind::Unknown, 3)]);
}

#[test]
fn identifiers_and_numbers() {
    assert_eq!(
        kinds_and_lens("_x1 12ab"),
        vec![
            (TokenKind::Ident, 3),
            (TokenKind::Whitespace, 1),
            (TokenKind::Literal { kind: LiteralKind::Integer }, 2),
            (TokenKind::Ident, 2),
        ]
    );
    assert_eq!(kinds_and_lens("变量"), vec![(TokenKind::Ident, 6)]);
}

#[test]
fn whitespace_runs_are_one_token() {
    assert_eq!(kinds_and_lens(" \t\r\n\u{0085}\u{2028}"), vec![(TokenKind::Whitespace, 9)]);
}

#[test]
fn token_lengths_add_up_to_the_byte_length() {
    for src in [
        "",
        "program p begin write(1) end.",
        "é {x} 中文 := 12 'a' '",
        "{ never closed 变量",
        "a<=b..c:d#",
    ] {
        let total: usize = tokensize(src).iter().map(|t| t.len as usize).sum();
        assert_eq!(total, src.len());
    }
}

#[test]
fn advance_token_reports_eof_with_length_zero() {
    let mut cursor = Cursor::new("ab");
    let first = cursor.advance_token();
    assert_eq!(first.kind, TokenKind::Ident);
    assert_eq!(first.len, 2);
    let end = cursor.advance_token();
    assert_eq!(end.kind, TokenKind::Eof);
    assert_eq!(end.len, 0);
    let again = cursor.advance_token();
    assert_eq!(again.kind, TokenKind::Eof);
    assert_eq!(again.len, 0);
}

#[test]
fn cursor_peeks_and_bumps() {
    let mut cursor = Cursor::new("xy");
    assert!(!cursor.is_eof());
    assert_eq!(cursor.first(), 'x');
    assert_eq!(cursor.second(), 'y');
    assert_eq!(cursor.bump(), Some('x'));
    assert_eq!(cursor.first(), 'y');
    assert_eq!(cursor.second(), EOF_CHAR);
    assert_eq!(cursor.pos_within_token(), 1);
    assert_eq!(cursor.bump(), Some('y'));
    assert_eq!(cursor.first(), EOF_CHAR);
    assert!(cursor.is_eof());
    assert_eq!(cursor.bump(), None);
    assert_eq!(cursor.pos_within_token(), 2);
    cursor.reset_pos_within_token();
    assert_eq!(cursor.pos_within_token(), 0);
    assert_eq!(cursor.index(), 2);
}

#[test]
fn cursor_eats_a_run_and_counts_bytes() {
    let mut cursor = Cursor::new("12é4x");
    cursor.eat_while(CharClass::Digit);
    assert_eq!(cursor.index(), 2);
    assert_eq!(cursor.pos_within_token(), 2);
    cursor.eat_while(CharClass::IdContinue);
    assert_eq!(cursor.index(), 5);
    assert_eq!(cursor.pos_within_token(), 6);
    assert_eq!(cursor.text_between(2, 4), "é4");
}

#[test]
fn whitespace_is_pattern_white_space() {
    for c in ['\t', '\n', '\u{000B}', '\u{000C}', '\r', ' ', '\u{0085}', '\u{200E}', '\u{200F}',
        '\u{2028}', '\u{2029}']
    {
        assert!(is_whitespace(c));
    }
    for c in ['a', '0', '_', '\u{00A0}', '\u{3000}', '\0'] {
        assert!(!is_whitespace(c));
    }
}

#[test]
fn identifier_characters() {
    assert!(is_id_start('a'));
    assert!(is_id_start('Z'));
    assert!(is_id_start('_'));
    assert!(is_id_start('é'));
    assert!(is_id_start('中'));
    assert!(!is_id_start('1'));
    assert!(!is_id_start('-'));
    assert!(!is_id_start('△'));
    assert!(is_id_continue('a'));
    assert!(is_id_continue('9'));
    assert!(is_id_continue('_'));
    assert!(!is_id_continue(' '));
    assert!(!is_id_continue('+'));
}

#[test]
fn is_ident_wants_a_start_and_continuations() {
    assert!(is_ident("abc"));
    assert!(is_ident("_"));
    assert!(is_ident("_x1"));
    assert!(is_ident("变量1"));
    assert!(is_ident("program"));
    assert!(!is_ident(""));
    assert!(!is_ident("1a"));
    assert!(!is_ident("a b"));
    assert!(!is_ident("a-b"));
}

#[test]
fn raw_token_new_keeps_its_parts() {
    let token = Token::new(TokenKind::Plus, 7);
    assert_eq!(token.kind, TokenKind::Plus);
    assert_eq!(token.len, 7);
}
