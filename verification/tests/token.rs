use snlc::lexer;
use snlc::lexer::LiteralKind;
use snlc::symbol::{classify, significant, ParseBuffer, ParseError, Symbol};
use snlc::token::{is_keyword, mark_keywords, mark_source, Token, TokenKind};

fn tok(kind: TokenKind, pos: u32, lexeme: &str) -> Token {
    Token::new(kind, pos, lexeme.to_string())
}

#[test]
fn from_str_gives_kinds_positions_and_lexemes() {
    assert_eq!(
        Token::from_str("program pq := 'a'+12;"),
        vec![
            tok(TokenKind::Keyword, 0, "program"),
            tok(TokenKind::Whitespace, 7, " "),
            tok(TokenKind::Ident, 8, "pq"),
            tok(TokenKind::Whitespace, 10, " "),
            tok(TokenKind::BinOp, 11, ":="),
            tok(TokenKind::Whitespace, 13, " "),
            tok(TokenKind::Literal, 14, "'a'"),
            tok(TokenKind::BinOp, 17, "+"),
            tok(TokenKind::Literal, 18, "12"),
            tok(TokenKind::Delimiter, 20, ";"),
        ]
    );
}

#[test]
fn from_str_drops_comments_but_keeps_offsets() {
    assert_eq!(
        Token::from_str("a{c}b{open"),
        vec![tok(TokenKind::Ident, 0, "a"), tok(TokenKind::Ident, 4, "b")]
    );
}

#[test]
fn from_str_counts_bytes_not_characters() {
    assert_eq!(
        Token::from_str("é x"),
        vec![
            tok(TokenKind::Ident, 0, "é"),
            tok(TokenKind::Whitespace, 2, " "),
            tok(TokenKind::Ident, 3, "x"),
        ]
    );
}

#[test]
fn from_str_marks_unknown_characters_invisible() {
    assert_eq!(
        Token::from_str("#:.."),
        vec![
            tok(TokenKind::Invisible, 0, "#"),
            tok(TokenKind::Delimiter, 1, ":"),
            tok(TokenKind::Delimiter, 2, ".."),
        ]
    );
}

#[test]
fn each_position_continues_the_last_token() {
    let src = "program w var integer i; begin i := 0 end.";
    let mut next = 0usize;
    for token in Token::from_str(src) {
        assert_eq!(token.pos as usize, next);
        assert_eq!(&src[next..next + token.lexeme.len()], token.lexeme);
        next += token.lexeme.len();
    }
    assert_eq!(next, src.len());
}

#[test]
fn lexemes_spell_a_source_without_comments() {
    for src in ["", "program p begin write(1) end.", "a<=b  ..\n\t'x' # 变量 '"] {
        assert_eq!(Token::to_str(Token::from_str(src)), src);
    }
}

#[test]
fn to_str_joins_lexemes_in_order() {
    let tokens = vec![
        tok(TokenKind::Ident, 9, "ab"),
        tok(TokenKind::Whitespace, 0, " "),
        tok(TokenKind::Literal, 3, "1"),
    ];
    assert_eq!(Token::to_str(tokens), "ab 1");
    assert_eq!(Token::to_str(Vec::new()), "");
}

#[test]
fn reserved_words_are_keywords() {
    for word in [
        "program", "begin", "end", "procedure", "return", "type", "var", "if", "then", "else",
        "fi", "while", "do", "endwh", "char", "integer", "record", "array", "of", "read", "write",
    ] {
        assert!(is_keyword(word));
    }
}

#[test]
fn keywords_are_case_sensitive() {
    for word in ["Program", "BEGIN", "End", "wHile", "Integer", "READ", "If"] {
        assert!(!is_keyword(word));
    }
    for word in ["", "programs", "en", "x", "int", "endwhile", "program "] {
        assert!(!is_keyword(word));
    }
    assert_eq!(
        Token::from_str("Program program"),
        vec![
            tok(TokenKind::Ident, 0, "Program"),
            tok(TokenKind::Whitespace, 7, " "),
            tok(TokenKind::Keyword, 8, "program"),
        ]
    );
}

#[test]
fn coarse_kinds_of_raw_kinds() {
    for kind in [
        lexer::TokenKind::Plus,
        lexer::TokenKind::Minus,
        lexer::TokenKind::Star,
        lexer::TokenKind::Slash,
        lexer::TokenKind::Less,
        lexer::TokenKind::LessEq,
        lexer::TokenKind::Eq,
        lexer::TokenKind::Assign,
    ] {
        assert_eq!(Token::from_lex_tokenkind(kind), TokenKind::BinOp);
    }
    for kind in [
        lexer::TokenKind::OpenParen,
        lexer::TokenKind::CloseParen,
        lexer::TokenKind::OpenBracket,
        lexer::TokenKind::CloseBracket,
        lexer::TokenKind::Semicolon,
        lexer::TokenKind::Dot,
        lexer::TokenKind::Comma,
        lexer::TokenKind::Colon,
        lexer::TokenKind::UnderRange,
    ] {
        assert_eq!(Token::from_lex_tokenkind(kind), TokenKind::Delimiter);
    }
    assert_eq!(
        Token::from_lex_tokenkind(lexer::TokenKind::Literal { kind: LiteralKind::Integer }),
        TokenKind::Literal
    );
    assert_eq!(
        Token::from_lex_tokenkind(lexer::TokenKind::Literal {
            kind: LiteralKind::Char { terminated: false }
        }),
        TokenKind::Literal
    );
    assert_eq!(Token::from_lex_tokenkind(lexer::TokenKind::Whitespace), TokenKind::Whitespace);
    assert_eq!(Token::from_lex_tokenkind(lexer::TokenKind::Ident), TokenKind::Ident);
    assert_eq!(Token::from_lex_tokenkind(lexer::TokenKind::Unknown), TokenKind::Invisible);
    assert_eq!(Token::from_lex_tokenkind(lexer::TokenKind::Eof), TokenKind::Invisible);
    assert_eq!(
        Token::from_lex_tokenkind(lexer::TokenKind::Comment { terminated: true }),
        TokenKind::Invisible
    );
}

#[test]
fn keywords_get_the_raw_identifier_marker() {
    let marked = mark_keywords(Token::from_str("if x then"));
    assert_eq!(
        marked,
        vec![
            tok(TokenKind::Keyword, 0, "r#if"),
            tok(TokenKind::Whitespace, 2, " "),
            tok(TokenKind::Ident, 3, "x"),
            tok(TokenKind::Whitespace, 4, " "),
            tok(TokenKind::Keyword, 5, "r#then"),
        ]
    );
}

#[test]
fn marked_source_keeps_everything_but_comments() {
    assert_eq!(
        mark_source("program p { the body }\nbegin\n  write(1)\nend."),
        "r#program p \nr#begin\n  r#write(1)\nr#end."
    );
    assert_eq!(mark_source("x := y + 1"), "x := y + 1");
    assert_eq!(mark_source(""), "");
}

#[test]
fn clone_token_copies_all_fields() {
    let token = tok(TokenKind::Literal, 5, "42");
    assert_eq!(token.clone_token(), token);
}

#[test]
fn classify_goes_by_kind_and_lexeme() {
    assert_eq!(classify(&tok(TokenKind::Keyword, 0, "endwh")), Symbol::Endwh);
    assert_eq!(classify(&tok(TokenKind::Keyword, 0, "char")), Symbol::CharTy);
    assert_eq!(classify(&tok(TokenKind::Keyword, 0, "integer")), Symbol::IntegerTy);
    assert_eq!(classify(&tok(TokenKind::Keyword, 0, "x")), Symbol::Unknown);
    assert_eq!(classify(&tok(TokenKind::Ident, 0, "x")), Symbol::Ident);
    assert_eq!(classify(&tok(TokenKind::Ident, 0, "if")), Symbol::Unknown);
    assert_eq!(classify(&tok(TokenKind::Ident, 0, "1x")), Symbol::Unknown);
    assert_eq!(classify(&tok(TokenKind::Literal, 0, "007")), Symbol::Integer);
    assert_eq!(classify(&tok(TokenKind::Literal, 0, "'a'")), Symbol::Char);
    assert_eq!(classify(&tok(TokenKind::Literal, 0, "'a")), Symbol::Unknown);
    assert_eq!(classify(&tok(TokenKind::Literal, 0, "'")), Symbol::Unknown);
    assert_eq!(classify(&tok(TokenKind::Literal, 0, "")), Symbol::Unknown);
    assert_eq!(classify(&tok(TokenKind::Delimiter, 0, "(")), Symbol::OpenParen);
    assert_eq!(classify(&tok(TokenKind::Delimiter, 0, "..")), Symbol::UnderRange);
    assert_eq!(classify(&tok(TokenKind::Delimiter, 0, "+")), Symbol::Unknown);
    assert_eq!(classify(&tok(TokenKind::BinOp, 0, ":=")), Symbol::Assign);
    assert_eq!(classify(&tok(TokenKind::BinOp, 0, "<=")), Symbol::LessEq);
    assert_eq!(classify(&tok(TokenKind::BinOp, 0, "==")), Symbol::Unknown);
    assert_eq!(classify(&tok(TokenKind::Whitespace, 0, " ")), Symbol::Unknown);
    assert_eq!(classify(&tok(TokenKind::Invisible, 0, "#")), Symbol::Unknown);
}

#[test]
fn significant_drops_whitespace_and_closed_comments() {
    assert_eq!(
        significant(Token::from_str(" a  # b\n")),
        vec![
            tok(TokenKind::Ident, 1, "a"),
            tok(TokenKind::Invisible, 4, "#"),
            tok(TokenKind::Ident, 6, "b"),
        ]
    );
    assert_eq!(
        significant(Token::scan("a {x} b{}{ open", true)),
        vec![
            tok(TokenKind::Ident, 0, "a"),
            tok(TokenKind::Ident, 6, "b"),
            tok(TokenKind::Comment, 9, "{ open"),
        ]
    );
    assert_eq!(significant(Token::scan("{", true)), vec![tok(TokenKind::Comment, 0, "{")]);
}

#[test]
fn buffer_peeks_symbols_and_reports_errors() {
    let buffer = ParseBuffer::from_source("x := 'c' é");
    assert_eq!(buffer.len(), 4);
    assert_eq!(buffer.peek(0), Symbol::Ident);
    assert_eq!(buffer.peek(1), Symbol::Assign);
    assert_eq!(buffer.peek(2), Symbol::Char);
    assert_eq!(buffer.peek(3), Symbol::Ident);
    assert_eq!(buffer.peek(4), Symbol::Eof);
    assert_eq!(buffer.peek(100), Symbol::Eof);
    assert_eq!(buffer.lexeme(2), "'c'");
    assert_eq!(buffer.error(1), ParseError { index: 1, pos: 2, found: Symbol::Assign });
    assert_eq!(buffer.error(4), ParseError { index: 4, pos: 11, found: Symbol::Eof });
    let empty = ParseBuffer::from_source("  ");
    assert_eq!(empty.error(0), ParseError { index: 0, pos: 0, found: Symbol::Eof });
}

#[test]
fn lexemes_with_comments_kept_spell_the_source() {
    for src in [
        "",
        "a{c}b{open",
        "program p { the body }\nbegin\n  write(1) {x}{y}\nend.",
        "{",
        "é {变量} 'x' # '",
    ] {
        let tokens = Token::scan(src, true);
        let mut next = 0usize;
        for token in &tokens {
            assert_eq!(token.pos as usize, next);
            next += token.lexeme.len();
        }
        assert_eq!(next, src.len());
        assert_eq!(Token::to_str(tokens), src);
        assert_eq!(Token::scan(src, false), Token::from_str(src));
    }
}

#[test]
fn kept_comments_have_their_own_kind() {
    assert_eq!(
        Token::scan("a{c}b{open", true),
        vec![
            tok(TokenKind::Ident, 0, "a"),
            tok(TokenKind::Comment, 1, "{c}"),
            tok(TokenKind::Ident, 4, "b"),
            tok(TokenKind::Comment, 5, "{open"),
        ]
    );
    assert_eq!(classify(&tok(TokenKind::Comment, 1, "{c}")), Symbol::Unknown);
}
