//! Positioned tokens: the scanner's output with byte offsets and lexemes,
//! comments folded out and reserved words told apart from identifiers.
use crate::cursor::Cursor;
use crate::lexer;
use crate::lexer::{lemma_token_at, token_at};
use crate::text::{
    byte_len, byte_offset, lemma_byte_offset_monotonic, lemma_byte_offset_subrange, str_eq,
};
use vstd::prelude::*;
use vstd::string::*;

verus! {

/// A token with its place in the source and its text.
#[derive(Debug, Clone, PartialEq)]
pub struct Token {
    pub kind: TokenKind,
    /// Byte offset of the first character of the lexeme.
    pub pos: u32,
    /// The exact slice of the source.
    pub lexeme: String,
}

/// The token classes that the parser tells apart.
#[derive(Debug, Clone, Copy, PartialEq, Eq, Structural)]
pub enum TokenKind {
    Ident,
    Keyword,
    Delimiter,
    Literal,
    Whitespace,
    BinOp,
    /// A comment; only among tokens that were scanned with the comments
    /// kept.
    Comment,
    Invisible,
}

/// What a `Token` stands for in contracts.
pub struct TokenView {
    pub kind: TokenKind,
    pub pos: u32,
    pub lexeme: Seq<char>,
}

impl View for Token {
    type V = TokenView;

    open spec fn view(&self) -> TokenView {
        TokenView { kind: self.kind, pos: self.pos, lexeme: self.lexeme@ }
    }
}

/// The views of a run of tokens.
pub open spec fn views(tokens: Seq<Token>) -> Seq<TokenView> {
    tokens.map_values(|t: Token| t@)
}

/// `s` is one of the reserved words.
pub open spec fn keyword(s: Seq<char>) -> bool {
    s == "program"@ || s == "begin"@ || s == "end"@ || s == "procedure"@ || s == "return"@ || s
        == "type"@ || s == "var"@ || s == "if"@ || s == "then"@ || s == "else"@ || s == "fi"@ || s
        == "while"@ || s == "do"@ || s == "endwh"@ || s == "char"@ || s == "integer"@ || s
        == "record"@ || s == "array"@ || s == "of"@ || s == "read"@ || s == "write"@
}

/// The parser's class of a raw token kind.
pub open spec fn coarse_kind(kind: lexer::TokenKind) -> TokenKind {
    match kind {
        lexer::TokenKind::Plus
        | lexer::TokenKind::Minus
        | lexer::TokenKind::Star
        | lexer::TokenKind::Slash
        | lexer::TokenKind::Less
        | lexer::TokenKind::LessEq
        | lexer::TokenKind::Eq
        | lexer::TokenKind::Assign => TokenKind::BinOp,
        lexer::TokenKind::OpenParen
        | lexer::TokenKind::CloseParen
        | lexer::TokenKind::OpenBracket
        | lexer::TokenKind::CloseBracket
        | lexer::TokenKind::Semicolon
        | lexer::TokenKind::Dot
        | lexer::TokenKind::Comma
        | lexer::TokenKind::Colon
        | lexer::TokenKind::UnderRange => TokenKind::Delimiter,
        lexer::TokenKind::Literal { kind: _ } => TokenKind::Literal,
        lexer::TokenKind::Whitespace => TokenKind::Whitespace,
        lexer::TokenKind::Ident => TokenKind::Ident,
        _ => TokenKind::Invisible,
    }
}

/// The class of a positioned token: `Comment` for a comment, and else the
/// coarse kind, with identifiers that spell a reserved word raised to
/// `Keyword`.
pub open spec fn token_kind(kind: lexer::TokenKind, lexeme: Seq<char>) -> TokenKind {
    if kind is Comment {
        TokenKind::Comment
    } else if coarse_kind(kind) == TokenKind::Ident && keyword(lexeme) {
        TokenKind::Keyword
    } else {
        coarse_kind(kind)
    }
}

/// The positioned tokens of `s` from character `i` on. Comments are part of
/// the result only if `comments` is set.
pub open spec fn positioned_from(s: Seq<char>, i: int, comments: bool) -> Seq<TokenView>
    decreases s.len() - i,
{
    if i < 0 || i >= s.len() {
        Seq::empty()
    } else {
        let kind = token_at(s, i).0;
        let end = token_at(s, i).1;
        if end <= i || end > s.len() {
            Seq::empty()
        } else if kind is Comment && !comments {
            positioned_from(s, end, comments)
        } else {
            seq![
                TokenView {
                    kind: token_kind(kind, s.subrange(i, end)),
                    pos: position_of(s, i),
                    lexeme: s.subrange(i, end),
                },
            ] + positioned_from(s, end, comments)
        }
    }
}

/// The byte offset of character `i` of `s`, as a token reports it.
pub open spec fn position_of(s: Seq<char>, i: int) -> u32 {
    #[verifier::truncate]
    (byte_offset(s, i) as u32)
}

/// The positioned tokens of `s`, comments folded out.
pub open spec fn positioned(s: Seq<char>) -> Seq<TokenView> {
    positioned_from(s, 0, false)
}

/// The lexemes of `tokens`, one after the other.
pub open spec fn joined(tokens: Seq<TokenView>) -> Seq<char>
    decreases tokens.len(),
{
    if tokens.len() == 0 {
        Seq::empty()
    } else {
        joined(tokens.drop_last()) + tokens.last().lexeme
    }
}

/// A token whose lexeme carries the raw-identifier marker if it is a
/// reserved word.
pub open spec fn marked(token: TokenView) -> TokenView {
    if token.kind == TokenKind::Keyword {
        TokenView { kind: token.kind, pos: token.pos, lexeme: "r#"@ + token.lexeme }
    } else {
        token
    }
}

/// Putting a token before a run puts its lexeme before the run's text.
pub proof fn lemma_joined_cons(first: TokenView, rest: Seq<TokenView>)
    ensures
        joined(seq![first] + rest) == first.lexeme + joined(rest),
    decreases rest.len(),
{
    let all = seq![first] + rest;
    if rest.len() == 0 {
        assert(all.drop_last() == Seq::<TokenView>::empty());
        assert(joined(all.drop_last()) == Seq::<char>::empty());
        assert(joined(rest) == Seq::<char>::empty());
        assert(joined(all) == Seq::<char>::empty() + first.lexeme);
        assert(joined(all) =~= first.lexeme + joined(rest));
    } else {
        assert(all.drop_last() == seq![first] + rest.drop_last());
        lemma_joined_cons(first, rest.drop_last());
        assert(all.last() == rest.last());
        assert(joined(all) =~= first.lexeme + joined(rest));
    }
}

/// With the comments kept, the lexemes from character `i` on spell the
/// text from there to its end.
pub proof fn lemma_joined_from(s: Seq<char>, i: int)
    requires
        0 <= i <= s.len(),
    ensures
        joined(positioned_from(s, i, true)) == s.subrange(i, s.len() as int),
    decreases s.len() - i,
{
    if i < s.len() {
        let end = token_at(s, i).1;
        lemma_token_at(s, i);
        lemma_joined_from(s, end);
        let first = TokenView {
            kind: token_kind(token_at(s, i).0, s.subrange(i, end)),
            pos: position_of(s, i),
            lexeme: s.subrange(i, end),
        };
        assert(positioned_from(s, i, true) == seq![first] + positioned_from(s, end, true));
        lemma_joined_cons(first, positioned_from(s, end, true));
        assert(s.subrange(i, s.len() as int) =~= s.subrange(i, end) + s.subrange(
            end,
            s.len() as int,
        ));
    } else {
        assert(s.subrange(i, s.len() as int) =~= Seq::<char>::empty());
    }
}

/// With the comments kept, the lexemes of all tokens of a text, one after
/// the other, are the text.
pub proof fn lemma_lexemes_spell_source(s: Seq<char>)
    ensures
        joined(positioned_from(s, 0, true)) == s,
{
    lemma_joined_from(s, 0);
    assert(s.subrange(0, s.len() as int) =~= s);
}

/// A text without `{` has no comments.
pub proof fn lemma_no_brace_no_comment(s: Seq<char>, i: int)
    requires
        0 <= i <= s.len(),
        forall|k: int| 0 <= k < s.len() ==> #[trigger] s[k] != '{',
    ensures
        positioned_from(s, i, false) == positioned_from(s, i, true),
    decreases s.len() - i,
{
    if i < s.len() {
        lemma_token_at(s, i);
        lemma_no_brace_no_comment(s, token_at(s, i).1);
    }
}

/// The lexemes of the tokens of a text without `{`, one after the other,
/// are the text.
pub proof fn lemma_round_trip_without_comments(s: Seq<char>)
    requires
        forall|k: int| 0 <= k < s.len() ==> #[trigger] s[k] != '{',
    ensures
        joined(positioned(s)) == s,
{
    lemma_no_brace_no_comment(s, 0);
    lemma_lexemes_spell_source(s);
}

/// Each of `tokens` starts at the byte offset at which the one before it
/// ends, and the first starts at `from`.
pub open spec fn contiguous(tokens: Seq<TokenView>, from: int) -> bool
    decreases tokens.len(),
{
    tokens.len() == 0 || (tokens[0].pos == from && contiguous(
        tokens.drop_first(),
        from + byte_len(tokens[0].lexeme),
    ))
}

/// With the comments kept, the tokens from character `i` on lie one
/// behind the other from the byte offset of that character on.
pub proof fn lemma_positions_from(s: Seq<char>, i: int)
    requires
        0 <= i <= s.len(),
        byte_len(s) <= u32::MAX,
    ensures
        contiguous(positioned_from(s, i, true), byte_offset(s, i) as int),
    decreases s.len() - i,
{
    if i < s.len() {
        let end = token_at(s, i).1;
        lemma_token_at(s, i);
        lemma_positions_from(s, end);
        lemma_byte_offset_monotonic(s, i, s.len() as int);
        lemma_byte_offset_subrange(s, i, end, end - i);
        let first = TokenView {
            kind: token_kind(token_at(s, i).0, s.subrange(i, end)),
            pos: position_of(s, i),
            lexeme: s.subrange(i, end),
        };
        let rest = positioned_from(s, end, true);
        assert(positioned_from(s, i, true) == seq![first] + rest);
        assert((seq![first] + rest).drop_first() == rest);
    }
}

/// With the comments kept, every token of a text starts where the one
/// before it ends, and the first starts at offset 0.
pub proof fn lemma_positions_contiguous(s: Seq<char>)
    requires
        byte_len(s) <= u32::MAX,
    ensures
        contiguous(positioned_from(s, 0, true), 0),
{
    lemma_positions_from(s, 0);
}

/// A reserved word is spelled in lower-case letters only, so no text with
/// another character in it is one.
pub proof fn lemma_keyword_is_lower_case(s: Seq<char>)
    requires
        keyword(s),
    ensures
        forall|i: int| 0 <= i < s.len() ==> 'a' <= #[trigger] s[i] <= 'z',
{
    reveal_strlit("program");
    reveal_strlit("begin");
    reveal_strlit("end");
    reveal_strlit("procedure");
    reveal_strlit("return");
    reveal_strlit("type");
    reveal_strlit("var");
    reveal_strlit("if");
    reveal_strlit("then");
    reveal_strlit("else");
    reveal_strlit("fi");
    reveal_strlit("while");
    reveal_strlit("do");
    reveal_strlit("endwh");
    reveal_strlit("char");
    reveal_strlit("integer");
    reveal_strlit("record");
    reveal_strlit("array");
    reveal_strlit("of");
    reveal_strlit("read");
    reveal_strlit("write");
}

/// True if `lexeme` is a reserved word.
pub fn is_keyword(lexeme: &str) -> (res: bool)
    ensures
        res == keyword(lexeme@),
{
    str_eq(lexeme, "program") || str_eq(lexeme, "begin") || str_eq(lexeme, "end") || str_eq(
        lexeme,
        "procedure",
    ) || str_eq(lexeme, "return") || str_eq(lexeme, "type") || str_eq(lexeme, "var") || str_eq(
        lexeme,
        "if",
    ) || str_eq(lexeme, "then") || str_eq(lexeme, "else") || str_eq(lexeme, "fi") || str_eq(
        lexeme,
        "while",
    ) || str_eq(lexeme, "do") || str_eq(lexeme, "endwh") || str_eq(lexeme, "char") || str_eq(
        lexeme,
        "integer",
    ) || str_eq(lexeme, "record") || str_eq(lexeme, "array") || str_eq(lexeme, "of") || str_eq(
        lexeme,
        "read",
    ) || str_eq(lexeme, "write")
}

impl Token {
    pub fn new(kind: TokenKind, pos: u32, lexeme: String) -> (token: Token)
        ensures
            token.kind == kind,
            token.pos == pos,
            token.lexeme == lexeme,
    {
        Token { kind, pos, lexeme }
    }

    /// A copy of this token.
    pub fn clone_token(&self) -> (copy: Token)
        ensures
            copy@ == self@,
    {
        Token { kind: self.kind, pos: self.pos, lexeme: self.lexeme.clone() }
    }

    /// The lexemes of `tokens`, one after the other.
    pub fn to_str(tokens: Vec<Token>) -> (res: String)
        ensures
            res@ == joined(views(tokens@)),
    {
        let mut res = String::new();
        let mut i: usize = 0;
        while i < tokens.len()
            invariant
                i <= tokens.len(),
                res@ == joined(views(tokens@).take(i as int)),
            decreases tokens.len() - i,
        {
            res.append(tokens[i].lexeme.as_str());
            i += 1;
            proof {
                let all = views(tokens@);
                assert(all.take(i as int).drop_last() == all.take(i - 1));
                assert(all.take(i as int).last() == tokens@[i - 1]@);
            }
        }
        assert(views(tokens@).take(tokens@.len() as int) == views(tokens@));
        res
    }

    /// The positioned tokens of `src`: every raw token but comments, with
    /// its byte offset and its text, reserved words marked as `Keyword`.
    pub fn from_str(src: &str) -> (tokens: Vec<Token>)
        requires
            byte_len(src@) <= u32::MAX,
        ensures
            views(tokens@) == positioned(src@),
    {
        Token::scan(src, false)
    }

    /// The positioned tokens of `src`, each with its byte offset and its
    /// text, reserved words marked as `Keyword`. Comments are skipped
    /// unless `comments` is set; if it is, they are tokens of kind
    /// `Comment`.
    pub fn scan(src: &str, comments: bool) -> (tokens: Vec<Token>)
        requires
            byte_len(src@) <= u32::MAX,
        ensures
            views(tokens@) == positioned_from(src@, 0, comments),
    {
        let mut cursor = Cursor::new(src);
        let mut curr_pos: usize = 0;
        let mut tokens: Vec<Token> = Vec::new();
        loop
            invariant
                cursor.wf(),
                cursor.source() == src@,
                cursor.token_begin() == cursor.position(),
                0 <= cursor.position() <= src@.len(),
                curr_pos == byte_offset(src@, cursor.position()),
                byte_len(src@) <= u32::MAX,
                views(tokens@) + positioned_from(src@, cursor.position(), comments)
                    == positioned_from(src@, 0, comments),
            ensures
                views(tokens@) == positioned_from(src@, 0, comments),
            decreases src@.len() - cursor.position(),
        {
            let start = cursor.index();
            proof {
                lemma_token_at(src@, start as int);
                lemma_byte_offset_monotonic(src@, start as int, token_at(src@, start as int).1);
                lemma_byte_offset_monotonic(
                    src@,
                    token_at(src@, start as int).1,
                    src@.len() as int,
                );
            }
            let ghost before = views(tokens@);
            let lex_token = cursor.advance_token();
            if lex_token.kind == lexer::TokenKind::Eof {
                assert(before + Seq::<TokenView>::empty() == before);
                break;
            }
            let is_comment = match lex_token.kind {
                lexer::TokenKind::Comment { terminated: _ } => true,
                _ => false,
            };
            if !is_comment || comments {
                let lexeme = cursor.text_between(start, cursor.index());
                let mut kind = Token::from_lex_tokenkind(lex_token.kind);
                if is_comment {
                    kind = TokenKind::Comment;
                } else if kind == TokenKind::Ident && is_keyword(lexeme.as_str()) {
                    kind = TokenKind::Keyword;
                }
                let token = Token::new(kind, curr_pos as u32, lexeme);
                tokens.push(token);
                proof {
                    assert(views(tokens@) == before.push(token@));
                    assert(before.push(token@) + positioned_from(
                        src@,
                        cursor.position(),
                        comments,
                    ) == before + (seq![token@] + positioned_from(
                        src@,
                        cursor.position(),
                        comments,
                    )));
                }
            }
            curr_pos += lex_token.len as usize;
        }
        tokens
    }

    /// The parser's class of a raw token kind.
    pub fn from_lex_tokenkind(lex_kind: lexer::TokenKind) -> (res: TokenKind)
        ensures
            res == coarse_kind(lex_kind),
    {
        match lex_kind {
            lexer::TokenKind::Plus => TokenKind::BinOp,
            lexer::TokenKind::Minus => TokenKind::BinOp,
            lexer::TokenKind::Star => TokenKind::BinOp,
            lexer::TokenKind::Slash => TokenKind::BinOp,
            lexer::TokenKind::Less => TokenKind::BinOp,
            lexer::TokenKind::LessEq => TokenKind::BinOp,
            lexer::TokenKind::Eq => TokenKind::BinOp,
            lexer::TokenKind::Assign => TokenKind::BinOp,
            lexer::TokenKind::OpenParen => TokenKind::Delimiter,
            lexer::TokenKind::CloseParen => TokenKind::Delimiter,
            lexer::TokenKind::OpenBracket => TokenKind::Delimiter,
            lexer::TokenKind::CloseBracket => TokenKind::Delimiter,
            lexer::TokenKind::Semicolon => TokenKind::Delimiter,
            lexer::TokenKind::Dot => TokenKind::Delimiter,
            lexer::TokenKind::Comma => TokenKind::Delimiter,
            lexer::TokenKind::Colon => TokenKind::Delimiter,
            lexer::TokenKind::UnderRange => TokenKind::Delimiter,
            lexer::TokenKind::Literal { kind: _ } => TokenKind::Literal,
            lexer::TokenKind::Whitespace => TokenKind::Whitespace,
            lexer::TokenKind::Ident => TokenKind::Ident,
            _ => TokenKind::Invisible,
        }
    }
}

/// Puts the raw-identifier marker `r#` before the lexeme of every reserved
/// word; other tokens stay as they are.
pub fn mark_keywords(tokens: Vec<Token>) -> (res: Vec<Token>)
    ensures
        views(res@) == views(tokens@).map_values(|t: TokenView| marked(t)),
{
    let mut res: Vec<Token> = Vec::new();
    let mut i: usize = 0;
    while i < tokens.len()
        invariant
            i <= tokens.len(),
            views(res@) == views(tokens@).map_values(|t: TokenView| marked(t)).take(i as int),
        decreases tokens.len() - i,
    {
        let token = &tokens[i];
        let lexeme = if token.kind == TokenKind::Keyword {
            let mut marked = String::from_str("r#");
            marked.append(token.lexeme.as_str());
            marked
        } else {
            token.lexeme.clone()
        };
        let ghost before = views(res@);
        let fresh = Token::new(token.kind, token.pos, lexeme);
        res.push(fresh);
        i += 1;
        proof {
            let all = views(tokens@).map_values(|t: TokenView| marked(t));
            assert(fresh@ == marked(tokens@[i - 1]@));
            assert(views(res@) == before.push(fresh@));
            assert(all.take(i as int) == all.take(i - 1).push(all[i - 1]));
        }
    }
    assert(views(tokens@).map_values(|t: TokenView| marked(t)).take(tokens@.len() as int) == views(
        tokens@,
    ).map_values(|t: TokenView| marked(t)));
    res
}

/// The source text with every reserved word marked as a raw identifier,
/// comments dropped and everything else unchanged.
pub fn mark_source(src: &str) -> (res: String)
    requires
        byte_len(src@) <= u32::MAX,
    ensures
        res@ == joined(positioned(src@).map_values(|t: TokenView| marked(t))),
{
    Token::to_str(mark_keywords(Token::from_str(src)))
}

} // verus!
