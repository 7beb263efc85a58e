//! The scanner: character classes, raw tokens and the rule that cuts the
//! next token off a text.
use crate::cursor::Cursor;
use crate::text::{byte_len, byte_offset, lemma_byte_offset_monotonic};
use vstd::prelude::*;

verus! {

/// A raw token: what it is and how many bytes of the source it covers.
#[derive(Debug)]
pub struct Token {
    pub kind: TokenKind,
    pub len: u32,
}

impl Token {
    pub fn new(kind: TokenKind, len: u32) -> (token: Token)
        ensures
            token.kind == kind,
            token.len == len,
    {
        Token { kind, len }
    }
}

/// The lexeme classes of the scanner.
#[derive(Clone, Copy, Debug, PartialEq, Eq, Structural)]
pub enum TokenKind {
    /// `{` up to and including the next `}`, or up to the end of the text.
    Comment { terminated: bool },
    /// A run of whitespace characters.
    Whitespace,
    Ident,
    Literal { kind: LiteralKind },
    /// `(`
    OpenParen,
    /// `)`
    CloseParen,
    /// `[`
    OpenBracket,
    /// `]`
    CloseBracket,
    /// `+`
    Plus,
    /// `-`
    Minus,
    /// `*`
    Star,
    /// `/`
    Slash,
    /// `;`
    Semicolon,
    /// `.`
    Dot,
    /// `,`
    Comma,
    /// `:`
    Colon,
    /// `<`
    Less,
    /// `<=`
    LessEq,
    /// `=`
    Eq,
    /// `:=`
    Assign,
    /// `..`
    UnderRange,
    /// A character that starts no token.
    Unknown,
    /// The end of the text.
    Eof,
}

/// The literal forms that the scanner knows.
#[derive(Clone, Copy, Debug, PartialEq, Eq, Structural)]
pub enum LiteralKind {
    Integer,
    Char { terminated: bool },
}

/// The character classes whose runs the scanner consumes.
#[derive(Clone, Copy, Debug, PartialEq, Eq, Structural)]
pub enum CharClass {
    Whitespace,
    IdContinue,
    Digit,
    /// Anything but `}`.
    CommentBody,
}

/// The Unicode property XID_Start of `c`, as the tables of `unicode-xid` give it.
pub uninterp spec fn xid_start(c: char) -> bool;

/// The Unicode property XID_Continue of `c`, as the tables of `unicode-xid` give it.
pub uninterp spec fn xid_continue(c: char) -> bool;

pub open spec fn ascii_digit(c: char) -> bool {
    '0' <= c && c <= '9'
}

/// Pattern_White_Space.
pub open spec fn whitespace(c: char) -> bool {
    c == '\u{0009}' || c == '\u{000A}' || c == '\u{000B}' || c == '\u{000C}' || c == '\u{000D}'
        || c == '\u{0020}' || c == '\u{0085}' || c == '\u{200E}' || c == '\u{200F}' || c
        == '\u{2028}' || c == '\u{2029}'
}

/// XID_Start or an underscore.
pub open spec fn id_start(c: char) -> bool {
    c == '_' || xid_start(c)
}

pub open spec fn id_continue(c: char) -> bool {
    xid_continue(c)
}

/// `s` is lexically an identifier: one identifier start, then identifier
/// continuations only.
pub open spec fn ident_text(s: Seq<char>) -> bool {
    &&& s.len() > 0
    &&& id_start(s[0])
    &&& forall|i: int| 1 <= i < s.len() ==> id_continue(#[trigger] s[i])
}

pub open spec fn in_class(class: CharClass, c: char) -> bool {
    match class {
        CharClass::Whitespace => whitespace(c),
        CharClass::IdContinue => id_continue(c),
        CharClass::Digit => ascii_digit(c),
        CharClass::CommentBody => c != '}',
    }
}

/// The end of the longest run of `class` characters that starts at `from`.
pub open spec fn run_end(s: Seq<char>, from: int, class: CharClass) -> int
    decreases s.len() - from,
{
    if 0 <= from < s.len() && in_class(class, s[from]) {
        run_end(s, from + 1, class)
    } else {
        from
    }
}

/// The token that starts at character `i` of `s`: its kind and the index of
/// the character after it. Longest match, by the first character.
pub open spec fn token_at(s: Seq<char>, i: int) -> (TokenKind, int) {
    if i < 0 || i >= s.len() {
        (TokenKind::Eof, i)
    } else {
        let c = s[i];
        let next_is = |d: char| i + 1 < s.len() && s[i + 1] == d;
        if c == '{' {
            let j = run_end(s, i + 1, CharClass::CommentBody);
            if j < s.len() {
                (TokenKind::Comment { terminated: true }, j + 1)
            } else {
                (TokenKind::Comment { terminated: false }, j)
            }
        } else if whitespace(c) {
            (TokenKind::Whitespace, run_end(s, i + 1, CharClass::Whitespace))
        } else if id_start(c) {
            (TokenKind::Ident, run_end(s, i + 1, CharClass::IdContinue))
        } else if c == ':' {
            if next_is('=') {
                (TokenKind::Assign, i + 2)
            } else {
                (TokenKind::Colon, i + 1)
            }
        } else if c == '<' {
            if next_is('=') {
                (TokenKind::LessEq, i + 2)
            } else {
                (TokenKind::Less, i + 1)
            }
        } else if c == '.' {
            if next_is('.') {
                (TokenKind::UnderRange, i + 2)
            } else {
                (TokenKind::Dot, i + 1)
            }
        } else if ascii_digit(c) {
            (
                TokenKind::Literal { kind: LiteralKind::Integer },
                run_end(s, i + 1, CharClass::Digit),
            )
        } else if c == '\'' {
            if i + 2 < s.len() && s[i + 2] == '\'' {
                (TokenKind::Literal { kind: LiteralKind::Char { terminated: true } }, i + 3)
            } else if i + 1 < s.len() {
                (TokenKind::Literal { kind: LiteralKind::Char { terminated: false } }, i + 2)
            } else {
                (TokenKind::Literal { kind: LiteralKind::Char { terminated: false } }, i + 1)
            }
        } else {
            (single_char_kind(c), i + 1)
        }
    }
}

/// The kind of a token that is always one character long.
pub open spec fn single_char_kind(c: char) -> TokenKind {
    if c == '=' {
        TokenKind::Eq
    } else if c == '(' {
        TokenKind::OpenParen
    } else if c == ')' {
        TokenKind::CloseParen
    } else if c == '[' {
        TokenKind::OpenBracket
    } else if c == ']' {
        TokenKind::CloseBracket
    } else if c == '+' {
        TokenKind::Plus
    } else if c == '-' {
        TokenKind::Minus
    } else if c == '*' {
        TokenKind::Star
    } else if c == '/' {
        TokenKind::Slash
    } else if c == ';' {
        TokenKind::Semicolon
    } else if c == ',' {
        TokenKind::Comma
    } else {
        TokenKind::Unknown
    }
}

/// The length in bytes of the characters `s[from..to]`, as a token reports it.
pub open spec fn token_len(s: Seq<char>, from: int, to: int) -> u32 {
    #[verifier::truncate]
    ((byte_offset(s, to) - byte_offset(s, from)) as u32)
}

/// The raw tokens of `s` from character `i` on, without the final `Eof`.
pub open spec fn tokens_from(s: Seq<char>, i: int) -> Seq<Token>
    decreases s.len() - i,
{
    if i < 0 || i >= s.len() {
        Seq::empty()
    } else {
        let kind = token_at(s, i).0;
        let end = token_at(s, i).1;
        if end <= i || end > s.len() {
            Seq::empty()
        } else {
            seq![Token { kind, len: token_len(s, i, end) }] + tokens_from(s, end)
        }
    }
}

/// A run ends at or after its start, inside the text, on the first
/// character that is not of the class.
pub proof fn lemma_run_end(s: Seq<char>, from: int, class: CharClass)
    requires
        0 <= from <= s.len(),
    ensures
        from <= run_end(s, from, class) <= s.len(),
        forall|k: int| from <= k < run_end(s, from, class) ==> in_class(class, #[trigger] s[k]),
        run_end(s, from, class) < s.len() ==> !in_class(class, s[run_end(s, from, class)]),
    decreases s.len() - from,
{
    if from < s.len() && in_class(class, s[from]) {
        lemma_run_end(s, from + 1, class);
    }
}

/// Every token but `Eof` covers at least one character and ends inside the
/// text; `Eof` comes exactly at the end.
pub proof fn lemma_token_at(s: Seq<char>, i: int)
    requires
        0 <= i <= s.len(),
    ensures
        i <= token_at(s, i).1 <= s.len(),
        i < s.len() ==> i < token_at(s, i).1,
        token_at(s, i).0 == TokenKind::Eof <==> i == s.len(),
{
    if i < s.len() {
        lemma_run_end(s, i + 1, CharClass::CommentBody);
        lemma_run_end(s, i + 1, CharClass::Whitespace);
        lemma_run_end(s, i + 1, CharClass::IdContinue);
        lemma_run_end(s, i + 1, CharClass::Digit);
    }
}

/// The sum of the lengths of `tokens`.
pub open spec fn total_len(tokens: Seq<Token>) -> nat
    decreases tokens.len(),
{
    if tokens.len() == 0 {
        0
    } else {
        tokens[0].len as nat + total_len(tokens.drop_first())
    }
}

/// The lengths of the tokens from character `i` on add up to the bytes from
/// there to the end of the text.
pub proof fn lemma_lengths_from(s: Seq<char>, i: int)
    requires
        0 <= i <= s.len(),
        byte_len(s) <= u32::MAX,
    ensures
        total_len(tokens_from(s, i)) == byte_len(s) - byte_offset(s, i),
    decreases s.len() - i,
{
    if i < s.len() {
        let end = token_at(s, i).1;
        lemma_token_at(s, i);
        lemma_byte_offset_monotonic(s, i, end);
        lemma_byte_offset_monotonic(s, end, s.len() as int);
        lemma_lengths_from(s, end);
        let first = Token { kind: token_at(s, i).0, len: token_len(s, i, end) };
        assert(tokens_from(s, i) == seq![first] + tokens_from(s, end));
        assert((seq![first] + tokens_from(s, end)).drop_first() == tokens_from(s, end));
    }
}

/// The lengths of all tokens of a text add up to its length in bytes. (The
/// final `Eof` has length 0.)
pub proof fn lemma_lengths_sum(s: Seq<char>)
    requires
        byte_len(s) <= u32::MAX,
    ensures
        total_len(tokens_from(s, 0)) == byte_len(s),
{
    lemma_lengths_from(s, 0);
}

/// A run of characters that are all of one class goes on to its end.
pub proof fn lemma_run_to(s: Seq<char>, from: int, to: int, class: CharClass)
    requires
        0 <= from <= to <= s.len(),
        forall|k: int| from <= k < to ==> in_class(class, #[trigger] s[k]),
    ensures
        run_end(s, from, class) == run_end(s, to, class),
    decreases to - from,
{
    if from < to {
        lemma_run_to(s, from + 1, to, class);
    }
}

/// A `{` that no `}` follows starts an unterminated comment that covers
/// the rest of the text, and that comment is the only token from there on.
pub proof fn lemma_unterminated_comment(s: Seq<char>, i: int)
    requires
        0 <= i < s.len(),
        s[i] == '{',
        forall|k: int| i < k < s.len() ==> #[trigger] s[k] != '}',
    ensures
        token_at(s, i) == (TokenKind::Comment { terminated: false }, s.len() as int),
        tokens_from(s, i) == seq![
            Token {
                kind: TokenKind::Comment { terminated: false },
                len: token_len(s, i, s.len() as int),
            },
        ],
{
    lemma_run_to(s, i + 1, s.len() as int, CharClass::CommentBody);
    assert(tokens_from(s, s.len() as int) == Seq::<Token>::empty());
}

/// A comment is terminated exactly if its last character is `}`.
pub proof fn lemma_terminated_comment(s: Seq<char>, i: int)
    requires
        0 <= i < s.len(),
        s[i] == '{',
    ensures
        token_at(s, i).0 == (TokenKind::Comment {
            terminated: s[token_at(s, i).1 - 1] == '}',
        }),
{
    lemma_run_end(s, i + 1, CharClass::CommentBody);
    let j = run_end(s, i + 1, CharClass::CommentBody);
    if j == s.len() && j > i + 1 {
        assert(in_class(CharClass::CommentBody, s[j - 1]));
    }
}

/// The raw token at the start of an identifier covers a text that is
/// lexically an identifier.
pub proof fn lemma_ident_token(s: Seq<char>, i: int)
    requires
        0 <= i < s.len(),
        token_at(s, i).0 == TokenKind::Ident,
    ensures
        ident_text(s.subrange(i, token_at(s, i).1)),
{
    lemma_run_end(s, i + 1, CharClass::IdContinue);
    lemma_run_end(s, i + 1, CharClass::CommentBody);
    lemma_run_end(s, i + 1, CharClass::Whitespace);
    lemma_run_end(s, i + 1, CharClass::Digit);
    let end = token_at(s, i).1;
    let text = s.subrange(i, end);
    assert forall|k: int| 1 <= k < text.len() implies id_continue(#[trigger] text[k]) by {
        assert(text[k] == s[i + k]);
        assert(in_class(CharClass::IdContinue, s[i + k]));
    }
}

/// Calls `unicode_xid::UnicodeXID::is_xid_start` on `c`. The result depends
/// on `c` alone: it is what the crate's letter ranges and its XID_Start
/// table say of `c`, which `xid_start` names.
#[verifier::external_body]
fn unicode_xid_start(c: char) -> (b: bool)
    ensures
        b == xid_start(c),
{
    unicode_xid::UnicodeXID::is_xid_start(c)
}

/// Calls `unicode_xid::UnicodeXID::is_xid_continue` on `c`. The result
/// depends on `c` alone: it is what the crate's ranges and its XID_Continue
/// table say of `c`, which `xid_continue` names.
#[verifier::external_body]
fn unicode_xid_continue(c: char) -> (b: bool)
    ensures
        b == xid_continue(c),
{
    unicode_xid::UnicodeXID::is_xid_continue(c)
}

/// True if `c` is Pattern_White_Space.
pub fn is_whitespace(c: char) -> (b: bool)
    ensures
        b == whitespace(c),
{
    c == '\u{0009}' || c == '\u{000A}' || c == '\u{000B}' || c == '\u{000C}' || c == '\u{000D}'
        || c == '\u{0020}' || c == '\u{0085}' || c == '\u{200E}' || c == '\u{200F}' || c
        == '\u{2028}' || c == '\u{2029}'
}

/// True if `c` can start an identifier.
pub fn is_id_start(c: char) -> (b: bool)
    ensures
        b == id_start(c),
{
    c == '_' || unicode_xid_start(c)
}

/// True if `c` can continue an identifier.
pub fn is_id_continue(c: char) -> (b: bool)
    ensures
        b == id_continue(c),
{
    unicode_xid_continue(c)
}

/// True if `c` is one of `0` to `9`.
pub fn is_ascii_digit(c: char) -> (b: bool)
    ensures
        b == ascii_digit(c),
{
    '0' <= c && c <= '9'
}

/// True if `c` belongs to `class`.
pub fn is_in_class(class: CharClass, c: char) -> (b: bool)
    ensures
        b == in_class(class, c),
{
    match class {
        CharClass::Whitespace => is_whitespace(c),
        CharClass::IdContinue => is_id_continue(c),
        CharClass::Digit => is_ascii_digit(c),
        CharClass::CommentBody => c != '}',
    }
}

/// True if `string` is lexically an identifier.
pub fn is_ident(string: &str) -> (b: bool)
    ensures
        b == ident_text(string@),
{
    let mut seen: usize = 0;
    let mut ok = true;
    for c in it: string.chars()
        invariant
            it.seq() == string@,
            (seen == 0) == (it.index() == 0),
            ok == (it.index() > 0 ==> {
                &&& id_start(string@[0])
                &&& forall|i: int| 1 <= i < it.index() ==> id_continue(#[trigger] string@[i])
            }),
    {
        if seen == 0 {
            ok = is_id_start(c);
            seen = 1;
        } else {
            let more = is_id_continue(c);
            ok = ok && more;
        }
    }
    seen != 0 && ok
}

/// The raw tokens of `input`, in order, without the final `Eof`.
pub fn tokensize(input: &str) -> (tokens: Vec<Token>)
    requires
        byte_len(input@) <= u32::MAX,
    ensures
        tokens@ == tokens_from(input@, 0),
{
    let mut cursor = Cursor::new(input);
    let mut tokens: Vec<Token> = Vec::new();
    loop
        invariant
            cursor.wf(),
            cursor.source() == input@,
            cursor.token_begin() == cursor.position(),
            0 <= cursor.position() <= input@.len(),
            tokens@ + tokens_from(input@, cursor.position()) == tokens_from(input@, 0),
        ensures
            tokens@ == tokens_from(input@, 0),
        decreases input@.len() - cursor.position(),
    {
        proof {
            lemma_token_at(input@, cursor.position());
            lemma_byte_offset_monotonic(
                input@,
                cursor.position(),
                token_at(input@, cursor.position()).1,
            );
        }
        let ghost before = tokens@;
        let ghost at = cursor.position();
        let token = cursor.advance_token();
        if token.kind != TokenKind::Eof {
            tokens.push(token);
            assert(tokens@ == before + seq![token]);
            assert(tokens_from(input@, at) == seq![token] + tokens_from(input@, cursor.position()));
            assert(tokens@ + tokens_from(input@, cursor.position()) == before + (seq![token]
                + tokens_from(input@, cursor.position())));
        } else {
            assert(tokens_from(input@, at) == Seq::<Token>::empty());
            assert(tokens@ + Seq::<Token>::empty() == tokens@);
            break;
        }
    }
    tokens
}

} // verus!
