//! The scanner's cursor over a text.
use crate::lexer::{
    in_class, is_ascii_digit, is_id_start, is_in_class, is_whitespace, run_end, token_at,
    CharClass, LiteralKind, Token, TokenKind,
};
use crate::text::{
    byte_len, byte_offset, char_len_utf8, chars_of, lemma_byte_offset_monotonic, string_of,
};
use vstd::prelude::*;

verus! {

/// What `first` and `second` report beyond the end of the text.
pub const EOF_CHAR: char = '\0';

/// A position in a text, with the number of bytes consumed since the last
/// token was handed out.
pub struct Cursor {
    chars: Vec<char>,
    pos: usize,
    token_start: usize,
    token_bytes: u32,
}

impl Cursor {
    /// The whole text that the cursor runs over.
    pub closed spec fn source(&self) -> Seq<char> {
        self.chars@
    }

    /// The index of the next character to be read.
    pub closed spec fn position(&self) -> int {
        self.pos as int
    }

    /// The index of the first character of the token being read.
    pub closed spec fn token_begin(&self) -> int {
        self.token_start as int
    }

    /// The cursor lies inside its text, the text's byte length fits the
    /// token length type, and the byte count agrees with the position.
    pub closed spec fn wf(&self) -> bool {
        &&& self.token_start <= self.pos <= self.chars@.len()
        &&& byte_len(self.chars@) <= u32::MAX
        &&& self.token_bytes == byte_offset(self.chars@, self.pos as int) - byte_offset(
            self.chars@,
            self.token_start as int,
        )
    }

    /// A cursor at the start of `input`.
    pub fn new(input: &str) -> (cursor: Cursor)
        requires
            byte_len(input@) <= u32::MAX,
        ensures
            cursor.wf(),
            cursor.source() == input@,
            cursor.position() == 0,
            cursor.token_begin() == 0,
    {
        Cursor { chars: chars_of(input), pos: 0, token_start: 0, token_bytes: 0 }
    }

    /// The index of the next character to be read.
    pub fn index(&self) -> (i: usize)
        requires
            self.wf(),
        ensures
            i == self.position(),
            i <= self.source().len(),
    {
        self.pos
    }

    /// The characters `from..to` of the text.
    pub fn text_between(&self, from: usize, to: usize) -> (s: String)
        requires
            self.wf(),
            from <= to <= self.source().len(),
        ensures
            s@ == self.source().subrange(from as int, to as int),
    {
        string_of(&self.chars, from, to)
    }

    /// True when nothing is left to read.
    pub fn is_eof(&self) -> (b: bool)
        requires
            self.wf(),
        ensures
            b == (self.position() >= self.source().len()),
    {
        self.pos >= self.chars.len()
    }

    /// The next character, without consuming it; `EOF_CHAR` at the end.
    pub fn first(&self) -> (c: char)
        requires
            self.wf(),
        ensures
            c == if self.position() < self.source().len() {
                self.source()[self.position()]
            } else {
                EOF_CHAR
            },
    {
        if self.pos < self.chars.len() {
            self.chars[self.pos]
        } else {
            EOF_CHAR
        }
    }

    /// The character after the next, without consuming anything; `EOF_CHAR`
    /// beyond the end.
    pub fn second(&self) -> (c: char)
        requires
            self.wf(),
        ensures
            c == if self.position() + 1 < self.source().len() {
                self.source()[self.position() + 1]
            } else {
                EOF_CHAR
            },
    {
        if self.pos < self.chars.len() && self.pos + 1 < self.chars.len() {
            self.chars[self.pos + 1]
        } else {
            EOF_CHAR
        }
    }

    /// Bytes consumed since the last token was handed out.
    pub fn pos_within_token(&self) -> (n: u32)
        requires
            self.wf(),
        ensures
            n == byte_offset(self.source(), self.position()) - byte_offset(
                self.source(),
                self.token_begin(),
            ),
    {
        self.token_bytes
    }

    /// Starts a new token at the current position.
    pub fn reset_pos_within_token(&mut self)
        requires
            old(self).wf(),
        ensures
            final(self).wf(),
            final(self).source() == old(self).source(),
            final(self).position() == old(self).position(),
            final(self).token_begin() == old(self).position(),
    {
        self.token_start = self.pos;
        self.token_bytes = 0;
    }

    /// Consumes one character, if there is one.
    pub fn bump(&mut self) -> (c: Option<char>)
        requires
            old(self).wf(),
        ensures
            final(self).wf(),
            final(self).source() == old(self).source(),
            final(self).token_begin() == old(self).token_begin(),
            old(self).position() < old(self).source().len() ==> c == Some(
                old(self).source()[old(self).position()],
            ) && final(self).position() == old(self).position() + 1,
            old(self).position() >= old(self).source().len() ==> c is None
                && final(self).position() == old(self).position(),
    {
        if self.pos < self.chars.len() {
            let c = self.chars[self.pos];
            proof {
                lemma_byte_offset_monotonic(self.chars@, 0, self.token_start as int);
                lemma_byte_offset_monotonic(
                    self.chars@,
                    self.pos as int + 1,
                    self.chars@.len() as int,
                );
            }
            self.token_bytes = self.token_bytes + char_len_utf8(c);
            self.pos = self.pos + 1;
            Some(c)
        } else {
            None
        }
    }

    /// Consumes characters while they belong to `class`.
    pub fn eat_while(&mut self, class: CharClass)
        requires
            old(self).wf(),
        ensures
            final(self).wf(),
            final(self).source() == old(self).source(),
            final(self).token_begin() == old(self).token_begin(),
            final(self).position() == run_end(old(self).source(), old(self).position(), class),
            old(self).position() <= final(self).position() <= old(self).source().len(),
            final(self).position() < old(self).source().len() ==> !in_class(
                class,
                old(self).source()[final(self).position()],
            ),
    {
        while !self.is_eof() && is_in_class(class, self.first())
            invariant
                self.wf(),
                self.source() == old(self).source(),
                self.token_begin() == old(self).token_begin(),
                old(self).position() <= self.position() <= self.source().len(),
                run_end(self.source(), self.position(), class) == run_end(
                    old(self).source(),
                    old(self).position(),
                    class,
                ),
            decreases self.source().len() - self.position(),
        {
            self.bump();
        }
    }

    /// Cuts the next token off the text.
    ///
    /// At the end of the text this is `Eof` with length 0 and the cursor
    /// stays as it is. Otherwise the kind is decided by `token_at`, the
    /// length counts the bytes consumed since the last token, and a new
    /// token starts where this one ends.
    pub fn advance_token(&mut self) -> (token: Token)
        requires
            old(self).wf(),
        ensures
            final(self).wf(),
            final(self).source() == old(self).source(),
            token.kind == token_at(old(self).source(), old(self).position()).0,
            final(self).position() == token_at(old(self).source(), old(self).position()).1,
            old(self).position() >= old(self).source().len() ==> token.len == 0
                && final(self).token_begin() == old(self).token_begin(),
            old(self).position() < old(self).source().len() ==> {
                &&& token.len == byte_offset(old(self).source(), final(self).position())
                    - byte_offset(old(self).source(), old(self).token_begin())
                &&& final(self).token_begin() == final(self).position()
            },
    {
        let first_char = match self.bump() {
            Some(c) => c,
            None => return Token::new(TokenKind::Eof, 0),
        };
        let token_kind = if first_char == '{' {
            self.comment()
        } else if is_whitespace(first_char) {
            self.whitespace()
        } else if is_id_start(first_char) {
            self.ident()
        } else if first_char == ':' {
            if self.first() == '=' {
                self.bump();
                TokenKind::Assign
            } else {
                TokenKind::Colon
            }
        } else if first_char == '<' {
            if self.first() == '=' {
                self.bump();
                TokenKind::LessEq
            } else {
                TokenKind::Less
            }
        } else if first_char == '.' {
            if self.first() == '.' {
                self.bump();
                TokenKind::UnderRange
            } else {
                TokenKind::Dot
            }
        } else if is_ascii_digit(first_char) {
            self.int_or_unknown()
        } else if first_char == '\'' {
            self.char_or_string()
        } else if first_char == '=' {
            TokenKind::Eq
        } else if first_char == '(' {
            TokenKind::OpenParen
        } else if first_char == ')' {
            TokenKind::CloseParen
        } else if first_char == '[' {
            TokenKind::OpenBracket
        } else if first_char == ']' {
            TokenKind::CloseBracket
        } else if first_char == '+' {
            TokenKind::Plus
        } else if first_char == '-' {
            TokenKind::Minus
        } else if first_char == '*' {
            TokenKind::Star
        } else if first_char == '/' {
            TokenKind::Slash
        } else if first_char == ';' {
            TokenKind::Semicolon
        } else if first_char == ',' {
            TokenKind::Comma
        } else {
            TokenKind::Unknown
        };
        let res = Token::new(token_kind, self.pos_within_token());
        self.reset_pos_within_token();
        res
    }

    fn whitespace(&mut self) -> (kind: TokenKind)
        requires
            old(self).wf(),
        ensures
            final(self).wf(),
            final(self).source() == old(self).source(),
            final(self).token_begin() == old(self).token_begin(),
            final(self).position() == run_end(
                old(self).source(),
                old(self).position(),
                CharClass::Whitespace,
            ),
            kind == TokenKind::Whitespace,
    {
        self.eat_while(CharClass::Whitespace);
        TokenKind::Whitespace
    }

    fn comment(&mut self) -> (kind: TokenKind)
        requires
            old(self).wf(),
        ensures
            final(self).wf(),
            final(self).source() == old(self).source(),
            final(self).token_begin() == old(self).token_begin(),
            ({
                let j = run_end(old(self).source(), old(self).position(), CharClass::CommentBody);
                if j < old(self).source().len() {
                    kind == (TokenKind::Comment { terminated: true }) && final(self).position()
                        == j + 1
                } else {
                    kind == (TokenKind::Comment { terminated: false }) && final(self).position()
                        == j
                }
            }),
    {
        self.eat_while(CharClass::CommentBody);
        let last_char = match self.bump() {
            Some(c) => c,
            None => EOF_CHAR,
        };
        let is_terminated = last_char == '}';
        TokenKind::Comment { terminated: is_terminated }
    }

    fn ident(&mut self) -> (kind: TokenKind)
        requires
            old(self).wf(),
        ensures
            final(self).wf(),
            final(self).source() == old(self).source(),
            final(self).token_begin() == old(self).token_begin(),
            final(self).position() == run_end(
                old(self).source(),
                old(self).position(),
                CharClass::IdContinue,
            ),
            kind == TokenKind::Ident,
    {
        self.eat_while(CharClass::IdContinue);
        TokenKind::Ident
    }

    fn char_or_string(&mut self) -> (kind: TokenKind)
        requires
            old(self).wf(),
        ensures
            final(self).wf(),
            final(self).source() == old(self).source(),
            final(self).token_begin() == old(self).token_begin(),
            ({
                let s = old(self).source();
                let i = old(self).position();
                if i + 1 < s.len() && s[i + 1] == '\'' {
                    kind == (TokenKind::Literal { kind: LiteralKind::Char { terminated: true } })
                        && final(self).position() == i + 2
                } else {
                    kind == (TokenKind::Literal { kind: LiteralKind::Char { terminated: false } })
                        && final(self).position() == if i < s.len() {
                        i + 1
                    } else {
                        i
                    }
                }
            }),
    {
        if self.second() == '\'' {
            self.bump();
            self.bump();
            TokenKind::Literal { kind: LiteralKind::Char { terminated: true } }
        } else {
            self.bump();
            TokenKind::Literal { kind: LiteralKind::Char { terminated: false } }
        }
    }

    fn int_or_unknown(&mut self) -> (kind: TokenKind)
        requires
            old(self).wf(),
        ensures
            final(self).wf(),
            final(self).source() == old(self).source(),
            final(self).token_begin() == old(self).token_begin(),
            final(self).position() == run_end(
                old(self).source(),
                old(self).position(),
                CharClass::Digit,
            ),
            kind == (TokenKind::Literal { kind: LiteralKind::Integer }),
    {
        self.eat_while(CharClass::Digit);
        TokenKind::Literal { kind: LiteralKind::Integer }
    }
}

} // verus!
