//! Grammar symbols: what each token is to the parser, and the buffer of
//! classified tokens that the parser reads.
use crate::lexer::{ascii_digit, ident_text, is_ascii_digit, is_ident};
use crate::text::{byte_len, chars_of, lemma_byte_len_is_utf8_len, str_eq};
use crate::token::{
    is_keyword, keyword, positioned_from, views, Token, TokenKind, TokenView,
};
use vstd::prelude::*;
use vstd::string::*;

verus! {

/// The terminal symbols of the grammar.
#[derive(Clone, Copy, Debug, PartialEq, Eq, Structural)]
pub enum Symbol {
    /// An identifier that is no reserved word.
    Ident,
    /// An integer literal.
    Integer,
    /// A character literal with both quotes.
    Char,
    Program,
    Begin,
    End,
    Procedure,
    Return,
    Type,
    Var,
    If,
    Then,
    Else,
    Fi,
    While,
    Do,
    Endwh,
    CharTy,
    IntegerTy,
    Record,
    Array,
    Of,
    Read,
    Write,
    OpenParen,
    CloseParen,
    OpenBracket,
    CloseBracket,
    Semicolon,
    Dot,
    Comma,
    Colon,
    UnderRange,
    Less,
    LessEq,
    Eq,
    Assign,
    Plus,
    Minus,
    Star,
    Slash,
    /// A token that the grammar has no use for.
    Unknown,
    /// What lies beyond the last token.
    Eof,
}

/// One terminal of an input: its symbol and, for identifiers and literals,
/// its text (empty for every other symbol).
pub struct Item {
    pub symbol: Symbol,
    pub text: Seq<char>,
}

/// A well-formed name: lexically an identifier and no reserved word.
pub open spec fn name_text(s: Seq<char>) -> bool {
    ident_text(s) && !keyword(s)
}

/// One or more decimal digits.
pub open spec fn integer_text(s: Seq<char>) -> bool {
    s.len() > 0 && forall|i: int| 0 <= i < s.len() ==> ascii_digit(#[trigger] s[i])
}

/// One character between single quotes.
pub open spec fn char_text(s: Seq<char>) -> bool {
    s.len() == 3 && s[0] == '\'' && s[2] == '\''
}

/// The symbol that a reserved word stands for.
pub open spec fn keyword_symbol(s: Seq<char>) -> Symbol {
    if s == "program"@ {
        Symbol::Program
    } else if s == "begin"@ {
        Symbol::Begin
    } else if s == "end"@ {
        Symbol::End
    } else if s == "procedure"@ {
        Symbol::Procedure
    } else if s == "return"@ {
        Symbol::Return
    } else if s == "type"@ {
        Symbol::Type
    } else if s == "var"@ {
        Symbol::Var
    } else if s == "if"@ {
        Symbol::If
    } else if s == "then"@ {
        Symbol::Then
    } else if s == "else"@ {
        Symbol::Else
    } else if s == "fi"@ {
        Symbol::Fi
    } else if s == "while"@ {
        Symbol::While
    } else if s == "do"@ {
        Symbol::Do
    } else if s == "endwh"@ {
        Symbol::Endwh
    } else if s == "char"@ {
        Symbol::CharTy
    } else if s == "integer"@ {
        Symbol::IntegerTy
    } else if s == "record"@ {
        Symbol::Record
    } else if s == "array"@ {
        Symbol::Array
    } else if s == "of"@ {
        Symbol::Of
    } else if s == "read"@ {
        Symbol::Read
    } else if s == "write"@ {
        Symbol::Write
    } else {
        Symbol::Unknown
    }
}

/// The symbol that a delimiter's lexeme stands for.
pub open spec fn delimiter_symbol(s: Seq<char>) -> Symbol {
    if s == "("@ {
        Symbol::OpenParen
    } else if s == ")"@ {
        Symbol::CloseParen
    } else if s == "["@ {
        Symbol::OpenBracket
    } else if s == "]"@ {
        Symbol::CloseBracket
    } else if s == ";"@ {
        Symbol::Semicolon
    } else if s == "."@ {
        Symbol::Dot
    } else if s == ","@ {
        Symbol::Comma
    } else if s == ":"@ {
        Symbol::Colon
    } else if s == ".."@ {
        Symbol::UnderRange
    } else {
        Symbol::Unknown
    }
}

/// The symbol that an operator's lexeme stands for.
pub open spec fn operator_symbol(s: Seq<char>) -> Symbol {
    if s == "<"@ {
        Symbol::Less
    } else if s == "<="@ {
        Symbol::LessEq
    } else if s == "="@ {
        Symbol::Eq
    } else if s == ":="@ {
        Symbol::Assign
    } else if s == "+"@ {
        Symbol::Plus
    } else if s == "-"@ {
        Symbol::Minus
    } else if s == "*"@ {
        Symbol::Star
    } else if s == "/"@ {
        Symbol::Slash
    } else {
        Symbol::Unknown
    }
}

/// The symbol of a token, by its class and its lexeme. Whitespace, tokens
/// of no class and lexemes that do not fit their class are `Unknown`.
pub open spec fn symbol_of(token: TokenView) -> Symbol {
    match token.kind {
        TokenKind::Keyword => keyword_symbol(token.lexeme),
        TokenKind::Ident => if name_text(token.lexeme) {
            Symbol::Ident
        } else {
            Symbol::Unknown
        },
        TokenKind::Literal => if integer_text(token.lexeme) {
            Symbol::Integer
        } else if char_text(token.lexeme) {
            Symbol::Char
        } else {
            Symbol::Unknown
        },
        TokenKind::Delimiter => delimiter_symbol(token.lexeme),
        TokenKind::BinOp => operator_symbol(token.lexeme),
        _ => Symbol::Unknown,
    }
}

/// How a symbol without text of its own is spelled in the source.
pub open spec fn spelling(symbol: Symbol) -> Seq<char> {
    match symbol {
        Symbol::Program => "program"@,
        Symbol::Begin => "begin"@,
        Symbol::End => "end"@,
        Symbol::Procedure => "procedure"@,
        Symbol::Return => "return"@,
        Symbol::Type => "type"@,
        Symbol::Var => "var"@,
        Symbol::If => "if"@,
        Symbol::Then => "then"@,
        Symbol::Else => "else"@,
        Symbol::Fi => "fi"@,
        Symbol::While => "while"@,
        Symbol::Do => "do"@,
        Symbol::Endwh => "endwh"@,
        Symbol::CharTy => "char"@,
        Symbol::IntegerTy => "integer"@,
        Symbol::Record => "record"@,
        Symbol::Array => "array"@,
        Symbol::Of => "of"@,
        Symbol::Read => "read"@,
        Symbol::Write => "write"@,
        Symbol::OpenParen => "("@,
        Symbol::CloseParen => ")"@,
        Symbol::OpenBracket => "["@,
        Symbol::CloseBracket => "]"@,
        Symbol::Semicolon => ";"@,
        Symbol::Dot => "."@,
        Symbol::Comma => ","@,
        Symbol::Colon => ":"@,
        Symbol::UnderRange => ".."@,
        Symbol::Less => "<"@,
        Symbol::LessEq => "<="@,
        Symbol::Eq => "="@,
        Symbol::Assign => ":="@,
        Symbol::Plus => "+"@,
        Symbol::Minus => "-"@,
        Symbol::Star => "*"@,
        Symbol::Slash => "/"@,
        _ => Seq::empty(),
    }
}

/// A token that classifies to a reserved word, a delimiter or an operator
/// has the spelling of that symbol as its lexeme; one that classifies to a
/// name or a literal has a lexeme of that form.
pub proof fn lemma_symbol_spelling(token: TokenView)
    ensures
        match symbol_of(token) {
            Symbol::Ident => name_text(token.lexeme),
            Symbol::Integer => integer_text(token.lexeme),
            Symbol::Char => char_text(token.lexeme),
            Symbol::Unknown => true,
            Symbol::Eof => false,
            symbol => token.lexeme == spelling(symbol),
        },
{
}

/// True for the symbols whose text belongs to the syntax tree.
pub open spec fn carries_text(symbol: Symbol) -> bool {
    symbol == Symbol::Ident || symbol == Symbol::Integer || symbol == Symbol::Char
}

pub open spec fn item_of(token: TokenView) -> Item {
    Item {
        symbol: symbol_of(token),
        text: if carries_text(symbol_of(token)) {
            token.lexeme
        } else {
            Seq::empty()
        },
    }
}

/// The terminals that a run of tokens stands for.
pub open spec fn items_of(tokens: Seq<TokenView>) -> Seq<Item> {
    tokens.map_values(|t: TokenView| item_of(t))
}

/// The terminal for a symbol without text.
pub open spec fn plain(symbol: Symbol) -> Item {
    Item { symbol, text: Seq::empty() }
}

/// The terminal for an identifier.
pub open spec fn name_item(name: Seq<char>) -> Item {
    Item { symbol: Symbol::Ident, text: name }
}

/// An item as the classification of a token yields it: an item with text
/// has text of the right form, any other has none.
pub open spec fn item_wf(item: Item) -> bool {
    match item.symbol {
        Symbol::Ident => name_text(item.text),
        Symbol::Integer => integer_text(item.text),
        Symbol::Char => char_text(item.text),
        Symbol::Eof => false,
        _ => item.text == Seq::<char>::empty(),
    }
}

/// The symbol at index `i`, `Eof` outside the input.
pub open spec fn symbol_at(items: Seq<Item>, i: int) -> Symbol {
    if 0 <= i < items.len() {
        items[i].symbol
    } else {
        Symbol::Eof
    }
}

/// True if `lexeme` is one or more decimal digits.
pub fn is_integer_text(lexeme: &str) -> (b: bool)
    ensures
        b == integer_text(lexeme@),
{
    let mut ok = true;
    let mut seen: usize = 0;
    for c in it: lexeme.chars()
        invariant
            it.seq() == lexeme@,
            (seen == 0) == (it.index() == 0),
            ok == (forall|i: int| 0 <= i < it.index() ==> ascii_digit(#[trigger] lexeme@[i])),
    {
        let digit = is_ascii_digit(c);
        ok = ok && digit;
        seen = 1;
    }
    seen != 0 && ok
}

/// True if `lexeme` is one character between single quotes.
pub fn is_char_text(lexeme: &str) -> (b: bool)
    ensures
        b == char_text(lexeme@),
{
    let chars = chars_of(lexeme);
    chars.len() == 3 && chars[0] == '\'' && chars[2] == '\''
}

fn classify_keyword(s: &str) -> (symbol: Symbol)
    ensures
        symbol == keyword_symbol(s@),
{
    if str_eq(s, "program") {
        Symbol::Program
    } else if str_eq(s, "begin") {
        Symbol::Begin
    } else if str_eq(s, "end") {
        Symbol::End
    } else if str_eq(s, "procedure") {
        Symbol::Procedure
    } else if str_eq(s, "return") {
        Symbol::Return
    } else if str_eq(s, "type") {
        Symbol::Type
    } else if str_eq(s, "var") {
        Symbol::Var
    } else if str_eq(s, "if") {
        Symbol::If
    } else if str_eq(s, "then") {
        Symbol::Then
    } else if str_eq(s, "else") {
        Symbol::Else
    } else if str_eq(s, "fi") {
        Symbol::Fi
    } else if str_eq(s, "while") {
        Symbol::While
    } else if str_eq(s, "do") {
        Symbol::Do
    } else if str_eq(s, "endwh") {
        Symbol::Endwh
    } else if str_eq(s, "char") {
        Symbol::CharTy
    } else if str_eq(s, "integer") {
        Symbol::IntegerTy
    } else if str_eq(s, "record") {
        Symbol::Record
    } else if str_eq(s, "array") {
        Symbol::Array
    } else if str_eq(s, "of") {
        Symbol::Of
    } else if str_eq(s, "read") {
        Symbol::Read
    } else if str_eq(s, "write") {
        Symbol::Write
    } else {
        Symbol::Unknown
    }
}

fn classify_delimiter(s: &str) -> (symbol: Symbol)
    ensures
        symbol == delimiter_symbol(s@),
{
    if str_eq(s, "(") {
        Symbol::OpenParen
    } else if str_eq(s, ")") {
        Symbol::CloseParen
    } else if str_eq(s, "[") {
        Symbol::OpenBracket
    } else if str_eq(s, "]") {
        Symbol::CloseBracket
    } else if str_eq(s, ";") {
        Symbol::Semicolon
    } else if str_eq(s, ".") {
        Symbol::Dot
    } else if str_eq(s, ",") {
        Symbol::Comma
    } else if str_eq(s, ":") {
        Symbol::Colon
    } else if str_eq(s, "..") {
        Symbol::UnderRange
    } else {
        Symbol::Unknown
    }
}

fn classify_operator(s: &str) -> (symbol: Symbol)
    ensures
        symbol == operator_symbol(s@),
{
    if str_eq(s, "<") {
        Symbol::Less
    } else if str_eq(s, "<=") {
        Symbol::LessEq
    } else if str_eq(s, "=") {
        Symbol::Eq
    } else if str_eq(s, ":=") {
        Symbol::Assign
    } else if str_eq(s, "+") {
        Symbol::Plus
    } else if str_eq(s, "-") {
        Symbol::Minus
    } else if str_eq(s, "*") {
        Symbol::Star
    } else if str_eq(s, "/") {
        Symbol::Slash
    } else {
        Symbol::Unknown
    }
}

/// The grammar symbol of `token`.
pub fn classify(token: &Token) -> (symbol: Symbol)
    ensures
        symbol == symbol_of(token@),
{
    let lexeme = token.lexeme.as_str();
    match token.kind {
        TokenKind::Keyword => classify_keyword(lexeme),
        TokenKind::Ident => if is_ident(lexeme) && !is_keyword(lexeme) {
            Symbol::Ident
        } else {
            Symbol::Unknown
        },
        TokenKind::Literal => if is_integer_text(lexeme) {
            Symbol::Integer
        } else if is_char_text(lexeme) {
            Symbol::Char
        } else {
            Symbol::Unknown
        },
        TokenKind::Delimiter => classify_delimiter(lexeme),
        TokenKind::BinOp => classify_operator(lexeme),
        _ => Symbol::Unknown,
    }
}

/// A comment that ends with its closing brace.
pub open spec fn closed_comment(token: TokenView) -> bool {
    token.kind == TokenKind::Comment && token.lexeme.len() > 0 && token.lexeme.last() == '}'
}

/// A token that the parser has to read: anything but whitespace and closed
/// comments. A comment that is not closed stays, and is a syntax error.
pub open spec fn is_significant(token: TokenView) -> bool {
    token.kind != TokenKind::Whitespace && !closed_comment(token)
}

/// True if `token` is a comment that ends with its closing brace.
pub fn is_closed_comment(token: &Token) -> (b: bool)
    ensures
        b == closed_comment(token@),
{
    if token.kind != TokenKind::Comment {
        return false;
    }
    let chars = chars_of(token.lexeme.as_str());
    chars.len() > 0 && chars[chars.len() - 1] == '}'
}

/// The tokens of `tokens` that the parser has to read, in order.
pub fn significant(tokens: Vec<Token>) -> (res: Vec<Token>)
    ensures
        views(res@) == views(tokens@).filter(|t: TokenView| is_significant(t)),
{
    let mut res: Vec<Token> = Vec::new();
    let mut i: usize = 0;
    let ghost keep = |t: TokenView| is_significant(t);
    while i < tokens.len()
        invariant
            i <= tokens.len(),
            keep == |t: TokenView| is_significant(t),
            views(res@) == views(tokens@).take(i as int).filter(keep),
        decreases tokens.len() - i,
    {
        let token = &tokens[i];
        let ghost before = views(res@);
        proof {
            let all = views(tokens@);
            assert(all.take(i + 1) == all.take(i as int).push(all[i as int]));
            assert(all.take(i + 1).drop_last() == all.take(i as int));
            reveal(Seq::filter);
        }
        if token.kind != TokenKind::Whitespace && !is_closed_comment(token) {
            let copy = token.clone_token();
            res.push(copy);
            assert(views(res@) == before.push(copy@));
        }
        i += 1;
    }
    assert(views(tokens@).take(tokens@.len() as int) == views(tokens@));
    res
}

/// The tokens of a source text that the parser reads: all but whitespace
/// and closed comments.
pub open spec fn source_tokens(src: Seq<char>) -> Seq<TokenView> {
    positioned_from(src, 0, true).filter(|t: TokenView| is_significant(t))
}

/// The terminals of a source text: its tokens without whitespace and
/// closed comments, classified.
pub open spec fn source_items(src: Seq<char>) -> Seq<Item> {
    items_of(source_tokens(src))
}

/// The byte offset just behind the last of `tokens`: 0 without tokens, and
/// the largest offset there is if it would lie beyond that.
pub open spec fn end_pos(tokens: Seq<TokenView>) -> u32 {
    if tokens.len() == 0 {
        0
    } else {
        let last = tokens.last();
        let end = last.pos + byte_len(last.lexeme);
        if end > u32::MAX {
            u32::MAX
        } else {
            end as u32
        }
    }
}

/// The error that reports the token at `index` of `tokens`: its index, its
/// byte offset and its symbol; behind the last token, the end of the input.
pub open spec fn error_in(tokens: Seq<TokenView>, index: int) -> ParseError {
    ParseError {
        index: index as usize,
        pos: if 0 <= index < tokens.len() {
            tokens[index].pos
        } else {
            end_pos(tokens)
        },
        found: symbol_at(items_of(tokens), index),
    }
}

/// The decimal digit for `d`.
pub open spec fn digit_char(d: nat) -> char {
    if d == 0 {
        '0'
    } else if d == 1 {
        '1'
    } else if d == 2 {
        '2'
    } else if d == 3 {
        '3'
    } else if d == 4 {
        '4'
    } else if d == 5 {
        '5'
    } else if d == 6 {
        '6'
    } else if d == 7 {
        '7'
    } else if d == 8 {
        '8'
    } else {
        '9'
    }
}

/// `n` in decimal, without leading zeros.
pub open spec fn decimal(n: nat) -> Seq<char>
    decreases n,
{
    if n < 10 {
        seq![digit_char(n)]
    } else {
        decimal(n / 10).push(digit_char(n % 10))
    }
}

/// Appends `n` in decimal.
pub fn push_decimal(n: u32, out: &mut String)
    ensures
        final(out)@ == old(out)@ + decimal(n as nat),
    decreases n,
{
    if n >= 10 {
        push_decimal(n / 10, out);
    }
    let d = n % 10;
    let c = if d == 0 {
        '0'
    } else if d == 1 {
        '1'
    } else if d == 2 {
        '2'
    } else if d == 3 {
        '3'
    } else if d == 4 {
        '4'
    } else if d == 5 {
        '5'
    } else if d == 6 {
        '6'
    } else if d == 7 {
        '7'
    } else if d == 8 {
        '8'
    } else {
        '9'
    };
    out.push(c);
}

/// Where and on what the parser gave up.
#[derive(Clone, Copy, Debug, PartialEq, Eq, Structural)]
pub struct ParseError {
    /// Index of the offending token; the number of tokens if the input
    /// ended too early.
    pub index: usize,
    /// Byte offset of the offending token; the end of the last token if the
    /// input ended too early.
    pub pos: u32,
    /// The symbol found there.
    pub found: Symbol,
}

impl ParseError {
    /// The marker that makes the emitted program fail to build: an
    /// invocation of `compile_error!` that names the byte offset.
    pub open spec fn marker(self) -> Seq<char> {
        "::core::compile_error!{\"unexpected token at byte "@ + decimal(self.pos as nat)
            + "\"}"@
    }

    /// The marker for this error.
    pub fn to_compile_error(&self) -> (res: String)
        ensures
            res@ == self.marker(),
    {
        let mut res = String::from_str("::core::compile_error!{\"unexpected token at byte ");
        push_decimal(self.pos, &mut res);
        res.append("\"}");
        res
    }
}

/// The production that `scan` matches must take the whole input: what is
/// left over is the first token that does not fit.
pub open spec fn whole(scan: Result<int, int>, items: Seq<Item>) -> Result<int, int> {
    match scan {
        Ok(n) => if n == items.len() {
            Ok(n)
        } else {
            Err(n)
        },
        Err(e) => Err(e),
    }
}

/// The classified tokens of one input.
pub struct ParseBuffer {
    tokens: Vec<Token>,
    symbols: Vec<Symbol>,
}

impl ParseBuffer {
    /// The tokens that the buffer was made from.
    pub closed spec fn tokens(&self) -> Seq<TokenView> {
        views(self.tokens@)
    }

    /// The terminals that the parser reads.
    pub open spec fn items(&self) -> Seq<Item> {
        items_of(self.tokens())
    }

    /// The symbols were computed from the tokens.
    pub closed spec fn wf(&self) -> bool {
        &&& self.symbols@.len() == self.tokens@.len()
        &&& forall|i: int|
            0 <= i < self.symbols@.len() ==> #[trigger] self.symbols@[i] == symbol_of(
                self.tokens@[i]@,
            )
    }

    /// The error that reports the token at `index`.
    pub open spec fn error_at(&self, index: int) -> ParseError {
        error_in(self.tokens(), index)
    }

    /// Classifies every token of `tokens`.
    pub fn new(tokens: Vec<Token>) -> (buffer: ParseBuffer)
        ensures
            buffer.wf(),
            buffer.tokens() == views(tokens@),
    {
        let mut symbols: Vec<Symbol> = Vec::new();
        let mut i: usize = 0;
        while i < tokens.len()
            invariant
                i <= tokens.len(),
                symbols@.len() == i,
                forall|k: int| 0 <= k < i ==> #[trigger] symbols@[k] == symbol_of(tokens@[k]@),
            decreases tokens.len() - i,
        {
            symbols.push(classify(&tokens[i]));
            i += 1;
        }
        ParseBuffer { tokens, symbols }
    }

    /// Scans `src` and classifies its tokens, whitespace and closed
    /// comments left out.
    pub fn from_source(src: &str) -> (buffer: ParseBuffer)
        requires
            byte_len(src@) <= u32::MAX,
        ensures
            buffer.wf(),
            buffer.tokens() == source_tokens(src@),
            buffer.items() == source_items(src@),
    {
        ParseBuffer::new(significant(Token::scan(src, true)))
    }

    /// The number of tokens.
    pub fn len(&self) -> (n: usize)
        requires
            self.wf(),
        ensures
            n == self.items().len(),
    {
        self.symbols.len()
    }

    /// The symbol at `index`, `Eof` beyond the last token.
    pub fn peek(&self, index: usize) -> (symbol: Symbol)
        requires
            self.wf(),
        ensures
            symbol == symbol_at(self.items(), index as int),
            self.items().len() <= usize::MAX,
            (symbol != Symbol::Eof) == (index < self.items().len()),
            index < self.items().len() ==> item_wf(self.items()[index as int]),
            index < self.items().len() && !carries_text(symbol) ==> self.items()[index as int]
                == plain(symbol),
    {
        if index < self.symbols.len() {
            self.symbols[index]
        } else {
            Symbol::Eof
        }
    }

    /// The text of the token at `index`.
    pub fn lexeme(&self, index: usize) -> (text: String)
        requires
            self.wf(),
            index < self.items().len(),
        ensures
            text@ == self.tokens()[index as int].lexeme,
            carries_text(self.items()[index as int].symbol) ==> text@
                == self.items()[index as int].text,
    {
        self.tokens[index].lexeme.clone()
    }

    /// The error that reports the token at `index`.
    pub fn error(&self, index: usize) -> (e: ParseError)
        requires
            self.wf(),
            index <= self.items().len(),
        ensures
            e == self.error_at(index as int),
    {
        let pos = if index < self.tokens.len() {
            self.tokens[index].pos
        } else if self.tokens.len() == 0 {
            0
        } else {
            let last = &self.tokens[self.tokens.len() - 1];
            let len = last.lexeme.as_str().as_bytes().len();
            proof {
                lemma_byte_len_is_utf8_len(last.lexeme@);
            }
            if len > (u32::MAX - last.pos) as usize {
                u32::MAX
            } else {
                last.pos + len as u32
            }
        };
        ParseError { index, pos, found: self.peek(index) }
    }
}

} // verus!
