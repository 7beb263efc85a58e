//! Statements: the syntax tree, its grammar, its rendering and its parser.
use crate::derivation::lemma_stm_complete;
use crate::expr::{and_expect, derives, expect, follows, scan_expr, Expr, Scan};
use crate::symbol::{
    error_in, plain, source_items, source_tokens, symbol_at, whole, Item, ParseBuffer, ParseError,
    Symbol,
};
use crate::text::byte_len;
use crate::unique::lemma_stm_unique;
use vstd::prelude::*;
use vstd::string::*;

verus! {

#[derive(Debug, PartialEq, Eq)]
pub enum Stmatment {
    Expr(Expr),
    If(IfStm),
    While(WhileStm),
    Write(WriteStm),
    Read(ReadStm),
}

/// `if condition then body [else else_body] fi`
#[derive(Debug, PartialEq, Eq)]
pub struct IfStm {
    pub condition: Expr,
    pub body: Vec<Stmatment>,
    pub else_body: Option<Vec<Stmatment>>,
}

/// `while condition do body endwh`
#[derive(Debug, PartialEq, Eq)]
pub struct WhileStm {
    pub condition: Expr,
    pub body: Vec<Stmatment>,
}

/// `write(param)`
#[derive(Debug, PartialEq, Eq)]
pub struct WriteStm {
    pub param: Expr,
}

/// `read(param)`
#[derive(Debug, PartialEq, Eq)]
pub struct ReadStm {
    pub param: Expr,
}

/// The reserved words that no statement starts with.
pub open spec fn peek_kw(symbol: Symbol) -> bool {
    symbol == Symbol::Program || symbol == Symbol::Begin || symbol == Symbol::End || symbol
        == Symbol::Procedure || symbol == Symbol::Return || symbol == Symbol::Type || symbol
        == Symbol::While || symbol == Symbol::Do || symbol == Symbol::Endwh || symbol
        == Symbol::If || symbol == Symbol::Then || symbol == Symbol::Else || symbol == Symbol::Fi
        || symbol == Symbol::CharTy || symbol == Symbol::IntegerTy || symbol == Symbol::Record
        || symbol == Symbol::Array || symbol == Symbol::Of || symbol == Symbol::Read || symbol
        == Symbol::Write
}

/// The reserved words that end a block.
pub open spec fn maybe_end(symbol: Symbol) -> bool {
    symbol == Symbol::End || symbol == Symbol::Endwh || symbol == Symbol::Else || symbol
        == Symbol::Fi
}

/// 'read' '(' Expr ')' and 'write' '(' Expr ')', by the reserved word.
pub open spec fn scan_io(items: Seq<Item>, i: int, word: Symbol) -> Scan {
    if symbol_at(items, i) != word {
        Err(i)
    } else if symbol_at(items, i + 1) != Symbol::OpenParen {
        Err(i + 1)
    } else {
        and_expect(scan_expr(items, i + 2), items, Symbol::CloseParen)
    }
}

/// 'if' Expr 'then' StmList ('else' StmList)? 'fi'
pub open spec fn scan_if(items: Seq<Item>, i: int) -> Scan
    decreases items.len() - i, 0int,
{
    if symbol_at(items, i) != Symbol::If {
        Err(i)
    } else {
        match scan_expr(items, i + 1) {
            Ok(c) => if symbol_at(items, c) != Symbol::Then || c <= i {
                Err(c)
            } else {
                match scan_stm_list(items, c + 1) {
                    Ok(b) => if symbol_at(items, b) == Symbol::Else && c < b {
                        and_expect(scan_stm_list(items, b + 1), items, Symbol::Fi)
                    } else {
                        expect(items, b, Symbol::Fi)
                    },
                    Err(e) => Err(e),
                }
            },
            Err(e) => Err(e),
        }
    }
}

/// 'while' Expr 'do' StmList 'endwh'
pub open spec fn scan_while(items: Seq<Item>, i: int) -> Scan
    decreases items.len() - i, 0int,
{
    if symbol_at(items, i) != Symbol::While {
        Err(i)
    } else {
        match scan_expr(items, i + 1) {
            Ok(c) => if symbol_at(items, c) != Symbol::Do || c <= i {
                Err(c)
            } else {
                and_expect(scan_stm_list(items, c + 1), items, Symbol::Endwh)
            },
            Err(e) => Err(e),
        }
    }
}

/// Stm := 'read' .. | 'write' .. | 'if' .. | 'while' .. | Expr
///
/// The first symbol decides. No other reserved word starts a statement.
pub open spec fn scan_stm(items: Seq<Item>, i: int) -> Scan
    decreases items.len() - i, 1int,
{
    match symbol_at(items, i) {
        Symbol::Read => scan_io(items, i, Symbol::Read),
        Symbol::Write => scan_io(items, i, Symbol::Write),
        Symbol::If => scan_if(items, i),
        Symbol::While => scan_while(items, i),
        symbol => if !peek_kw(symbol) {
            scan_expr(items, i)
        } else {
            Err(i)
        },
    }
}

/// StmList := Stm (';' Stm)*
///
/// The list goes on exactly as long as a `;` follows a statement.
pub open spec fn scan_stm_list(items: Seq<Item>, i: int) -> Scan
    decreases items.len() - i, 2int,
{
    match scan_stm(items, i) {
        Ok(n) => if symbol_at(items, n) == Symbol::Semicolon && i < n {
            scan_stm_list(items, n + 1)
        } else {
            Ok(n)
        },
        Err(e) => Err(e),
    }
}

/// (';' StmList)?
pub open spec fn scan_stm_more(items: Seq<Item>, i: int) -> Scan {
    if symbol_at(items, i) == Symbol::Semicolon {
        scan_stm_list(items, i + 1)
    } else {
        Ok(i)
    }
}

/// The terminals of the first `n` statements of `stms`, with a semicolon
/// between neighbours.
pub open spec fn block_syntax(stms: Seq<Stmatment>, n: nat) -> Seq<Item>
    decreases stms, n,
{
    if n == 0 || n > stms.len() {
        Seq::empty()
    } else if n == 1 {
        stms[0].syntax()
    } else {
        block_syntax(stms, (n - 1) as nat) + seq![plain(Symbol::Semicolon)] + stms[n
            - 1].syntax()
    }
}

/// The rendering of the first `n` statements of `stms`, each followed by `; `.
pub open spec fn block_text(stms: Seq<Stmatment>, n: nat) -> Seq<char>
    decreases stms, n,
{
    if n == 0 || n > stms.len() {
        Seq::empty()
    } else {
        block_text(stms, (n - 1) as nat) + stms[n - 1].text() + "; "@
    }
}

/// The first `n` statements of `stms` are well formed.
pub open spec fn block_wf(stms: Seq<Stmatment>, n: nat) -> bool
    decreases stms, n,
{
    if n == 0 || n > stms.len() {
        true
    } else {
        block_wf(stms, (n - 1) as nat) && stms[n - 1].wf()
    }
}

/// A statement list of the grammar: at least one statement, all well formed.
pub open spec fn body_wf(stms: Seq<Stmatment>) -> bool {
    stms.len() >= 1 && block_wf(stms, stms.len())
}

/// What the block functions say of the first `n` statements depends on
/// them alone.
pub proof fn lemma_block_prefix(a: Seq<Stmatment>, b: Seq<Stmatment>, n: nat)
    requires
        n <= a.len(),
        n <= b.len(),
        forall|i: int| 0 <= i < n ==> a[i] == b[i],
    ensures
        block_syntax(a, n) == block_syntax(b, n),
        block_text(a, n) == block_text(b, n),
        block_wf(a, n) == block_wf(b, n),
    decreases n,
{
    if n > 0 {
        lemma_block_prefix(a, b, (n - 1) as nat);
    }
}

/// The first `n` statements of `xs` and of `ys` are the same trees, one by
/// one.
pub open spec fn same_block(xs: Seq<Stmatment>, ys: Seq<Stmatment>, n: nat) -> bool
    decreases xs, n,
{
    if n == 0 {
        true
    } else if n > xs.len() || n > ys.len() {
        false
    } else {
        same_block(xs, ys, (n - 1) as nat) && xs[n - 1].same(ys[n - 1])
    }
}

impl Stmatment {
    /// The two trees are the same: they have the same shape and hold the
    /// same expressions.
    pub open spec fn same(self, other: Stmatment) -> bool
        decreases self,
    {
        match self {
            Stmatment::Expr(a) => other matches Stmatment::Expr(b) && a.same(b),
            Stmatment::If(a) => other matches Stmatment::If(b) && a.condition.same(b.condition)
                && a.body@.len() == b.body@.len() && same_block(a.body@, b.body@, a.body@.len())
                && match a.else_body {
                Some(x) => b.else_body matches Some(y) && x@.len() == y@.len() && same_block(
                    x@,
                    y@,
                    x@.len(),
                ),
                None => b.else_body is None,
            },
            Stmatment::While(a) => other matches Stmatment::While(b) && a.condition.same(
                b.condition,
            ) && a.body@.len() == b.body@.len() && same_block(a.body@, b.body@, a.body@.len()),
            Stmatment::Write(a) => other matches Stmatment::Write(b) && a.param.same(b.param),
            Stmatment::Read(a) => other matches Stmatment::Read(b) && a.param.same(b.param),
        }
    }

    /// The tree is one that the grammar derives.
    pub open spec fn wf(self) -> bool
        decreases self,
    {
        match self {
            Stmatment::Expr(e) => e.wf(),
            Stmatment::If(s) => s.condition.wf() && s.body@.len() >= 1 && block_wf(
                s.body@,
                s.body@.len(),
            ) && match s.else_body {
                Some(other) => other@.len() >= 1 && block_wf(other@, other@.len()),
                None => true,
            },
            Stmatment::While(s) => s.condition.wf() && s.body@.len() >= 1 && block_wf(
                s.body@,
                s.body@.len(),
            ),
            Stmatment::Write(s) => s.param.wf(),
            Stmatment::Read(s) => s.param.wf(),
        }
    }

    /// The terminals that the statement is written as.
    pub open spec fn syntax(self) -> Seq<Item>
        decreases self,
    {
        match self {
            Stmatment::Expr(e) => e.syntax(),
            Stmatment::If(s) => seq![plain(Symbol::If)] + s.condition.syntax() + seq![
                plain(Symbol::Then),
            ] + block_syntax(s.body@, s.body@.len()) + match s.else_body {
                Some(other) => seq![plain(Symbol::Else)] + block_syntax(other@, other@.len()),
                None => Seq::empty(),
            } + seq![plain(Symbol::Fi)],
            Stmatment::While(s) => seq![plain(Symbol::While)] + s.condition.syntax() + seq![
                plain(Symbol::Do),
            ] + block_syntax(s.body@, s.body@.len()) + seq![plain(Symbol::Endwh)],
            Stmatment::Write(s) => seq![plain(Symbol::Write), plain(Symbol::OpenParen)]
                + s.param.syntax() + seq![plain(Symbol::CloseParen)],
            Stmatment::Read(s) => seq![plain(Symbol::Read), plain(Symbol::OpenParen)]
                + s.param.syntax() + seq![plain(Symbol::CloseParen)],
        }
    }

    /// The statement as the emitted program writes it, without the `;`
    /// that follows it in a block.
    pub open spec fn text(self) -> Seq<char>
        decreases self,
    {
        match self {
            Stmatment::Expr(e) => e.text(),
            Stmatment::If(s) => "if "@ + s.condition.text() + " { "@ + block_text(
                s.body@,
                s.body@.len(),
            ) + "}"@ + match s.else_body {
                Some(other) => " else { "@ + block_text(other@, other@.len()) + "}"@,
                None => Seq::empty(),
            },
            Stmatment::While(s) => "while "@ + s.condition.text() + " { "@ + block_text(
                s.body@,
                s.body@.len(),
            ) + "}"@,
            Stmatment::Write(s) => "println!(\"{:?}\", "@ + s.param.text() + ")"@,
            Stmatment::Read(s) => s.param.text() + " = read()"@,
        }
    }

    /// Appends the statement as the emitted program writes it.
    pub fn to_tokens(&self, tokens: &mut String)
        ensures
            final(tokens)@ == old(tokens)@ + self.text(),
        decreases self, 1int,
    {
        match self {
            Stmatment::Expr(expr) => expr.to_tokens(tokens),
            Stmatment::If(if_stm) => if_stm.to_tokens(tokens),
            Stmatment::While(while_stm) => while_stm.to_tokens(tokens),
            Stmatment::Write(write_stm) => write_stm.to_tokens(tokens),
            Stmatment::Read(read_stm) => read_stm.to_tokens(tokens),
        }
    }

    /// Reads the statement that starts at `start`.
    pub fn parse(input: &ParseBuffer, start: usize) -> (r: Result<(Stmatment, usize), ParseError>)
        requires
            input.wf(),
            start <= input.items().len(),
        ensures
            follows(input, start as int, scan_stm(input.items(), start as int), r),
            r matches Ok((s, n)) ==> stm_derives(input, start as int, n as int, s),
        decreases input.items().len() - start, 1int,
    {
        match input.peek(start) {
            Symbol::Read => match ReadStm::parse(input, start) {
                Ok((stm, n)) => Ok((Stmatment::Read(stm), n)),
                Err(e) => Err(e),
            },
            Symbol::Write => match WriteStm::parse(input, start) {
                Ok((stm, n)) => Ok((Stmatment::Write(stm), n)),
                Err(e) => Err(e),
            },
            Symbol::If => match IfStm::parse(input, start) {
                Ok((stm, n)) => Ok((Stmatment::If(stm), n)),
                Err(e) => Err(e),
            },
            Symbol::While => match WhileStm::parse(input, start) {
                Ok((stm, n)) => Ok((Stmatment::While(stm), n)),
                Err(e) => Err(e),
            },
            _ => if !is_peek_kw(input, start) {
                match Expr::parse(input, start) {
                    Ok((expr, n)) => Ok((Stmatment::Expr(expr), n)),
                    Err(e) => Err(e),
                }
            } else {
                Err(input.error(start))
            },
        }
    }
}

/// The terminals `items` are those of a statement of the grammar.
pub open spec fn is_stm(items: Seq<Item>) -> bool {
    exists|s: Stmatment| s.wf() && #[trigger] s.syntax() == items
}

/// The index of the first terminal that does not fit where `items` as a
/// whole are read as one statement.
pub open spec fn stm_misfit(items: Seq<Item>) -> int {
    match whole(scan_stm(items, 0), items) {
        Ok(_) => items.len() as int,
        Err(i) => i,
    }
}

impl Stmatment {
    /// Reads the whole input as one statement. The result is a tree of the
    /// grammar for the input if there is one, and else the error for the
    /// first token that does not fit.
    pub fn parse_all(input: &ParseBuffer) -> (r: Result<Stmatment, ParseError>)
        requires
            input.wf(),
        ensures
            r is Ok <==> is_stm(input.items()),
            r matches Ok(s) ==> s.wf() && s.syntax() == input.items(),
            r matches Ok(s) ==> forall|o: Stmatment|
                o.wf() && #[trigger] o.syntax() == input.items() ==> o.same(s),
            r matches Err(e) ==> e == input.error_at(stm_misfit(input.items())),
    {
        let r = match Stmatment::parse(input, 0) {
            Ok((stm, end)) => if end == input.len() {
                proof {
                    assert(input.items().subrange(0, end as int) =~= input.items());
                }
                Ok(stm)
            } else {
                Err(input.error(end))
            },
            Err(e) => Err(e),
        };
        proof {
            let outcome = r;
            if let Ok(found) = outcome {
                assert forall|o: Stmatment|
                    o.wf() && #[trigger] o.syntax() == input.items() implies o.same(found) by {
                    lemma_stm_unique(o, found);
                }
            }
            if r is Err {
                assert forall|s: Stmatment| s.wf() implies #[trigger] s.syntax()
                    != input.items() by {
                    if s.syntax() == input.items() {
                        lemma_stm_complete(s);
                    }
                }
            }
        }
        r
    }
}

/// Reads `input` as one statement. The result is a tree of the grammar
/// for the input, for the caller to show, or the marker of the syntax
/// error if there is none.
pub fn snl_stm(input: &str) -> (r: Result<Stmatment, String>)
    requires
        byte_len(input@) <= u32::MAX,
    ensures
        r is Ok <==> is_stm(source_items(input@)),
        r matches Ok(s) ==> s.wf() && s.syntax() == source_items(input@),
        r matches Ok(s) ==> forall|o: Stmatment|
            o.wf() && #[trigger] o.syntax() == source_items(input@) ==> o.same(s),
        r matches Err(marker) ==> marker@ == error_in(
            source_tokens(input@),
            stm_misfit(source_items(input@)),
        ).marker(),
{
    let buffer = ParseBuffer::from_source(input);
    match Stmatment::parse_all(&buffer) {
        Ok(stm) => Ok(stm),
        Err(e) => Err(e.to_compile_error()),
    }
}

/// Compiles `input`, read as one statement: the rendering of its tree,
/// or the marker of the syntax error if it has none.
pub fn snlc_stm(input: &str) -> (res: String)
    requires
        byte_len(input@) <= u32::MAX,
    ensures
        forall|s: Stmatment|
            s.wf() && #[trigger] s.syntax() == source_items(input@) ==> res@ == s.text(),
        !is_stm(source_items(input@)) ==> res@ == error_in(
            source_tokens(input@),
            stm_misfit(source_items(input@)),
        ).marker(),
{
    let buffer = ParseBuffer::from_source(input);
    match Stmatment::parse_all(&buffer) {
        Ok(stm) => {
            let mut res = String::new();
            stm.to_tokens(&mut res);
            proof {
                assert(res@ =~= stm.text());
                assert forall|s: Stmatment|
                    s.wf() && #[trigger] s.syntax() == source_items(input@) implies res@
                    == s.text() by {
                    lemma_stm_unique(s, stm);
                }
            }
            res
        },
        Err(e) => e.to_compile_error(),
    }
}

/// `s` is a tree of the grammar whose terminals are the tokens
/// `start..end` of `input`.
pub open spec fn stm_derives(input: &ParseBuffer, start: int, end: int, s: Stmatment) -> bool {
    s.wf() && s.syntax() == input.items().subrange(start, end)
}

/// `stms` is a statement list of the grammar whose terminals are the
/// tokens `start..end` of `input`.
pub open spec fn block_derives(
    input: &ParseBuffer,
    start: int,
    end: int,
    stms: Seq<Stmatment>,
) -> bool {
    body_wf(stms) && block_syntax(stms, stms.len()) == input.items().subrange(start, end)
}

/// An `if` statement whose parts lie one behind the other in `items` is
/// written as the whole run.
proof fn lemma_if_derives(
    items: Seq<Item>,
    start: int,
    then_at: int,
    body_end: int,
    fi_at: int,
    stm: IfStm,
)
    requires
        0 <= start < then_at < body_end <= fi_at < items.len(),
        items[start] == plain(Symbol::If),
        stm.condition.wf(),
        stm.condition.syntax() == items.subrange(start + 1, then_at),
        items[then_at] == plain(Symbol::Then),
        body_wf(stm.body@),
        block_syntax(stm.body@, stm.body@.len()) == items.subrange(then_at + 1, body_end),
        match stm.else_body {
            Some(other) => body_end < fi_at && items[body_end] == plain(Symbol::Else) && body_wf(
                other@,
            ) && block_syntax(other@, other@.len()) == items.subrange(body_end + 1, fi_at),
            None => body_end == fi_at,
        },
        items[fi_at] == plain(Symbol::Fi),
    ensures
        Stmatment::If(stm).wf(),
        Stmatment::If(stm).syntax() == items.subrange(start, fi_at + 1),
{
    let tail = match stm.else_body {
        Some(other) => seq![plain(Symbol::Else)] + block_syntax(other@, other@.len()),
        None => Seq::empty(),
    };
    assert(tail =~= items.subrange(body_end, fi_at));
    assert(Stmatment::If(stm).syntax() == seq![plain(Symbol::If)] + stm.condition.syntax() + seq![
        plain(Symbol::Then),
    ] + block_syntax(stm.body@, stm.body@.len()) + tail + seq![plain(Symbol::Fi)]);
    assert(items.subrange(start, fi_at + 1) =~= seq![plain(Symbol::If)] + items.subrange(
        start + 1,
        then_at,
    ) + seq![plain(Symbol::Then)] + items.subrange(then_at + 1, body_end) + items.subrange(
        body_end,
        fi_at,
    ) + seq![plain(Symbol::Fi)]);
}

/// An `if` statement has an else branch exactly if `else` stands behind
/// its first statement list.
pub proof fn lemma_else_iff_else_branch(stm: IfStm)
    ensures
        ({
            let at = 2 + stm.condition.syntax().len() + block_syntax(
                stm.body@,
                stm.body@.len(),
            ).len();
            &&& at < Stmatment::If(stm).syntax().len()
            &&& stm.else_body is Some <==> Stmatment::If(stm).syntax()[at as int] == plain(
                Symbol::Else,
            )
            &&& stm.else_body is None <==> Stmatment::If(stm).syntax()[at as int] == plain(
                Symbol::Fi,
            )
        }),
{
}

/// True if the token at `at` is a reserved word that starts no statement.
pub fn is_peek_kw(input: &ParseBuffer, at: usize) -> (res: bool)
    requires
        input.wf(),
    ensures
        res == peek_kw(symbol_at(input.items(), at as int)),
{
    let symbol = input.peek(at);
    symbol == Symbol::Program || symbol == Symbol::Begin || symbol == Symbol::End || symbol
        == Symbol::Procedure || symbol == Symbol::Return || symbol == Symbol::Type || symbol
        == Symbol::While || symbol == Symbol::Do || symbol == Symbol::Endwh || symbol
        == Symbol::If || symbol == Symbol::Then || symbol == Symbol::Else || symbol == Symbol::Fi
        || symbol == Symbol::CharTy || symbol == Symbol::IntegerTy || symbol == Symbol::Record
        || symbol == Symbol::Array || symbol == Symbol::Of || symbol == Symbol::Read || symbol
        == Symbol::Write
}

/// True if the token at `at` is a reserved word that ends a block.
pub fn is_maybe_end(input: &ParseBuffer, at: usize) -> (res: bool)
    requires
        input.wf(),
    ensures
        res == maybe_end(symbol_at(input.items(), at as int)),
{
    let symbol = input.peek(at);
    symbol == Symbol::End || symbol == Symbol::Endwh || symbol == Symbol::Else || symbol
        == Symbol::Fi
}

/// Reads the statement list that starts at `start`: one statement, and
/// one more behind every `;`.
#[verifier::rlimit(40)]
pub fn parse_stm_list(input: &ParseBuffer, start: usize) -> (r: Result<
    (Vec<Stmatment>, usize),
    ParseError,
>)
    requires
        input.wf(),
        start <= input.items().len(),
    ensures
        follows(input, start as int, scan_stm_list(input.items(), start as int), r),
        r matches Ok((stms, n)) ==> block_derives(input, start as int, n as int, stms@),
    decreases input.items().len() - start, 2int,
{
    let ghost items = input.items();
    let mut stms: Vec<Stmatment> = Vec::new();
    let mut cur = start;
    let total = input.len();
    loop
        invariant
            input.wf(),
            items == input.items(),
            start <= cur <= items.len(),
            items.len() == total,
            scan_stm_list(items, cur as int) == scan_stm_list(items, start as int),
            block_wf(stms@, stms@.len()),
            stms@.len() == 0 <==> cur == start,
            items.subrange(start as int, cur as int) == if stms@.len() == 0 {
                Seq::<Item>::empty()
            } else {
                block_syntax(stms@, stms@.len()) + seq![plain(Symbol::Semicolon)]
            },
        decreases items.len() - cur,
    {
        let (stm, next) = match Stmatment::parse(input, cur) {
            Ok(found) => found,
            Err(e) => {
                return Err(e);
            },
        };
        let ghost before = stms@;
        stms.push(stm);
        proof {
            lemma_block_prefix(before, stms@, before.len());
            assert(block_wf(stms@, stms@.len()));
            assert(block_syntax(stms@, stms@.len()) =~= items.subrange(start as int, next as int))
                by {
                assert(items.subrange(start as int, next as int) =~= items.subrange(
                    start as int,
                    cur as int,
                ) + items.subrange(cur as int, next as int));
            }
        }
        if input.peek(next) == Symbol::Semicolon {
            proof {
                assert(items.subrange(start as int, next + 1) =~= items.subrange(
                    start as int,
                    next as int,
                ) + seq![plain(Symbol::Semicolon)]);
            }
            cur = next + 1;
        } else {
            return Ok((stms, next));
        }
    }
}

/// Reads what follows a statement: nothing, or a `;` and a statement list.
pub fn parse_stm_more(input: &ParseBuffer, start: usize) -> (r: Result<
    (Vec<Stmatment>, usize),
    ParseError,
>)
    requires
        input.wf(),
        start <= input.items().len(),
    ensures
        match r {
            Ok((stms, n)) => scan_stm_more(input.items(), start as int) == Ok::<int, int>(
                n as int,
            ) && start <= n <= input.items().len() && if symbol_at(input.items(), start as int)
                == Symbol::Semicolon {
                block_derives(input, start + 1, n as int, stms@)
            } else {
                stms@.len() == 0 && n == start
            },
            Err(e) => scan_stm_more(input.items(), start as int) == Err::<int, int>(
                e.index as int,
            ) && e == input.error_at(e.index as int),
        },
    decreases input.items().len() - start, 3int,
{
    if input.peek(start) == Symbol::Semicolon {
        parse_stm_list(input, start + 1)
    } else {
        Ok((Vec::new(), start))
    }
}

/// Appends the statements of `stms`, each followed by `; `.
pub fn block_to_tokens(stms: &Vec<Stmatment>, tokens: &mut String)
    ensures
        final(tokens)@ == old(tokens)@ + block_text(stms@, stms@.len()),
    decreases stms, 0int,
{
    let ghost before = tokens@;
    let mut i: usize = 0;
    while i < stms.len()
        invariant
            i <= stms.len(),
            tokens@ == before + block_text(stms@, i as nat),
        decreases stms.len() - i,
    {
        stms[i].to_tokens(tokens);
        tokens.append("; ");
        i += 1;
    }
}

impl IfStm {
    pub fn to_tokens(&self, tokens: &mut String)
        ensures
            final(tokens)@ == old(tokens)@ + Stmatment::If(*self).text(),
        decreases self, 0int,
    {
        tokens.append("if ");
        self.condition.to_tokens(tokens);
        tokens.append(" { ");
        block_to_tokens(&self.body, tokens);
        tokens.append("}");
        if let Some(else_body) = &self.else_body {
            tokens.append(" else { ");
            block_to_tokens(else_body, tokens);
            tokens.append("}");
        }
    }

    /// Reads `if expr then stms [else stms] fi`. The else branch is there
    /// exactly if `else` follows the first statement list.
    #[verifier::rlimit(40)]
    pub fn parse(input: &ParseBuffer, start: usize) -> (r: Result<(IfStm, usize), ParseError>)
        requires
            input.wf(),
            start <= input.items().len(),
        ensures
            follows(input, start as int, scan_if(input.items(), start as int), r),
            r matches Ok((s, n)) ==> stm_derives(input, start as int, n as int, Stmatment::If(s)),
        decreases input.items().len() - start, 0int,
    {
        let ghost items = input.items();
        if input.peek(start) != Symbol::If {
            return Err(input.error(start));
        }
        let (condition, then_at) = match Expr::parse(input, start + 1) {
            Ok(found) => found,
            Err(e) => {
                return Err(e);
            },
        };
        if input.peek(then_at) != Symbol::Then {
            return Err(input.error(then_at));
        }
        let (body, body_end) = match parse_stm_list(input, then_at + 1) {
            Ok(found) => found,
            Err(e) => {
                return Err(e);
            },
        };
        if input.peek(body_end) == Symbol::Else {
            let (other, fi_at) = match parse_stm_list(input, body_end + 1) {
                Ok(found) => found,
                Err(e) => {
                    return Err(e);
                },
            };
            if input.peek(fi_at) != Symbol::Fi {
                return Err(input.error(fi_at));
            }
            let stm = IfStm { condition, body, else_body: Some(other) };
            proof {
                lemma_if_derives(
                    items,
                    start as int,
                    then_at as int,
                    body_end as int,
                    fi_at as int,
                    stm,
                );
            }
            Ok((stm, fi_at + 1))
        } else {
            if input.peek(body_end) != Symbol::Fi {
                return Err(input.error(body_end));
            }
            let stm = IfStm { condition, body, else_body: None };
            proof {
                lemma_if_derives(
                    items,
                    start as int,
                    then_at as int,
                    body_end as int,
                    body_end as int,
                    stm,
                );
            }
            Ok((stm, body_end + 1))
        }
    }
}

impl WhileStm {
    pub fn to_tokens(&self, tokens: &mut String)
        ensures
            final(tokens)@ == old(tokens)@ + Stmatment::While(*self).text(),
        decreases self, 0int,
    {
        tokens.append("while ");
        self.condition.to_tokens(tokens);
        tokens.append(" { ");
        block_to_tokens(&self.body, tokens);
        tokens.append("}");
    }

    /// Reads `while expr do stms endwh`.
    pub fn parse(input: &ParseBuffer, start: usize) -> (r: Result<(WhileStm, usize), ParseError>)
        requires
            input.wf(),
            start <= input.items().len(),
        ensures
            follows(input, start as int, scan_while(input.items(), start as int), r),
            r matches Ok((s, n)) ==> stm_derives(
                input,
                start as int,
                n as int,
                Stmatment::While(s),
            ),
        decreases input.items().len() - start, 0int,
    {
        let ghost items = input.items();
        if input.peek(start) != Symbol::While {
            return Err(input.error(start));
        }
        let (condition, do_at) = match Expr::parse(input, start + 1) {
            Ok(found) => found,
            Err(e) => {
                return Err(e);
            },
        };
        if input.peek(do_at) != Symbol::Do {
            return Err(input.error(do_at));
        }
        let (body, body_end) = match parse_stm_list(input, do_at + 1) {
            Ok(found) => found,
            Err(e) => {
                return Err(e);
            },
        };
        if input.peek(body_end) != Symbol::Endwh {
            return Err(input.error(body_end));
        }
        let stm = WhileStm { condition, body };
        proof {
            assert(items.subrange(start as int, body_end + 1) =~= seq![plain(Symbol::While)]
                + items.subrange(start + 1, do_at as int) + seq![plain(Symbol::Do)]
                + items.subrange(do_at + 1, body_end as int) + seq![plain(Symbol::Endwh)]);
            assert(block_wf(stm.body@, stm.body@.len()));
            assert(Stmatment::While(stm).wf());
        }
        Ok((stm, body_end + 1))
    }
}

impl WriteStm {
    pub fn to_tokens(&self, tokens: &mut String)
        ensures
            final(tokens)@ == old(tokens)@ + Stmatment::Write(*self).text(),
    {
        tokens.append("println!(\"{:?}\", ");
        self.param.to_tokens(tokens);
        tokens.append(")");
    }

    /// Reads `write(expr)`.
    pub fn parse(input: &ParseBuffer, start: usize) -> (r: Result<(WriteStm, usize), ParseError>)
        requires
            input.wf(),
            start <= input.items().len(),
        ensures
            follows(input, start as int, scan_io(input.items(), start as int, Symbol::Write), r),
            r matches Ok((s, n)) ==> stm_derives(
                input,
                start as int,
                n as int,
                Stmatment::Write(s),
            ),
    {
        match parse_io(input, start, Symbol::Write) {
            Ok((param, n)) => Ok((WriteStm { param }, n)),
            Err(e) => Err(e),
        }
    }
}

impl ReadStm {
    pub fn to_tokens(&self, tokens: &mut String)
        ensures
            final(tokens)@ == old(tokens)@ + Stmatment::Read(*self).text(),
    {
        self.param.to_tokens(tokens);
        tokens.append(" = read()");
    }

    /// Reads `read(expr)`.
    pub fn parse(input: &ParseBuffer, start: usize) -> (r: Result<(ReadStm, usize), ParseError>)
        requires
            input.wf(),
            start <= input.items().len(),
        ensures
            follows(input, start as int, scan_io(input.items(), start as int, Symbol::Read), r),
            r matches Ok((s, n)) ==> stm_derives(input, start as int, n as int, Stmatment::Read(s)),
    {
        match parse_io(input, start, Symbol::Read) {
            Ok((param, n)) => Ok((ReadStm { param }, n)),
            Err(e) => Err(e),
        }
    }
}

/// Reads `word(expr)` and hands back the expression.
fn parse_io(input: &ParseBuffer, start: usize, word: Symbol) -> (r: Result<
    (Expr, usize),
    ParseError,
>)
    requires
        input.wf(),
        start <= input.items().len(),
        word == Symbol::Read || word == Symbol::Write,
    ensures
        follows(input, start as int, scan_io(input.items(), start as int, word), r),
        r matches Ok((e, n)) ==> e.wf() && input.items().subrange(start as int, n as int) == seq![
            plain(word),
            plain(Symbol::OpenParen),
        ] + e.syntax() + seq![plain(Symbol::CloseParen)],
{
    let ghost items = input.items();
    if input.peek(start) != word {
        return Err(input.error(start));
    }
    if input.peek(start + 1) != Symbol::OpenParen {
        return Err(input.error(start + 1));
    }
    let (param, next) = match Expr::parse(input, start + 2) {
        Ok(found) => found,
        Err(e) => {
            return Err(e);
        },
    };
    if input.peek(next) != Symbol::CloseParen {
        return Err(input.error(next));
    }
    proof {
        assert(items.subrange(start as int, next + 1) =~= seq![
            plain(word),
            plain(Symbol::OpenParen),
        ] + items.subrange(start + 2, next as int) + seq![plain(Symbol::CloseParen)]);
    }
    Ok((param, next + 1))
}

} // verus!
