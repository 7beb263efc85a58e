//! Expressions: the syntax tree, its grammar, its rendering and its parser.
use crate::derivation::lemma_expr_complete;
use crate::symbol::{
    error_in, item_wf, name_item, name_text, plain, source_items, source_tokens, symbol_at, whole,
    Item, ParseBuffer, ParseError, Symbol,
};
use crate::text::byte_len;
use crate::unique::lemma_expr_unique;
use vstd::prelude::*;
use vstd::string::*;

verus! {

#[derive(Debug, PartialEq, Eq)]
pub enum Expr {
    Assign(ExprAssign),
    Binary(ExprBinary),
    Var(ExprVar),
    Lit(ExprLit),
    Index(ExprIndex),
    Call(ExprCall),
    Paren(ExprParen),
}

/// The binary operators. There is no precedence among them.
#[derive(Debug, Clone, Copy, PartialEq, Eq, Structural)]
pub enum BinOp {
    Lt,
    Le,
    Eq,
    Assign,
    Plus,
    Minus,
    Star,
    Slash,
}

/// A literal, kept as it is written in the source.
#[derive(Debug, Clone, PartialEq, Eq)]
pub enum Lit {
    Char(String),
    Integer(String),
}

/// `target := from`
#[derive(Debug, PartialEq, Eq)]
pub struct ExprAssign {
    pub target: Box<Expr>,
    pub from: Box<Expr>,
}

/// `lhs op rhs`, where `lhs` is a primary and `rhs` is all that follows.
#[derive(Debug, PartialEq, Eq)]
pub struct ExprBinary {
    pub lhs: Box<Expr>,
    pub op: BinOp,
    pub rhs: Box<Expr>,
}

#[derive(Debug, PartialEq, Eq)]
pub struct ExprVar {
    pub ident: String,
}

#[derive(Debug, PartialEq, Eq)]
pub struct ExprLit {
    pub lit: Lit,
}

/// `ident[index]`
#[derive(Debug, PartialEq, Eq)]
pub struct ExprIndex {
    pub ident: String,
    pub index: Box<Expr>,
}

/// `name_item(args, ..)`
#[derive(Debug, PartialEq, Eq)]
pub struct ExprCall {
    pub ident: String,
    pub args: Vec<Expr>,
}

/// `(expr)`
#[derive(Debug, PartialEq, Eq)]
pub struct ExprParen {
    pub expr: Box<Expr>,
}

/// The outcome of matching a production against the input from some index
/// on: the index behind the match, or the index of the first token that
/// does not fit.
pub type Scan = Result<int, int>;

/// Matches the single symbol `symbol` at index `i`.
pub open spec fn expect(items: Seq<Item>, i: int, symbol: Symbol) -> Scan {
    if symbol_at(items, i) == symbol {
        Ok(i + 1)
    } else {
        Err(i)
    }
}

/// Matches `symbol` behind a first match.
pub open spec fn and_expect(first: Scan, items: Seq<Item>, symbol: Symbol) -> Scan {
    match first {
        Ok(n) => expect(items, n, symbol),
        Err(e) => Err(e),
    }
}

pub open spec fn is_operator(symbol: Symbol) -> bool {
    symbol == Symbol::Less || symbol == Symbol::LessEq || symbol == Symbol::Eq || symbol
        == Symbol::Assign || symbol == Symbol::Plus || symbol == Symbol::Minus || symbol
        == Symbol::Star || symbol == Symbol::Slash
}

/// IDENT
pub open spec fn scan_var(items: Seq<Item>, i: int) -> Scan {
    expect(items, i, Symbol::Ident)
}

/// BinOp := '<' | '<=' | '=' | ':=' | '+' | '-' | '*' | '/'
pub open spec fn scan_binop(items: Seq<Item>, i: int) -> Scan {
    if is_operator(symbol_at(items, i)) {
        Ok(i + 1)
    } else {
        Err(i)
    }
}

/// INT_LIT | CHAR_LIT
pub open spec fn scan_lit(items: Seq<Item>, i: int) -> Scan {
    if symbol_at(items, i) == Symbol::Integer || symbol_at(items, i) == Symbol::Char {
        Ok(i + 1)
    } else {
        Err(i)
    }
}

/// IDENT '[' Expr ']'
pub open spec fn scan_index(items: Seq<Item>, i: int) -> Scan
    decreases items.len() - i, 0int,
{
    if symbol_at(items, i) != Symbol::Ident {
        Err(i)
    } else if symbol_at(items, i + 1) != Symbol::OpenBracket {
        Err(i + 1)
    } else {
        and_expect(scan_expr(items, i + 2), items, Symbol::CloseBracket)
    }
}

/// IDENT '(' (Expr (',' Expr)*)? ')'
pub open spec fn scan_call(items: Seq<Item>, i: int) -> Scan
    decreases items.len() - i, 0int,
{
    if symbol_at(items, i) != Symbol::Ident {
        Err(i)
    } else if symbol_at(items, i + 1) != Symbol::OpenParen {
        Err(i + 1)
    } else if symbol_at(items, i + 2) == Symbol::CloseParen {
        Ok(i + 3)
    } else {
        and_expect(scan_args(items, i + 2), items, Symbol::CloseParen)
    }
}

/// Expr (',' Expr)*
pub open spec fn scan_args(items: Seq<Item>, i: int) -> Scan
    decreases items.len() - i, 3int,
{
    match scan_expr(items, i) {
        Ok(n) => if symbol_at(items, n) == Symbol::Comma && i < n {
            scan_args(items, n + 1)
        } else {
            Ok(n)
        },
        Err(e) => Err(e),
    }
}

/// '(' Expr ')'
pub open spec fn scan_paren(items: Seq<Item>, i: int) -> Scan
    decreases items.len() - i, 0int,
{
    if symbol_at(items, i) != Symbol::OpenParen {
        Err(i)
    } else {
        and_expect(scan_expr(items, i + 1), items, Symbol::CloseParen)
    }
}

/// Primary := INT_LIT | CHAR_LIT | IDENT '[' Expr ']' | IDENT '(' .. ')' | IDENT | '(' Expr ')'
///
/// An identifier is an index if `[` follows it, a call if `(` follows it,
/// and a variable otherwise.
pub open spec fn scan_primary(items: Seq<Item>, i: int) -> Scan
    decreases items.len() - i, 1int,
{
    match symbol_at(items, i) {
        Symbol::Integer | Symbol::Char => scan_lit(items, i),
        Symbol::Ident => match symbol_at(items, i + 1) {
            Symbol::OpenBracket => scan_index(items, i),
            Symbol::OpenParen => scan_call(items, i),
            _ => Ok(i + 1),
        },
        Symbol::OpenParen => scan_paren(items, i),
        _ => Err(i),
    }
}

/// BinOp Expr
pub open spec fn scan_tail(items: Seq<Item>, i: int) -> Scan
    decreases items.len() - i, 3int,
{
    match scan_binop(items, i) {
        Ok(n) => scan_expr(items, n),
        Err(e) => Err(e),
    }
}

/// Expr := Primary (BinOp Expr)?
///
/// If an operator follows the primary, the rest must be there. (A match is
/// never empty; here and in the other productions the comparison of the
/// two indices only lets the definition terminate.)
pub open spec fn scan_expr(items: Seq<Item>, i: int) -> Scan
    decreases items.len() - i, 2int,
{
    match scan_primary(items, i) {
        Ok(n) => if is_operator(symbol_at(items, n)) && i < n {
            scan_tail(items, n)
        } else {
            Ok(n)
        },
        Err(e) => Err(e),
    }
}

/// What a parser returns for the production whose match is `scan`: the
/// tree and the index behind it where the production matches, the error
/// for the first token that does not fit where it does not.
pub open spec fn follows<T>(
    input: &ParseBuffer,
    start: int,
    scan: Scan,
    r: Result<(T, usize), ParseError>,
) -> bool {
    match r {
        Ok((_, n)) => scan == Ok::<int, int>(n as int) && start < n <= input.items().len(),
        Err(e) => scan == Err::<int, int>(e.index as int) && start <= e.index
            <= input.items().len() && e == input.error_at(e.index as int),
    }
}

/// `e` is a tree of the grammar whose terminals are the tokens
/// `start..end` of `input`.
pub open spec fn derives(input: &ParseBuffer, start: int, end: int, e: Expr) -> bool {
    e.wf() && e.syntax() == input.items().subrange(start, end)
}

/// `:=` is written as a single `=` in the emitted program, and `=` as `==`.
pub proof fn lemma_operator_text()
    ensures
        BinOp::Assign.text() == seq!['='],
        BinOp::Eq.text() == seq!['=', '='],
{
    reveal_strlit("=");
    reveal_strlit("==");
    assert(BinOp::Assign.text() =~= seq!['=']);
    assert(BinOp::Eq.text() =~= seq!['=', '=']);
}

/// The left side of an expression with an operator.
pub open spec fn left_side(e: Expr) -> Expr {
    match e {
        Expr::Assign(a) => *a.target,
        Expr::Binary(b) => *b.lhs,
        _ => e,
    }
}

/// The right side of an expression with an operator.
pub open spec fn right_side(e: Expr) -> Expr {
    match e {
        Expr::Assign(a) => *a.from,
        Expr::Binary(b) => *b.rhs,
        _ => e,
    }
}

/// The operator of an expression with an operator.
pub open spec fn operator_of(e: Expr) -> BinOp {
    match e {
        Expr::Binary(b) => b.op,
        _ => BinOp::Assign,
    }
}

/// An expression with an operator is an assignment exactly if the
/// operator behind its left side is `:=`; with any other operator it is a
/// binary expression that holds that operator.
pub proof fn lemma_assign_iff_operator(e: Expr)
    requires
        e.wf(),
        !e.is_primary(),
    ensures
        e.syntax().len() > left_side(e).syntax().len(),
        is_operator(e.syntax()[left_side(e).syntax().len() as int].symbol),
        e is Assign <==> e.syntax()[left_side(e).syntax().len() as int] == plain(Symbol::Assign),
        e matches Expr::Binary(b) ==> e.syntax()[left_side(e).syntax().len() as int] == plain(
            b.op.symbol(),
        ),
{
}

/// True for the operator symbols.
pub fn is_op(symbol: Symbol) -> (b: bool)
    ensures
        b == is_operator(symbol),
{
    symbol == Symbol::Less || symbol == Symbol::LessEq || symbol == Symbol::Eq || symbol
        == Symbol::Assign || symbol == Symbol::Plus || symbol == Symbol::Minus || symbol
        == Symbol::Star || symbol == Symbol::Slash
}

/// What `list_syntax` says of the first `n` expressions depends on them alone.
pub proof fn lemma_list_prefix(a: Seq<Expr>, b: Seq<Expr>, n: nat)
    requires
        n <= a.len(),
        n <= b.len(),
        forall|i: int| 0 <= i < n ==> a[i] == b[i],
    ensures
        list_syntax(a, n) == list_syntax(b, n),
        list_text(a, n) == list_text(b, n),
        list_wf(a, n) == list_wf(b, n),
    decreases n,
{
    if n > 0 {
        lemma_list_prefix(a, b, (n - 1) as nat);
    }
}

/// The operator and the expression behind it.
pub fn expr_tailer(input: &ParseBuffer, start: usize) -> (r: Result<
    ((BinOp, Expr), usize),
    ParseError,
>)
    requires
        input.wf(),
        start <= input.items().len(),
    ensures
        follows(input, start as int, scan_tail(input.items(), start as int), r),
        r matches Ok(((op, e), n)) ==> start + 1 < n && input.items()[start as int] == plain(
            op.symbol(),
        ) && derives(input, start + 1, n as int, e),
    decreases input.items().len() - start, 3int,
{
    let (op, next) = match BinOp::parse(input, start) {
        Ok(found) => found,
        Err(e) => {
            return Err(e);
        },
    };
    match Expr::parse(input, next) {
        Ok((expr, end)) => Ok(((op, expr), end)),
        Err(e) => Err(e),
    }
}

impl BinOp {
    /// The operator as the emitted program writes it.
    pub open spec fn text(self) -> Seq<char> {
        match self {
            BinOp::Lt => "<"@,
            BinOp::Le => "<="@,
            BinOp::Eq => "=="@,
            BinOp::Assign => "="@,
            BinOp::Plus => "+"@,
            BinOp::Minus => "-"@,
            BinOp::Star => "*"@,
            BinOp::Slash => "/"@,
        }
    }

    /// The grammar symbol of the operator.
    pub open spec fn symbol(self) -> Symbol {
        match self {
            BinOp::Lt => Symbol::Less,
            BinOp::Le => Symbol::LessEq,
            BinOp::Eq => Symbol::Eq,
            BinOp::Assign => Symbol::Assign,
            BinOp::Plus => Symbol::Plus,
            BinOp::Minus => Symbol::Minus,
            BinOp::Star => Symbol::Star,
            BinOp::Slash => Symbol::Slash,
        }
    }

    /// Appends the operator as the emitted program writes it.
    pub fn to_tokens(&self, tokens: &mut String)
        ensures
            final(tokens)@ == old(tokens)@ + self.text(),
    {
        match self {
            BinOp::Lt => tokens.append("<"),
            BinOp::Le => tokens.append("<="),
            BinOp::Eq => tokens.append("=="),
            BinOp::Assign => tokens.append("="),
            BinOp::Plus => tokens.append("+"),
            BinOp::Minus => tokens.append("-"),
            BinOp::Star => tokens.append("*"),
            BinOp::Slash => tokens.append("/"),
        }
    }

    /// Reads one operator at `start`.
    pub fn parse(input: &ParseBuffer, start: usize) -> (r: Result<(BinOp, usize), ParseError>)
        requires
            input.wf(),
            start <= input.items().len(),
        ensures
            follows(input, start as int, scan_binop(input.items(), start as int), r),
            r matches Ok((op, n)) ==> n == start + 1 && input.items()[start as int] == plain(
                op.symbol(),
            ),
    {
        let res = match input.peek(start) {
            Symbol::Plus => BinOp::Plus,
            Symbol::Minus => BinOp::Minus,
            Symbol::Star => BinOp::Star,
            Symbol::Slash => BinOp::Slash,
            Symbol::Less => BinOp::Lt,
            Symbol::LessEq => BinOp::Le,
            Symbol::Eq => BinOp::Eq,
            Symbol::Assign => BinOp::Assign,
            _ => {
                return Err(input.error(start));
            },
        };
        Ok((res, start + 1))
    }
}

impl Lit {
    /// The literal's text.
    pub open spec fn text(self) -> Seq<char> {
        match self {
            Lit::Char(s) => s@,
            Lit::Integer(s) => s@,
        }
    }

    /// The terminal that the literal is written as.
    pub open spec fn item(self) -> Item {
        match self {
            Lit::Char(s) => Item { symbol: Symbol::Char, text: s@ },
            Lit::Integer(s) => Item { symbol: Symbol::Integer, text: s@ },
        }
    }

    /// The text has the form of its kind.
    pub open spec fn wf(self) -> bool {
        item_wf(self.item())
    }
}

/// The terminals of the first `n` expressions of `exprs`, with a comma
/// between neighbours.
pub open spec fn list_syntax(exprs: Seq<Expr>, n: nat) -> Seq<Item>
    decreases exprs, n,
{
    if n == 0 || n > exprs.len() {
        Seq::empty()
    } else if n == 1 {
        exprs[0].syntax()
    } else {
        list_syntax(exprs, (n - 1) as nat) + seq![plain(Symbol::Comma)] + exprs[n - 1].syntax()
    }
}

/// The rendering of the first `n` expressions of `exprs`, with `, ` between
/// neighbours.
pub open spec fn list_text(exprs: Seq<Expr>, n: nat) -> Seq<char>
    decreases exprs, n,
{
    if n == 0 || n > exprs.len() {
        Seq::empty()
    } else if n == 1 {
        exprs[0].text()
    } else {
        list_text(exprs, (n - 1) as nat) + ", "@ + exprs[n - 1].text()
    }
}

/// The first `n` expressions of `exprs` are well formed.
pub open spec fn list_wf(exprs: Seq<Expr>, n: nat) -> bool
    decreases exprs, n,
{
    if n == 0 || n > exprs.len() {
        true
    } else {
        list_wf(exprs, (n - 1) as nat) && exprs[n - 1].wf()
    }
}

/// The first `n` expressions of `xs` and of `ys` are the same trees, one
/// by one.
pub open spec fn same_list(xs: Seq<Expr>, ys: Seq<Expr>, n: nat) -> bool
    decreases xs, n,
{
    if n == 0 {
        true
    } else if n > xs.len() || n > ys.len() {
        false
    } else {
        same_list(xs, ys, (n - 1) as nat) && xs[n - 1].same(ys[n - 1])
    }
}

impl Expr {
    /// The two trees are the same: they have the same shape and hold the
    /// same names, literals and operators.
    pub open spec fn same(self, other: Expr) -> bool
        decreases self,
    {
        match self {
            Expr::Assign(a) => other matches Expr::Assign(b) && (*a.target).same(*b.target) && (
            *a.from).same(*b.from),
            Expr::Binary(a) => other matches Expr::Binary(b) && (*a.lhs).same(*b.lhs) && a.op
                == b.op && (*a.rhs).same(*b.rhs),
            Expr::Var(a) => other matches Expr::Var(b) && a.ident@ == b.ident@,
            Expr::Lit(a) => other matches Expr::Lit(b) && a.lit.item() == b.lit.item(),
            Expr::Index(a) => other matches Expr::Index(b) && a.ident@ == b.ident@ && (
            *a.index).same(*b.index),
            Expr::Call(a) => other matches Expr::Call(b) && a.ident@ == b.ident@ && a.args@.len()
                == b.args@.len() && same_list(a.args@, b.args@, a.args@.len()),
            Expr::Paren(a) => other matches Expr::Paren(b) && (*a.expr).same(*b.expr),
        }
    }

    /// A primary is any expression but an assignment or a binary one.
    pub open spec fn is_primary(self) -> bool {
        !(self is Assign) && !(self is Binary)
    }

    /// The tree is one that the grammar derives: names are names, literals
    /// are literals, the left side of an operator is a primary, and an
    /// operator node never holds `:=`.
    pub open spec fn wf(self) -> bool
        decreases self,
    {
        match self {
            Expr::Assign(a) => (*a.target).is_primary() && (*a.target).wf() && (*a.from).wf(),
            Expr::Binary(b) => (*b.lhs).is_primary() && (*b.lhs).wf() && b.op != BinOp::Assign
                && (*b.rhs).wf(),
            Expr::Var(v) => name_text(v.ident@),
            Expr::Lit(l) => l.lit.wf(),
            Expr::Index(x) => name_text(x.ident@) && (*x.index).wf(),
            Expr::Call(c) => name_text(c.ident@) && list_wf(c.args@, c.args@.len()),
            Expr::Paren(p) => (*p.expr).wf(),
        }
    }

    /// The terminals that the expression is written as.
    pub open spec fn syntax(self) -> Seq<Item>
        decreases self,
    {
        match self {
            Expr::Assign(a) => (*a.target).syntax() + seq![plain(Symbol::Assign)]
                + (*a.from).syntax(),
            Expr::Binary(b) => (*b.lhs).syntax() + seq![plain(b.op.symbol())] + (*b.rhs).syntax(),
            Expr::Var(v) => seq![name_item(v.ident@)],
            Expr::Lit(l) => seq![l.lit.item()],
            Expr::Index(x) => seq![name_item(x.ident@), plain(Symbol::OpenBracket)]
                + (*x.index).syntax() + seq![plain(Symbol::CloseBracket)],
            Expr::Call(c) => seq![name_item(c.ident@), plain(Symbol::OpenParen)] + list_syntax(
                c.args@,
                c.args@.len(),
            ) + seq![plain(Symbol::CloseParen)],
            Expr::Paren(p) => seq![plain(Symbol::OpenParen)] + (*p.expr).syntax()
                + seq![plain(Symbol::CloseParen)],
        }
    }

    /// The expression as the emitted program writes it.
    pub open spec fn text(self) -> Seq<char>
        decreases self,
    {
        match self {
            Expr::Assign(a) => (*a.target).text() + " "@ + BinOp::Assign.text() + " "@
                + (*a.from).text(),
            Expr::Binary(b) => (*b.lhs).text() + " "@ + b.op.text() + " "@ + (*b.rhs).text(),
            Expr::Var(v) => v.ident@,
            Expr::Lit(l) => l.lit.text(),
            Expr::Index(x) => x.ident@ + "["@ + (*x.index).text() + "]"@,
            Expr::Call(c) => c.ident@ + "("@ + list_text(c.args@, c.args@.len()) + ")"@,
            Expr::Paren(p) => "("@ + (*p.expr).text() + ")"@,
        }
    }

    /// Appends the expression as the emitted program writes it.
    pub fn to_tokens(&self, tokens: &mut String)
        ensures
            final(tokens)@ == old(tokens)@ + self.text(),
        decreases self, 1int,
    {
        match self {
            Expr::Assign(expr) => expr.to_tokens(tokens),
            Expr::Binary(expr) => expr.to_tokens(tokens),
            Expr::Var(expr) => expr.to_tokens(tokens),
            Expr::Lit(expr) => expr.to_tokens(tokens),
            Expr::Index(expr) => expr.to_tokens(tokens),
            Expr::Call(expr) => expr.to_tokens(tokens),
            Expr::Paren(expr) => expr.to_tokens(tokens),
        }
    }
}

impl Expr {
    /// Reads the primary that starts at `start`. An identifier is an index
    /// if `[` follows it, a call if `(` follows it, and a variable otherwise.
    pub fn parse_primary(input: &ParseBuffer, start: usize) -> (r: Result<
        (Expr, usize),
        ParseError,
    >)
        requires
            input.wf(),
            start <= input.items().len(),
        ensures
            follows(input, start as int, scan_primary(input.items(), start as int), r),
            r matches Ok((e, n)) ==> e.is_primary() && derives(input, start as int, n as int, e),
        decreases input.items().len() - start, 1int,
    {
        match input.peek(start) {
            Symbol::Integer | Symbol::Char => match ExprLit::parse(input, start) {
                Ok((lit, n)) => Ok((Expr::Lit(lit), n)),
                Err(e) => Err(e),
            },
            Symbol::Ident => match input.peek(start + 1) {
                Symbol::OpenBracket => match ExprIndex::parse(input, start) {
                    Ok((index, n)) => Ok((Expr::Index(index), n)),
                    Err(e) => Err(e),
                },
                Symbol::OpenParen => match ExprCall::parse(input, start) {
                    Ok((call, n)) => Ok((Expr::Call(call), n)),
                    Err(e) => Err(e),
                },
                _ => match ExprVar::parse(input, start) {
                    Ok((var, n)) => Ok((Expr::Var(var), n)),
                    Err(e) => Err(e),
                },
            },
            Symbol::OpenParen => match ExprParen::parse(input, start) {
                Ok((paren, n)) => Ok((Expr::Paren(paren), n)),
                Err(e) => Err(e),
            },
            _ => Err(input.error(start)),
        }
    }

    /// Reads the expression that starts at `start`: a primary and, if an
    /// operator follows it, the operator and the expression behind it. The
    /// result is an assignment if the operator is `:=`, a binary expression
    /// for any other operator, and the primary alone without one.
    #[verifier::rlimit(40)]
    pub fn parse(input: &ParseBuffer, start: usize) -> (r: Result<(Expr, usize), ParseError>)
        requires
            input.wf(),
            start <= input.items().len(),
        ensures
            follows(input, start as int, scan_expr(input.items(), start as int), r),
            r matches Ok((e, n)) ==> derives(input, start as int, n as int, e),
        decreases input.items().len() - start, 2int,
    {
        let ghost items = input.items();
        let (lhs, next) = match Expr::parse_primary(input, start) {
            Ok(found) => found,
            Err(e) => {
                return Err(e);
            },
        };
        if !is_op(input.peek(next)) {
            return Ok((lhs, next));
        }
        match expr_tailer(input, next) {
            Ok(((op, rhs), end)) => {
                let ghost left = lhs;
                let ghost right = rhs;
                let res = match op {
                    BinOp::Assign => Expr::Assign(
                        ExprAssign { target: Box::new(lhs), from: Box::new(rhs) },
                    ),
                    _ => Expr::Binary(ExprBinary { lhs: Box::new(lhs), op, rhs: Box::new(rhs) }),
                };
                proof {
                    assert(res.syntax() == left.syntax() + seq![plain(op.symbol())]
                        + right.syntax());
                    assert(items.subrange(start as int, end as int) =~= items.subrange(
                        start as int,
                        next as int,
                    ) + seq![items[next as int]] + items.subrange(next + 1, end as int));
                    assert(res.wf());
                }
                Ok((res, end))
            },
            Err(e) => Err(e),
        }
    }
}

/// The terminals `items` are those of an expression of the grammar.
pub open spec fn is_expr(items: Seq<Item>) -> bool {
    exists|e: Expr| e.wf() && #[trigger] e.syntax() == items
}

/// The index of the first terminal that does not fit where `items` as a
/// whole are read as one expression.
pub open spec fn expr_misfit(items: Seq<Item>) -> int {
    match whole(scan_expr(items, 0), items) {
        Ok(_) => items.len() as int,
        Err(i) => i,
    }
}

impl Expr {
    /// Reads the whole input as one expression. The result is a tree of
    /// the grammar for the input if there is one, and else the error for
    /// the first token that does not fit.
    pub fn parse_all(input: &ParseBuffer) -> (r: Result<Expr, ParseError>)
        requires
            input.wf(),
        ensures
            r is Ok <==> is_expr(input.items()),
            r matches Ok(e) ==> e.wf() && e.syntax() == input.items(),
            r matches Ok(e) ==> forall|o: Expr|
                o.wf() && #[trigger] o.syntax() == input.items() ==> o.same(e),
            r matches Err(e) ==> e == input.error_at(expr_misfit(input.items())),
    {
        let r = match Expr::parse(input, 0) {
            Ok((expr, end)) => if end == input.len() {
                proof {
                    assert(input.items().subrange(0, end as int) =~= input.items());
                }
                Ok(expr)
            } else {
                Err(input.error(end))
            },
            Err(e) => Err(e),
        };
        proof {
            let outcome = r;
            if let Ok(found) = outcome {
                assert forall|o: Expr|
                    o.wf() && #[trigger] o.syntax() == input.items() implies o.same(found) by {
                    lemma_expr_unique(o, found);
                }
            }
            if r is Err {
                assert forall|e: Expr| e.wf() implies #[trigger] e.syntax() != input.items() by {
                    if e.syntax() == input.items() {
                        lemma_expr_complete(e);
                    }
                }
            }
        }
        r
    }
}

/// Reads `input` as one expression. The result is a tree of the grammar
/// for the input, for the caller to show, or the marker of the syntax
/// error if there is none.
pub fn snl_expr(input: &str) -> (r: Result<Expr, String>)
    requires
        byte_len(input@) <= u32::MAX,
    ensures
        r is Ok <==> is_expr(source_items(input@)),
        r matches Ok(e) ==> e.wf() && e.syntax() == source_items(input@),
        r matches Ok(e) ==> forall|o: Expr|
            o.wf() && #[trigger] o.syntax() == source_items(input@) ==> o.same(e),
        r matches Err(marker) ==> marker@ == error_in(
            source_tokens(input@),
            expr_misfit(source_items(input@)),
        ).marker(),
{
    let buffer = ParseBuffer::from_source(input);
    match Expr::parse_all(&buffer) {
        Ok(expr) => Ok(expr),
        Err(e) => Err(e.to_compile_error()),
    }
}

/// Compiles `input`, read as one expression: the rendering of its tree,
/// or the marker of the syntax error if it has none.
pub fn snlc_expr(input: &str) -> (res: String)
    requires
        byte_len(input@) <= u32::MAX,
    ensures
        forall|e: Expr|
            e.wf() && #[trigger] e.syntax() == source_items(input@) ==> res@ == e.text(),
        !is_expr(source_items(input@)) ==> res@ == error_in(
            source_tokens(input@),
            expr_misfit(source_items(input@)),
        ).marker(),
{
    let buffer = ParseBuffer::from_source(input);
    match Expr::parse_all(&buffer) {
        Ok(expr) => {
            let mut res = String::new();
            expr.to_tokens(&mut res);
            proof {
                assert(res@ =~= expr.text());
                assert forall|e: Expr|
                    e.wf() && #[trigger] e.syntax() == source_items(input@) implies res@
                    == e.text() by {
                    lemma_expr_unique(e, expr);
                }
            }
            res
        },
        Err(e) => e.to_compile_error(),
    }
}

impl ExprVar {
    /// Reads one identifier.
    pub fn parse(input: &ParseBuffer, start: usize) -> (r: Result<(ExprVar, usize), ParseError>)
        requires
            input.wf(),
            start <= input.items().len(),
        ensures
            follows(input, start as int, scan_var(input.items(), start as int), r),
            r matches Ok((e, n)) ==> n == start + 1 && derives(
                input,
                start as int,
                n as int,
                Expr::Var(e),
            ),
    {
        if input.peek(start) != Symbol::Ident {
            return Err(input.error(start));
        }
        let ident = input.lexeme(start);
        proof {
            assert(input.items().subrange(start as int, start + 1) =~= seq![name_item(ident@)]);
        }
        Ok((ExprVar { ident }, start + 1))
    }
}

impl ExprLit {
    /// Reads one literal.
    pub fn parse(input: &ParseBuffer, start: usize) -> (r: Result<(ExprLit, usize), ParseError>)
        requires
            input.wf(),
            start <= input.items().len(),
        ensures
            follows(input, start as int, scan_lit(input.items(), start as int), r),
            r matches Ok((e, n)) ==> n == start + 1 && derives(
                input,
                start as int,
                n as int,
                Expr::Lit(e),
            ),
    {
        let lit = match input.peek(start) {
            Symbol::Char => Lit::Char(input.lexeme(start)),
            Symbol::Integer => Lit::Integer(input.lexeme(start)),
            _ => {
                return Err(input.error(start));
            },
        };
        proof {
            assert(input.items().subrange(start as int, start + 1) =~= seq![lit.item()]);
        }
        Ok((ExprLit { lit }, start + 1))
    }
}

impl ExprIndex {
    /// Reads `ident[expr]`.
    pub fn parse(input: &ParseBuffer, start: usize) -> (r: Result<(ExprIndex, usize), ParseError>)
        requires
            input.wf(),
            start <= input.items().len(),
        ensures
            follows(input, start as int, scan_index(input.items(), start as int), r),
            r matches Ok((e, n)) ==> derives(input, start as int, n as int, Expr::Index(e)),
        decreases input.items().len() - start, 0int,
    {
        let ghost items = input.items();
        if input.peek(start) != Symbol::Ident {
            return Err(input.error(start));
        }
        if input.peek(start + 1) != Symbol::OpenBracket {
            return Err(input.error(start + 1));
        }
        let ident = input.lexeme(start);
        let (index, next) = match Expr::parse(input, start + 2) {
            Ok(found) => found,
            Err(e) => {
                return Err(e);
            },
        };
        if input.peek(next) != Symbol::CloseBracket {
            return Err(input.error(next));
        }
        proof {
            assert(items.subrange(start as int, next + 1) =~= seq![
                name_item(ident@),
                plain(Symbol::OpenBracket),
            ] + items.subrange(start + 2, next as int) + seq![plain(Symbol::CloseBracket)]);
        }
        Ok((ExprIndex { ident, index: Box::new(index) }, next + 1))
    }
}

impl ExprCall {
    /// Reads `name_item(expr, ..)`. The argument list may be empty; a comma
    /// must be followed by another argument.
    #[verifier::rlimit(40)]
    pub fn parse(input: &ParseBuffer, start: usize) -> (r: Result<(ExprCall, usize), ParseError>)
        requires
            input.wf(),
            start <= input.items().len(),
        ensures
            follows(input, start as int, scan_call(input.items(), start as int), r),
            r matches Ok((e, n)) ==> derives(input, start as int, n as int, Expr::Call(e)),
        decreases input.items().len() - start, 0int,
    {
        let ghost items = input.items();
        if input.peek(start) != Symbol::Ident {
            return Err(input.error(start));
        }
        if input.peek(start + 1) != Symbol::OpenParen {
            return Err(input.error(start + 1));
        }
        let ident = input.lexeme(start);
        let mut args: Vec<Expr> = Vec::new();
        let first = start + 2;
        if input.peek(first) == Symbol::CloseParen {
            proof {
                assert(items.subrange(start as int, first + 1) =~= seq![
                    name_item(ident@),
                    plain(Symbol::OpenParen),
                ] + Seq::<Item>::empty() + seq![plain(Symbol::CloseParen)]);
            }
            let call = ExprCall { ident, args };
            proof {
                assert(list_syntax(call.args@, 0) == Seq::<Item>::empty());
                assert(Expr::Call(call).syntax() == seq![
                    name_item(call.ident@),
                    plain(Symbol::OpenParen),
                ] + list_syntax(call.args@, call.args@.len()) + seq![plain(Symbol::CloseParen)]);
                assert(list_wf(call.args@, 0));
                assert(Expr::Call(call).wf());
            }
            return Ok((call, first + 1));
        }
        let mut cur = first;
        loop
            invariant
                input.wf(),
                items == input.items(),
                start + 2 == first <= cur <= items.len(),
                items.len() <= usize::MAX,
                symbol_at(items, start as int) == Symbol::Ident,
                symbol_at(items, start + 1) == Symbol::OpenParen,
                symbol_at(items, start + 2) != Symbol::CloseParen,
                items[start as int] == name_item(ident@),
                name_text(ident@),
                items[start + 1] == plain(Symbol::OpenParen),
                scan_args(items, cur as int) == scan_args(items, first as int),
                list_wf(args@, args@.len()),
                args@.len() == 0 <==> cur == first,
                items.subrange(first as int, cur as int) == if args@.len() == 0 {
                    Seq::<Item>::empty()
                } else {
                    list_syntax(args@, args@.len()) + seq![plain(Symbol::Comma)]
                },
            decreases items.len() - cur,
        {
            let (arg, next) = match Expr::parse(input, cur) {
                Ok(found) => found,
                Err(e) => {
                    return Err(e);
                },
            };
            let ghost before = args@;
            args.push(arg);
            proof {
                lemma_list_prefix(before, args@, before.len());
                assert(list_wf(args@, args@.len()));
                assert(list_syntax(args@, args@.len()) =~= items.subrange(
                    first as int,
                    next as int,
                )) by {
                    assert(items.subrange(first as int, next as int) =~= items.subrange(
                        first as int,
                        cur as int,
                    ) + items.subrange(cur as int, next as int));
                }
            }
            if input.peek(next) == Symbol::Comma {
                proof {
                    assert(items.subrange(first as int, next + 1) =~= items.subrange(
                        first as int,
                        next as int,
                    ) + seq![plain(Symbol::Comma)]);
                }
                cur = next + 1;
            } else if input.peek(next) == Symbol::CloseParen {
                proof {
                    assert(items.subrange(start as int, next + 1) =~= seq![
                        name_item(ident@),
                        plain(Symbol::OpenParen),
                    ] + items.subrange(first as int, next as int) + seq![
                        plain(Symbol::CloseParen),
                    ]);
                }
                let call = ExprCall { ident, args };
                proof {
                    assert(Expr::Call(call).syntax() == seq![
                        name_item(call.ident@),
                        plain(Symbol::OpenParen),
                    ] + list_syntax(call.args@, call.args@.len()) + seq![
                        plain(Symbol::CloseParen),
                    ]);
                    assert(list_wf(call.args@, call.args@.len()));
                    assert(Expr::Call(call).wf());
                }
                return Ok((call, next + 1));
            } else {
                return Err(input.error(next));
            }
        }
    }
}

impl ExprParen {
    /// Reads `(expr)`.
    pub fn parse(input: &ParseBuffer, start: usize) -> (r: Result<(ExprParen, usize), ParseError>)
        requires
            input.wf(),
            start <= input.items().len(),
        ensures
            follows(input, start as int, scan_paren(input.items(), start as int), r),
            r matches Ok((e, n)) ==> derives(input, start as int, n as int, Expr::Paren(e)),
        decreases input.items().len() - start, 0int,
    {
        let ghost items = input.items();
        if input.peek(start) != Symbol::OpenParen {
            return Err(input.error(start));
        }
        let (expr, next) = match Expr::parse(input, start + 1) {
            Ok(found) => found,
            Err(e) => {
                return Err(e);
            },
        };
        if input.peek(next) != Symbol::CloseParen {
            return Err(input.error(next));
        }
        proof {
            assert(items.subrange(start as int, next + 1) =~= seq![plain(Symbol::OpenParen)]
                + items.subrange(start + 1, next as int) + seq![plain(Symbol::CloseParen)]);
        }
        Ok((ExprParen { expr: Box::new(expr) }, next + 1))
    }
}

impl ExprAssign {
    pub fn to_tokens(&self, tokens: &mut String)
        ensures
            final(tokens)@ == old(tokens)@ + Expr::Assign(*self).text(),
        decreases self, 0int,
    {
        self.target.to_tokens(tokens);
        tokens.append(" ");
        BinOp::Assign.to_tokens(tokens);
        tokens.append(" ");
        self.from.to_tokens(tokens);
    }
}

impl ExprBinary {
    pub fn to_tokens(&self, tokens: &mut String)
        ensures
            final(tokens)@ == old(tokens)@ + Expr::Binary(*self).text(),
        decreases self, 0int,
    {
        self.lhs.to_tokens(tokens);
        tokens.append(" ");
        self.op.to_tokens(tokens);
        tokens.append(" ");
        self.rhs.to_tokens(tokens);
    }
}

impl ExprVar {
    pub fn to_tokens(&self, tokens: &mut String)
        ensures
            final(tokens)@ == old(tokens)@ + Expr::Var(*self).text(),
    {
        tokens.append(self.ident.as_str());
    }
}

impl ExprLit {
    pub fn to_tokens(&self, tokens: &mut String)
        ensures
            final(tokens)@ == old(tokens)@ + Expr::Lit(*self).text(),
    {
        match &self.lit {
            Lit::Char(lit) => tokens.append(lit.as_str()),
            Lit::Integer(lit) => tokens.append(lit.as_str()),
        }
    }
}

impl ExprIndex {
    pub fn to_tokens(&self, tokens: &mut String)
        ensures
            final(tokens)@ == old(tokens)@ + Expr::Index(*self).text(),
        decreases self, 0int,
    {
        tokens.append(self.ident.as_str());
        tokens.append("[");
        self.index.to_tokens(tokens);
        tokens.append("]");
    }
}

impl ExprCall {
    pub fn to_tokens(&self, tokens: &mut String)
        ensures
            final(tokens)@ == old(tokens)@ + Expr::Call(*self).text(),
        decreases self, 0int,
    {
        let ghost before = tokens@;
        tokens.append(self.ident.as_str());
        tokens.append("(");
        let mut i: usize = 0;
        while i < self.args.len()
            invariant
                i <= self.args.len(),
                tokens@ == before + self.ident@ + "("@ + list_text(self.args@, i as nat),
            decreases self.args.len() - i,
        {
            if i != 0 {
                tokens.append(", ");
            }
            self.args[i].to_tokens(tokens);
            i += 1;
        }
        tokens.append(")");
    }
}

impl ExprParen {
    pub fn to_tokens(&self, tokens: &mut String)
        ensures
            final(tokens)@ == old(tokens)@ + Expr::Paren(*self).text(),
        decreases self, 0int,
    {
        tokens.append("(");
        self.expr.to_tokens(tokens);
        tokens.append(")");
    }
}

} // verus!
