//! Every tree of the grammar is found: where the terminals of a
//! well-formed tree stand in an input and a symbol that cannot continue
//! the tree follows them, the production matches exactly these terminals.
use crate::ast::{
    is_type, maybe_end, names_syntax, params_syntax, params_wf, proc_block_syntax, proc_block_wf,
    procs_syntax, procs_wf, scan_body, scan_names, scan_param_block, scan_params, scan_proc_block,
    scan_procedure, scan_procedures, scan_program, scan_var_block, scan_vardef, scan_vardefs,
    var_block_syntax, var_block_wf, vardefs_syntax, vardefs_wf, ParamDecl, ProcedureDef, Program,
    VarDef,
};
use crate::expr::{
    is_operator, list_syntax, list_wf, scan_args, scan_call, scan_expr, scan_index, scan_paren,
    scan_primary, scan_tail, Expr, ExprCall,
};
use crate::stm::{
    block_syntax, block_wf, body_wf, scan_if, scan_io, scan_stm, scan_stm_list, scan_while, IfStm,
    Stmatment, WhileStm,
};
use crate::symbol::{name_item, plain, symbol_at, whole, Item, Symbol};
use vstd::prelude::*;

verus! {

/// The terminals `s` stand in `items` from index `i` on.
pub open spec fn stands_at(items: Seq<Item>, i: int, s: Seq<Item>) -> bool {
    0 <= i && i + s.len() <= items.len() && items.subrange(i, i + s.len()) == s
}

/// The symbols that can follow an expression: anything but an operator,
/// which would continue it, and `(` and `[`, which would turn a variable
/// at its end into a call or an index.
pub open spec fn ends_expr(symbol: Symbol) -> bool {
    !is_operator(symbol) && symbol != Symbol::OpenParen && symbol != Symbol::OpenBracket
}

/// The symbols that can follow a primary.
pub open spec fn ends_primary(symbol: Symbol) -> bool {
    symbol != Symbol::OpenParen && symbol != Symbol::OpenBracket
}

/// The symbols that a primary starts with.
pub open spec fn starts_primary(symbol: Symbol) -> bool {
    symbol == Symbol::Ident || symbol == Symbol::Integer || symbol == Symbol::Char || symbol
        == Symbol::OpenParen
}

/// The first `n` of `parts`, with `sep` between neighbours.
pub open spec fn sep_join(parts: Seq<Seq<Item>>, sep: Item, n: nat) -> Seq<Item>
    decreases n,
{
    if n == 0 || n > parts.len() {
        Seq::empty()
    } else if n == 1 {
        parts[0]
    } else {
        sep_join(parts, sep, (n - 1) as nat) + seq![sep] + parts[n - 1]
    }
}

/// Where part `k` begins in a separated list.
pub open spec fn sep_offset(parts: Seq<Seq<Item>>, sep: Item, k: nat) -> nat {
    if k == 0 {
        0
    } else {
        sep_join(parts, sep, k).len() + 1
    }
}

/// The first `n` of `parts`, one behind the other.
pub open spec fn concat(parts: Seq<Seq<Item>>, n: nat) -> Seq<Item>
    decreases n,
{
    if n == 0 || n > parts.len() {
        Seq::empty()
    } else {
        concat(parts, (n - 1) as nat) + parts[n - 1]
    }
}

/// In a separated list of `n` parts, part `k` lies at its offset, and a
/// separator follows it if it is not the last.
pub proof fn lemma_sep_layout(parts: Seq<Seq<Item>>, sep: Item, n: nat, k: nat)
    requires
        k < n <= parts.len(),
    ensures
        sep_offset(parts, sep, k) + parts[k as int].len() == sep_join(
            parts,
            sep,
            k + 1,
        ).len(),
        sep_join(parts, sep, k + 1).len() <= sep_join(parts, sep, n).len(),
        sep_join(parts, sep, n).subrange(
            sep_offset(parts, sep, k) as int,
            sep_join(parts, sep, k + 1).len() as int,
        ) == parts[k as int],
        k + 1 < n ==> sep_join(parts, sep, k + 1).len() < sep_join(parts, sep, n).len()
            && sep_join(parts, sep, n)[sep_join(parts, sep, k + 1).len() as int] == sep,
    decreases n,
{
    let s = sep_join(parts, sep, n);
    let off = sep_offset(parts, sep, k) as int;
    if k + 1 == n {
        assert(s.subrange(off, s.len() as int) =~= parts[k as int]);
    } else {
        lemma_sep_layout(parts, sep, (n - 1) as nat, k);
        let shorter = sep_join(parts, sep, (n - 1) as nat);
        assert(s == shorter + seq![sep] + parts[n - 1]);
        let end = sep_join(parts, sep, k + 1).len() as int;
        assert(s.subrange(off, end) =~= shorter.subrange(off, end));
    }
}

/// In a list of `n` parts one behind the other, part `k` lies behind the
/// first `k`.
pub proof fn lemma_concat_layout(parts: Seq<Seq<Item>>, n: nat, k: nat)
    requires
        k < n <= parts.len(),
    ensures
        concat(parts, k).len() + parts[k as int].len() == concat(parts, k + 1).len(),
        concat(parts, k + 1).len() <= concat(parts, n).len(),
        concat(parts, n).subrange(concat(parts, k).len() as int, concat(parts, k + 1).len() as int)
            == parts[k as int],
    decreases n,
{
    let s = concat(parts, n);
    let off = concat(parts, k).len() as int;
    if k + 1 == n {
        assert(s.subrange(off, s.len() as int) =~= parts[k as int]);
    } else {
        lemma_concat_layout(parts, (n - 1) as nat, k);
        let shorter = concat(parts, (n - 1) as nat);
        assert(s == shorter + parts[n - 1]);
        let end = concat(parts, k + 1).len() as int;
        assert(s.subrange(off, end) =~= shorter.subrange(off, end));
    }
}

/// A part of terminals that stand in an input stands there too.
pub proof fn lemma_stands_part(items: Seq<Item>, i: int, s: Seq<Item>, from: int, to: int)
    requires
        stands_at(items, i, s),
        0 <= from <= to <= s.len(),
    ensures
        stands_at(items, i + from, s.subrange(from, to)),
{
    assert(items.subrange(i + from, i + to) =~= items.subrange(i, i + s.len()).subrange(from, to));
}

/// Terminals that stand in an input are found there one by one.
pub proof fn lemma_stands_index(items: Seq<Item>, i: int, s: Seq<Item>, k: int)
    requires
        stands_at(items, i, s),
        0 <= k < s.len(),
    ensures
        items[i + k] == s[k],
        symbol_at(items, i + k) == s[k].symbol,
{
    assert(items.subrange(i, i + s.len())[k] == items[i + k]);
}

/// The syntaxes of a list of expressions.
pub open spec fn expr_parts(exprs: Seq<Expr>) -> Seq<Seq<Item>> {
    Seq::new(exprs.len(), |k: int| exprs[k].syntax())
}

/// The terminals of a list of expressions are its syntaxes with commas
/// between them.
pub proof fn lemma_list_is_join(exprs: Seq<Expr>, n: nat)
    requires
        n <= exprs.len(),
    ensures
        list_syntax(exprs, n) == sep_join(expr_parts(exprs), plain(Symbol::Comma), n),
    decreases n,
{
    if n > 1 {
        lemma_list_is_join(exprs, (n - 1) as nat);
    }
}

/// Every expression of a well-formed list is well formed.
pub proof fn lemma_list_wf(exprs: Seq<Expr>, n: nat, k: int)
    requires
        list_wf(exprs, n),
        0 <= k < n <= exprs.len(),
    ensures
        exprs[k].wf(),
    decreases n,
{
    if k + 1 < n {
        lemma_list_wf(exprs, (n - 1) as nat, k);
    }
}

/// An expression is written with at least one terminal, and the first is
/// one that a primary starts with.
pub proof fn lemma_expr_starts(e: Expr)
    requires
        e.wf(),
    ensures
        e.syntax().len() >= 1,
        starts_primary(e.syntax()[0].symbol),
    decreases e,
{
    match e {
        Expr::Assign(a) => {
            lemma_expr_starts(*a.target);
        },
        Expr::Binary(b) => {
            lemma_expr_starts(*b.lhs);
        },
        _ => {},
    }
}

/// The symbols that an expression ends with.
pub open spec fn closes_expr(symbol: Symbol) -> bool {
    symbol == Symbol::Ident || symbol == Symbol::Integer || symbol == Symbol::Char || symbol
        == Symbol::CloseBracket || symbol == Symbol::CloseParen
}

/// The last terminal of an expression is a name, a literal or a closing
/// bracket; in particular it is no comma.
pub proof fn lemma_expr_ends(e: Expr)
    requires
        e.wf(),
    ensures
        e.syntax().len() >= 1,
        closes_expr(e.syntax().last().symbol),
    decreases e,
{
    match e {
        Expr::Assign(a) => {
            lemma_expr_ends(*a.from);
        },
        Expr::Binary(b) => {
            lemma_expr_ends(*b.rhs);
        },
        _ => {},
    }
}

/// A call has as many arguments as its argument list has expressions with
/// commas between them: argument `k` is written at its place between the
/// parentheses, a comma follows it if it is not the last, and the closing
/// parenthesis follows the last one directly. No call ends in `,)`.
#[verifier::rlimit(40)]
pub proof fn lemma_call_arguments(c: ExprCall, k: nat)
    requires
        Expr::Call(c).wf(),
        k < c.args@.len(),
    ensures
        ({
            let s = Expr::Call(c).syntax();
            let at = 2 + sep_offset(expr_parts(c.args@), plain(Symbol::Comma), k) as int;
            let arg = c.args@[k as int].syntax();
            let end = at + arg.len() as int;
            &&& at < end < s.len()
            &&& s.subrange(at, end) == arg
            &&& s[end] == if k + 1 < c.args@.len() {
                plain(Symbol::Comma)
            } else {
                plain(Symbol::CloseParen)
            }
            &&& k + 1 == c.args@.len() ==> end + 1 == s.len()
            &&& s[end - 1].symbol != Symbol::Comma
        }),
{
    let n = c.args@.len();
    let s = Expr::Call(c).syntax();
    let inner = list_syntax(c.args@, n);
    let parts = expr_parts(c.args@);
    let sep = plain(Symbol::Comma);
    let off = sep_offset(parts, sep, k) as int;
    let arg = c.args@[k as int].syntax();
    let m = arg.len() as int;
    lemma_list_is_join(c.args@, n);
    lemma_sep_layout(parts, sep, n, k);
    lemma_list_wf(c.args@, n, k as int);
    lemma_expr_ends(c.args@[k as int]);
    assert(s.len() == inner.len() + 3);
    assert(s.subrange(0, s.len() as int) =~= s);
    assert(s.subrange(2, 2 + inner.len() as int) =~= inner);
    lemma_stands_part(s, 0, s, 2, 2 + inner.len() as int);
    lemma_stands_part(s, 2, inner, off, off + m);
    lemma_stands_index(s, 2 + off, arg, m - 1);
    if k + 1 < n {
        lemma_stands_index(s, 2, inner, off + m);
    }
}

/// A well-formed primary is matched where it stands, if no `(` or `[`
/// follows it.
pub proof fn lemma_primary_found(items: Seq<Item>, i: int, e: Expr)
    requires
        e.wf(),
        e.is_primary(),
        stands_at(items, i, e.syntax()),
        ends_primary(symbol_at(items, i + e.syntax().len())),
    ensures
        scan_primary(items, i) == Ok::<int, int>(i + e.syntax().len()),
    decreases e, 0int,
{
    let s = e.syntax();
    lemma_expr_starts(e);
    lemma_stands_index(items, i, s, 0);
    match e {
        Expr::Var(v) => {},
        Expr::Lit(l) => {},
        Expr::Index(x) => {
            let inner = (*x.index).syntax();
            let m = inner.len() as int;
            lemma_stands_index(items, i, s, 1);
            lemma_stands_index(items, i, s, s.len() - 1);
            lemma_stands_part(items, i, s, 2, 2 + m);
            assert(s.subrange(2, 2 + m) =~= inner);
            lemma_expr_found(items, i + 2, *x.index);
        },
        Expr::Call(c) => {
            let n = c.args@.len();
            let inner = list_syntax(c.args@, n);
            let m = inner.len() as int;
            lemma_stands_index(items, i, s, 1);
            lemma_stands_index(items, i, s, s.len() - 1);
            if n == 0 {
            } else {
                lemma_stands_part(items, i, s, 2, 2 + m);
                assert(s.subrange(2, 2 + m) =~= inner);
                lemma_list_is_join(c.args@, n);
                lemma_sep_layout(expr_parts(c.args@), plain(Symbol::Comma), n, 0);
                lemma_list_wf(c.args@, n, 0);
                lemma_expr_starts(c.args@[0]);
                assert(inner.subrange(0, c.args@[0].syntax().len() as int)[0] == inner[0]);
                lemma_stands_index(items, i, s, 2);
                lemma_args_found(items, i + 2, c.args@, 0);
            }
        },
        Expr::Paren(p) => {
            let inner = (*p.expr).syntax();
            let m = inner.len() as int;
            lemma_stands_index(items, i, s, s.len() - 1);
            lemma_stands_part(items, i, s, 1, 1 + m);
            assert(s.subrange(1, 1 + m) =~= inner);
            lemma_expr_found(items, i + 1, *p.expr);
        },
        _ => {},
    }
}

/// The arguments of a call from argument `k` on are matched where they
/// stand, if neither a comma nor anything that continues an expression
/// follows the last.
pub proof fn lemma_args_found(items: Seq<Item>, start: int, args: Seq<Expr>, k: nat)
    requires
        k < args.len(),
        list_wf(args, args.len()),
        stands_at(items, start, list_syntax(args, args.len())),
        ends_expr(symbol_at(items, start + list_syntax(args, args.len()).len())),
        symbol_at(items, start + list_syntax(args, args.len()).len()) != Symbol::Comma,
    ensures
        scan_args(items, start + sep_offset(expr_parts(args), plain(Symbol::Comma), k))
            == Ok::<int, int>(start + list_syntax(args, args.len()).len()),
    decreases args, args.len() - k,
{
    let n = args.len();
    let parts = expr_parts(args);
    let sep = plain(Symbol::Comma);
    let s = list_syntax(args, n);
    let off = sep_offset(parts, sep, k) as int;
    let end = sep_join(parts, sep, k + 1).len() as int;
    lemma_list_is_join(args, n);
    lemma_sep_layout(parts, sep, n, k);
    lemma_list_wf(args, n, k as int);
    lemma_expr_starts(args[k as int]);
    lemma_stands_part(items, start, s, off, end);
    if k + 1 < n {
        lemma_stands_index(items, start, s, end);
        lemma_expr_found(items, start + off, args[k as int]);
        lemma_args_found(items, start, args, k + 1);
    } else {
        lemma_expr_found(items, start + off, args[k as int]);
    }
}

/// A well-formed expression is matched where it stands, if nothing that
/// continues an expression follows it.
pub proof fn lemma_expr_found(items: Seq<Item>, i: int, e: Expr)
    requires
        e.wf(),
        stands_at(items, i, e.syntax()),
        ends_expr(symbol_at(items, i + e.syntax().len())),
    ensures
        scan_expr(items, i) == Ok::<int, int>(i + e.syntax().len()),
    decreases e, 1int,
{
    let s = e.syntax();
    lemma_expr_starts(e);
    match e {
        Expr::Assign(a) => {
            let left = (*a.target).syntax();
            let m = left.len() as int;
            let right = (*a.from).syntax();
            lemma_expr_starts(*a.target);
            lemma_expr_starts(*a.from);
            lemma_stands_part(items, i, s, 0, m);
            assert(s.subrange(0, m) =~= left);
            lemma_stands_index(items, i, s, m);
            lemma_primary_found(items, i, *a.target);
            lemma_stands_part(items, i, s, m + 1, s.len() as int);
            assert(s.subrange(m + 1, s.len() as int) =~= right);
            lemma_expr_found(items, i + m + 1, *a.from);
        },
        Expr::Binary(b) => {
            let left = (*b.lhs).syntax();
            let m = left.len() as int;
            let right = (*b.rhs).syntax();
            lemma_expr_starts(*b.lhs);
            lemma_expr_starts(*b.rhs);
            lemma_stands_part(items, i, s, 0, m);
            assert(s.subrange(0, m) =~= left);
            lemma_stands_index(items, i, s, m);
            lemma_primary_found(items, i, *b.lhs);
            lemma_stands_part(items, i, s, m + 1, s.len() as int);
            assert(s.subrange(m + 1, s.len() as int) =~= right);
            lemma_expr_found(items, i + m + 1, *b.rhs);
        },
        _ => {
            lemma_primary_found(items, i, e);
        },
    }
}

/// A well-formed expression that is the whole input is matched as the
/// whole input.
pub proof fn lemma_expr_complete(e: Expr)
    requires
        e.wf(),
    ensures
        whole(scan_expr(e.syntax(), 0), e.syntax()) == Ok::<int, int>(e.syntax().len() as int),
{
    let s = e.syntax();
    assert(s.subrange(0, s.len() as int) =~= s);
    lemma_expr_found(s, 0, e);
}

/// The symbols that can follow a statement list: anything that can follow
/// an expression, but a semicolon, which would continue the list.
pub open spec fn ends_block(symbol: Symbol) -> bool {
    ends_expr(symbol) && symbol != Symbol::Semicolon
}

/// The symbols that a statement starts with.
pub open spec fn starts_stm(symbol: Symbol) -> bool {
    starts_primary(symbol) || symbol == Symbol::Read || symbol == Symbol::Write || symbol
        == Symbol::If || symbol == Symbol::While
}

/// The syntaxes of a list of statements.
pub open spec fn stm_parts(stms: Seq<Stmatment>) -> Seq<Seq<Item>> {
    Seq::new(stms.len(), |k: int| stms[k].syntax())
}

/// The terminals of a statement list are the syntaxes of its statements
/// with semicolons between them.
pub proof fn lemma_block_is_join(stms: Seq<Stmatment>, n: nat)
    requires
        n <= stms.len(),
    ensures
        block_syntax(stms, n) == sep_join(stm_parts(stms), plain(Symbol::Semicolon), n),
    decreases n,
{
    if n > 1 {
        lemma_block_is_join(stms, (n - 1) as nat);
    }
}

/// Every statement of a well-formed list is well formed.
pub proof fn lemma_block_wf(stms: Seq<Stmatment>, n: nat, k: int)
    requires
        block_wf(stms, n),
        0 <= k < n <= stms.len(),
    ensures
        stms[k].wf(),
    decreases n,
{
    if k + 1 < n {
        lemma_block_wf(stms, (n - 1) as nat, k);
    }
}

/// A statement is written with at least one terminal, and the first is
/// one that a statement starts with.
pub proof fn lemma_stm_starts(s: Stmatment)
    requires
        s.wf(),
    ensures
        s.syntax().len() >= 1,
        starts_stm(s.syntax()[0].symbol),
{
    match s {
        Stmatment::Expr(e) => {
            lemma_expr_starts(e);
        },
        _ => {},
    }
}

/// A non-empty statement list is written with at least one terminal, and
/// the first is one that a statement starts with.
pub proof fn lemma_block_starts(stms: Seq<Stmatment>)
    requires
        stms.len() >= 1,
        block_wf(stms, stms.len()),
    ensures
        block_syntax(stms, stms.len()).len() >= 1,
        starts_stm(block_syntax(stms, stms.len())[0].symbol),
{
    let n = stms.len();
    lemma_block_is_join(stms, n);
    lemma_sep_layout(stm_parts(stms), plain(Symbol::Semicolon), n, 0);
    lemma_block_wf(stms, n, 0);
    lemma_stm_starts(stms[0]);
    let s = block_syntax(stms, n);
    assert(s.subrange(0, stms[0].syntax().len() as int)[0] == s[0]);
}

/// `word(expr)` is matched where it stands.
pub proof fn lemma_io_found(items: Seq<Item>, i: int, word: Symbol, param: Expr)
    requires
        param.wf(),
        stands_at(
            items,
            i,
            seq![plain(word), plain(Symbol::OpenParen)] + param.syntax() + seq![
                plain(Symbol::CloseParen),
            ],
        ),
    ensures
        scan_io(items, i, word) == Ok::<int, int>(i + param.syntax().len() + 3),
{
    let inner = param.syntax();
    let m = inner.len() as int;
    let s = seq![plain(word), plain(Symbol::OpenParen)] + inner + seq![plain(Symbol::CloseParen)];
    lemma_stands_index(items, i, s, 0);
    lemma_stands_index(items, i, s, 1);
    lemma_stands_index(items, i, s, 2 + m);
    lemma_stands_part(items, i, s, 2, 2 + m);
    assert(s.subrange(2, 2 + m) =~= inner);
    lemma_expr_found(items, i + 2, param);
}

/// Where the parts of a `while` statement lie that stands in an input.
pub proof fn lemma_while_layout(items: Seq<Item>, i: int, w: WhileStm)
    requires
        Stmatment::While(w).wf(),
        stands_at(items, i, Stmatment::While(w).syntax()),
    ensures
        ({
            let cond = w.condition.syntax();
            let body = block_syntax(w.body@, w.body@.len());
            let c = 1 + cond.len() as int;
            let b = c + 1 + body.len() as int;
            &&& cond.len() >= 1
            &&& body.len() >= 1
            &&& Stmatment::While(w).syntax().len() == b + 1
            &&& symbol_at(items, i) == Symbol::While
            &&& stands_at(items, i + 1, cond)
            &&& symbol_at(items, i + c) == Symbol::Do
            &&& stands_at(items, i + c + 1, body)
            &&& symbol_at(items, i + b) == Symbol::Endwh
        }),
{
    let syn = Stmatment::While(w).syntax();
    let cond = w.condition.syntax();
    let body = block_syntax(w.body@, w.body@.len());
    let c = 1 + cond.len() as int;
    let b = c + 1 + body.len() as int;
    lemma_expr_starts(w.condition);
    lemma_block_starts(w.body@);
    lemma_stands_index(items, i, syn, 0);
    lemma_stands_index(items, i, syn, c);
    lemma_stands_index(items, i, syn, b);
    lemma_stands_part(items, i, syn, 1, c);
    assert(syn.subrange(1, c) =~= cond);
    lemma_stands_part(items, i, syn, c + 1, b);
    assert(syn.subrange(c + 1, b) =~= body);
}

/// Where the parts of an `if` statement lie that stands in an input.
#[verifier::rlimit(40)]
pub proof fn lemma_if_layout(items: Seq<Item>, i: int, f: IfStm)
    requires
        Stmatment::If(f).wf(),
        stands_at(items, i, Stmatment::If(f).syntax()),
    ensures
        ({
            let cond = f.condition.syntax();
            let body = block_syntax(f.body@, f.body@.len());
            let c = 1 + cond.len() as int;
            let b = c + 1 + body.len() as int;
            &&& cond.len() >= 1
            &&& body.len() >= 1
            &&& symbol_at(items, i) == Symbol::If
            &&& stands_at(items, i + 1, cond)
            &&& symbol_at(items, i + c) == Symbol::Then
            &&& stands_at(items, i + c + 1, body)
            &&& match f.else_body {
                Some(other) => {
                    let rest = block_syntax(other@, other@.len());
                    let e = b + 1 + rest.len() as int;
                    &&& rest.len() >= 1
                    &&& Stmatment::If(f).syntax().len() == e + 1
                    &&& symbol_at(items, i + b) == Symbol::Else
                    &&& stands_at(items, i + b + 1, rest)
                    &&& symbol_at(items, i + e) == Symbol::Fi
                },
                None => Stmatment::If(f).syntax().len() == b + 1 && symbol_at(items, i + b)
                    == Symbol::Fi,
            }
        }),
{
    let syn = Stmatment::If(f).syntax();
    let cond = f.condition.syntax();
    let body = block_syntax(f.body@, f.body@.len());
    let c = 1 + cond.len() as int;
    let b = c + 1 + body.len() as int;
    lemma_expr_starts(f.condition);
    lemma_block_starts(f.body@);
    lemma_stands_index(items, i, syn, 0);
    lemma_stands_index(items, i, syn, c);
    lemma_stands_index(items, i, syn, b);
    lemma_stands_part(items, i, syn, 1, c);
    assert(syn.subrange(1, c) =~= cond);
    lemma_stands_part(items, i, syn, c + 1, b);
    assert(syn.subrange(c + 1, b) =~= body);
    match f.else_body {
        Some(other) => {
            let rest = block_syntax(other@, other@.len());
            let e = b + 1 + rest.len() as int;
            lemma_block_starts(other@);
            lemma_stands_index(items, i, syn, e);
            lemma_stands_part(items, i, syn, b + 1, e);
            assert(syn.subrange(b + 1, e) =~= rest);
        },
        None => {},
    }
}

/// A well-formed `while` statement is matched where it stands.
pub proof fn lemma_while_found(items: Seq<Item>, i: int, w: WhileStm)
    requires
        Stmatment::While(w).wf(),
        stands_at(items, i, Stmatment::While(w).syntax()),
    ensures
        scan_while(items, i) == Ok::<int, int>(i + Stmatment::While(w).syntax().len()),
    decreases w, 0int,
{
    let c = 1 + w.condition.syntax().len() as int;
    lemma_while_layout(items, i, w);
    lemma_expr_found(items, i + 1, w.condition);
    lemma_block_found(items, i + c + 1, w.body@, 0);
}

/// A well-formed `if` statement is matched where it stands.
pub proof fn lemma_if_found(items: Seq<Item>, i: int, f: IfStm)
    requires
        Stmatment::If(f).wf(),
        stands_at(items, i, Stmatment::If(f).syntax()),
    ensures
        scan_if(items, i) == Ok::<int, int>(i + Stmatment::If(f).syntax().len()),
    decreases f, 0int,
{
    let c = 1 + f.condition.syntax().len() as int;
    let b = c + 1 + block_syntax(f.body@, f.body@.len()).len() as int;
    lemma_if_layout(items, i, f);
    lemma_expr_found(items, i + 1, f.condition);
    lemma_block_found(items, i + c + 1, f.body@, 0);
    match f.else_body {
        Some(other) => {
            lemma_block_found(items, i + b + 1, other@, 0);
        },
        None => {},
    }
}

/// A well-formed statement is matched where it stands, if nothing that
/// continues an expression follows it.
pub proof fn lemma_stm_found(items: Seq<Item>, i: int, s: Stmatment)
    requires
        s.wf(),
        stands_at(items, i, s.syntax()),
        ends_expr(symbol_at(items, i + s.syntax().len())),
    ensures
        scan_stm(items, i) == Ok::<int, int>(i + s.syntax().len()),
    decreases s, 1int,
{
    let syn = s.syntax();
    lemma_stm_starts(s);
    lemma_stands_index(items, i, syn, 0);
    match s {
        Stmatment::Expr(e) => {
            lemma_expr_found(items, i, e);
        },
        Stmatment::Read(r) => {
            lemma_io_found(items, i, Symbol::Read, r.param);
        },
        Stmatment::Write(w) => {
            lemma_io_found(items, i, Symbol::Write, w.param);
        },
        Stmatment::While(w) => {
            lemma_while_found(items, i, w);
        },
        Stmatment::If(f) => {
            lemma_if_found(items, i, f);
        },
    }
}

/// A statement list from statement `k` on is matched where it stands, if
/// neither a semicolon nor anything that continues an expression follows
/// the last statement.
pub proof fn lemma_block_found(items: Seq<Item>, start: int, stms: Seq<Stmatment>, k: nat)
    requires
        k < stms.len(),
        block_wf(stms, stms.len()),
        stands_at(items, start, block_syntax(stms, stms.len())),
        ends_block(symbol_at(items, start + block_syntax(stms, stms.len()).len())),
    ensures
        scan_stm_list(items, start + sep_offset(stm_parts(stms), plain(Symbol::Semicolon), k))
            == Ok::<int, int>(start + block_syntax(stms, stms.len()).len()),
    decreases stms, stms.len() - k,
{
    let n = stms.len();
    let parts = stm_parts(stms);
    let sep = plain(Symbol::Semicolon);
    let s = block_syntax(stms, n);
    let off = sep_offset(parts, sep, k) as int;
    let end = sep_join(parts, sep, k + 1).len() as int;
    lemma_block_is_join(stms, n);
    lemma_sep_layout(parts, sep, n, k);
    lemma_block_wf(stms, n, k as int);
    lemma_stm_starts(stms[k as int]);
    lemma_stands_part(items, start, s, off, end);
    if k + 1 < n {
        lemma_stands_index(items, start, s, end);
        lemma_stm_found(items, start + off, stms[k as int]);
        lemma_block_found(items, start, stms, k + 1);
    } else {
        lemma_stm_found(items, start + off, stms[k as int]);
    }
}

/// A well-formed statement that is the whole input is matched as the
/// whole input.
pub proof fn lemma_stm_complete(s: Stmatment)
    requires
        s.wf(),
    ensures
        whole(scan_stm(s.syntax(), 0), s.syntax()) == Ok::<int, int>(s.syntax().len() as int),
{
    let syn = s.syntax();
    assert(syn.subrange(0, syn.len() as int) =~= syn);
    lemma_stm_found(syn, 0, s);
}

/// Where the names of a declaration and the commas between them lie.
pub proof fn lemma_names_layout(names: Seq<String>, n: nat, k: nat)
    requires
        k < n <= names.len(),
    ensures
        names_syntax(names, n).len() == 2 * n - 1,
        names_syntax(names, n)[2 * k as int] == name_item(names[k as int]@),
        k + 1 < n ==> names_syntax(names, n)[2 * k as int + 1] == plain(Symbol::Comma),
    decreases n,
{
    if n > 1 {
        if k + 1 < n {
            lemma_names_layout(names, (n - 1) as nat, k);
        } else {
            lemma_names_layout(names, (n - 1) as nat, (k - 1) as nat);
        }
    }
}

/// The names of a declaration from name `k` on are matched where they
/// stand, if no comma follows the last.
pub proof fn lemma_names_found(items: Seq<Item>, start: int, names: Seq<String>, k: nat)
    requires
        k < names.len(),
        stands_at(items, start, names_syntax(names, names.len())),
        symbol_at(items, start + names_syntax(names, names.len()).len()) != Symbol::Comma,
    ensures
        scan_names(items, start + 2 * k) == Ok::<int, int>(
            start + names_syntax(names, names.len()).len(),
        ),
    decreases names.len() - k,
{
    let n = names.len();
    let s = names_syntax(names, n);
    lemma_names_layout(names, n, k);
    lemma_stands_index(items, start, s, 2 * k as int);
    if k + 1 < n {
        lemma_stands_index(items, start, s, 2 * k as int + 1);
        lemma_names_found(items, start, names, k + 1);
    }
}

/// A well-formed declaration is matched where it stands, if no comma
/// follows it.
pub proof fn lemma_vardef_found(items: Seq<Item>, i: int, d: VarDef)
    requires
        d.wf(),
        stands_at(items, i, d.syntax()),
        symbol_at(items, i + d.syntax().len()) != Symbol::Comma,
    ensures
        d.syntax().len() >= 2,
        is_type(symbol_at(items, i)),
        scan_vardef(items, i) == Ok::<int, int>(i + d.syntax().len()),
{
    let s = d.syntax();
    let names = names_syntax(d.names(), d.names().len());
    lemma_names_layout(d.names(), d.names().len(), 0);
    lemma_stands_index(items, i, s, 0);
    lemma_stands_part(items, i, s, 1, s.len() as int);
    assert(s.subrange(1, s.len() as int) =~= names);
    lemma_names_found(items, i + 1, d.names(), 0);
}

/// The declarations of a list, each with its semicolon.
pub open spec fn vardef_parts(defs: Seq<VarDef>) -> Seq<Seq<Item>> {
    Seq::new(defs.len(), |k: int| defs[k].syntax() + seq![plain(Symbol::Semicolon)])
}

pub proof fn lemma_vardefs_is_concat(defs: Seq<VarDef>, n: nat)
    requires
        n <= defs.len(),
    ensures
        vardefs_syntax(defs, n) == concat(vardef_parts(defs), n),
    decreases n,
{
    if n > 0 {
        lemma_vardefs_is_concat(defs, (n - 1) as nat);
        assert(vardefs_syntax(defs, n) =~= concat(vardef_parts(defs), n));
    }
}

pub proof fn lemma_vardefs_wf(defs: Seq<VarDef>, n: nat, k: int)
    requires
        vardefs_wf(defs, n),
        0 <= k < n <= defs.len(),
    ensures
        defs[k].wf(),
    decreases n,
{
    if k + 1 < n {
        lemma_vardefs_wf(defs, (n - 1) as nat, k);
    }
}

/// The symbols that can follow the declarations of a block.
pub open spec fn ends_vars(symbol: Symbol) -> bool {
    maybe_end(symbol) || symbol == Symbol::Eof
}

/// Where declaration `k` of a list that stands in an input lies.
pub proof fn lemma_vardef_layout(items: Seq<Item>, start: int, defs: Seq<VarDef>, k: nat)
    requires
        k < defs.len(),
        vardefs_wf(defs, defs.len()),
        stands_at(items, start, vardefs_syntax(defs, defs.len())),
    ensures
        ({
            let at = start + concat(vardef_parts(defs), k).len();
            let def = defs[k as int];
            &&& def.wf()
            &&& stands_at(items, at, def.syntax())
            &&& symbol_at(items, at + def.syntax().len()) == Symbol::Semicolon
            &&& at + def.syntax().len() + 1 == start + concat(vardef_parts(defs), k + 1).len()
            &&& at + def.syntax().len() + 1 <= start + vardefs_syntax(defs, defs.len()).len()
            &&& k + 1 == defs.len() ==> at + def.syntax().len() + 1 == start + vardefs_syntax(
                defs,
                defs.len(),
            ).len()
        }),
{
    let n = defs.len();
    let parts = vardef_parts(defs);
    let s = vardefs_syntax(defs, n);
    let off = concat(parts, k).len() as int;
    let end = concat(parts, k + 1).len() as int;
    let def = defs[k as int];
    let m = def.syntax().len() as int;
    lemma_vardefs_is_concat(defs, n);
    lemma_concat_layout(parts, n, k);
    lemma_vardefs_wf(defs, n, k as int);
    lemma_stands_part(items, start, s, off, end);
    lemma_stands_part(items, start + off, parts[k as int], 0, m);
    assert(parts[k as int].subrange(0, m) =~= def.syntax());
    lemma_stands_index(items, start + off, parts[k as int], m);
}

/// The declarations of a block from declaration `k` on are matched where
/// they stand, if `begin` or `procedure` follows them or the input ends.
pub proof fn lemma_vardefs_found(items: Seq<Item>, start: int, defs: Seq<VarDef>, k: nat)
    requires
        k < defs.len(),
        vardefs_wf(defs, defs.len()),
        stands_at(items, start, vardefs_syntax(defs, defs.len())),
        ends_vars(symbol_at(items, start + vardefs_syntax(defs, defs.len()).len())),
    ensures
        scan_vardefs(items, start + concat(vardef_parts(defs), k).len()) == Ok::<int, int>(
            start + vardefs_syntax(defs, defs.len()).len(),
        ),
    decreases defs.len() - k,
{
    let at = start + concat(vardef_parts(defs), k).len();
    lemma_vardef_layout(items, start, defs, k);
    lemma_vardef_found(items, at, defs[k as int]);
    if k + 1 < defs.len() {
        lemma_vardef_layout(items, start, defs, k + 1);
        lemma_vardef_found(
            items,
            start + concat(vardef_parts(defs), k + 1).len(),
            defs[k as int + 1],
        );
        lemma_vardefs_found(items, start, defs, k + 1);
    }
}

/// A block of declarations, or none, is matched where it stands, if
/// `begin` or `procedure` follows it.
pub proof fn lemma_var_block_found(items: Seq<Item>, i: int, block: Option<Vec<VarDef>>)
    requires
        var_block_wf(block),
        stands_at(items, i, var_block_syntax(block)),
        maybe_end(symbol_at(items, i + var_block_syntax(block).len())),
    ensures
        scan_var_block(items, i) == Ok::<int, int>(i + var_block_syntax(block).len()),
{
    match block {
        Some(defs) => {
            let s = var_block_syntax(block);
            let inner = vardefs_syntax(defs@, defs@.len());
            lemma_stands_index(items, i, s, 0);
            lemma_stands_part(items, i, s, 1, s.len() as int);
            assert(s.subrange(1, s.len() as int) =~= inner);
            assert(concat(vardef_parts(defs@), 0).len() == 0);
            lemma_vardefs_found(items, i + 1, defs@, 0);
        },
        None => {},
    }
}

/// The syntaxes of a list of parameters.
pub open spec fn param_parts(params: Seq<ParamDecl>) -> Seq<Seq<Item>> {
    Seq::new(params.len(), |k: int| params[k].syntax())
}

pub proof fn lemma_params_is_join(params: Seq<ParamDecl>, n: nat)
    requires
        n <= params.len(),
    ensures
        params_syntax(params, n) == sep_join(param_parts(params), plain(Symbol::Comma), n),
    decreases n,
{
    if n > 1 {
        lemma_params_is_join(params, (n - 1) as nat);
    }
}

pub proof fn lemma_params_wf(params: Seq<ParamDecl>, n: nat, k: int)
    requires
        params_wf(params, n),
        0 <= k < n <= params.len(),
    ensures
        params[k].wf(),
    decreases n,
{
    if k + 1 < n {
        lemma_params_wf(params, (n - 1) as nat, k);
    }
}

/// The parameters of a procedure from parameter `k` on are matched where
/// they stand, if no comma follows the last.
pub proof fn lemma_params_found(items: Seq<Item>, start: int, params: Seq<ParamDecl>, k: nat)
    requires
        k < params.len(),
        params_wf(params, params.len()),
        stands_at(items, start, params_syntax(params, params.len())),
        symbol_at(items, start + params_syntax(params, params.len()).len()) != Symbol::Comma,
    ensures
        is_type(symbol_at(items, start + sep_offset(param_parts(params), plain(Symbol::Comma), k))),
        scan_params(items, start + sep_offset(param_parts(params), plain(Symbol::Comma), k))
            == Ok::<int, int>(start + params_syntax(params, params.len()).len()),
    decreases params.len() - k,
{
    let n = params.len();
    let parts = param_parts(params);
    let sep = plain(Symbol::Comma);
    let s = params_syntax(params, n);
    let off = sep_offset(parts, sep, k) as int;
    let end = sep_join(parts, sep, k + 1).len() as int;
    lemma_params_is_join(params, n);
    lemma_sep_layout(parts, sep, n, k);
    lemma_params_wf(params, n, k as int);
    lemma_stands_part(items, start, s, off, end);
    lemma_stands_index(items, start + off, parts[k as int], 0);
    lemma_stands_index(items, start + off, parts[k as int], 1);
    if k + 1 < n {
        lemma_stands_index(items, start, s, end);
        lemma_params_found(items, start, params, k + 1);
    }
}

/// The parameters between their parentheses are matched where they stand.
pub proof fn lemma_param_block_found(items: Seq<Item>, i: int, params: Seq<ParamDecl>)
    requires
        params_wf(params, params.len()),
        stands_at(
            items,
            i,
            seq![plain(Symbol::OpenParen)] + params_syntax(params, params.len()) + seq![
                plain(Symbol::CloseParen),
            ],
        ),
    ensures
        scan_param_block(items, i) == Ok::<int, int>(
            i + params_syntax(params, params.len()).len() + 2,
        ),
{
    let inner = params_syntax(params, params.len());
    let m = inner.len() as int;
    let s = seq![plain(Symbol::OpenParen)] + inner + seq![plain(Symbol::CloseParen)];
    lemma_stands_index(items, i, s, 0);
    lemma_stands_index(items, i, s, 1 + m);
    if params.len() > 0 {
        lemma_stands_part(items, i, s, 1, 1 + m);
        assert(s.subrange(1, 1 + m) =~= inner);
        lemma_params_found(items, i + 1, params, 0);
    }
}

/// `begin` and a statement list are matched where they stand, if neither a
/// semicolon nor anything that continues an expression follows them.
pub proof fn lemma_body_found(items: Seq<Item>, i: int, stms: Seq<Stmatment>)
    requires
        body_wf(stms),
        stands_at(items, i, seq![plain(Symbol::Begin)] + block_syntax(stms, stms.len())),
        ends_block(symbol_at(items, i + block_syntax(stms, stms.len()).len() + 1)),
    ensures
        symbol_at(items, i) == Symbol::Begin,
        scan_body(items, i) == Ok::<int, int>(i + block_syntax(stms, stms.len()).len() + 1),
{
    let inner = block_syntax(stms, stms.len());
    let m = inner.len() as int;
    let s = seq![plain(Symbol::Begin)] + inner;
    lemma_stands_index(items, i, s, 0);
    lemma_stands_part(items, i, s, 1, 1 + m);
    assert(s.subrange(1, 1 + m) =~= inner);
    lemma_block_found(items, i + 1, stms, 0);
}

/// Where the parts of a procedure lie that stands in an input.
pub proof fn lemma_procedure_layout(items: Seq<Item>, i: int, def: ProcedureDef)
    requires
        def.wf(),
        stands_at(items, i, def.syntax()),
    ensures
        ({
            let head = seq![plain(Symbol::OpenParen)] + params_syntax(
                def.params@,
                def.params@.len(),
            ) + seq![plain(Symbol::CloseParen)];
            let vars = var_block_syntax(def.var_defs);
            let body = seq![plain(Symbol::Begin)] + block_syntax(def.body@, def.body@.len());
            &&& def.syntax().len() == 2 + head.len() + vars.len() + body.len()
            &&& symbol_at(items, i) == Symbol::Procedure
            &&& symbol_at(items, i + 1) == Symbol::Ident
            &&& stands_at(items, i + 2, head)
            &&& stands_at(items, i + 2 + head.len(), vars)
            &&& stands_at(items, i + 2 + head.len() + vars.len(), body)
            &&& symbol_at(items, i + 2 + head.len() + vars.len()) == Symbol::Begin
        }),
{
    let s = def.syntax();
    let head = seq![plain(Symbol::OpenParen)] + params_syntax(def.params@, def.params@.len())
        + seq![plain(Symbol::CloseParen)];
    let vars = var_block_syntax(def.var_defs);
    let body = seq![plain(Symbol::Begin)] + block_syntax(def.body@, def.body@.len());
    let h = 2 + head.len() as int;
    let v = h + vars.len() as int;
    lemma_stands_index(items, i, s, 0);
    lemma_stands_index(items, i, s, 1);
    lemma_stands_index(items, i, s, v);
    lemma_stands_part(items, i, s, 2, h);
    assert(s.subrange(2, h) =~= head);
    lemma_stands_part(items, i, s, h, v);
    assert(s.subrange(h, v) =~= vars);
    lemma_stands_part(items, i, s, v, s.len() as int);
    assert(s.subrange(v, s.len() as int) =~= body);
}

/// A well-formed procedure is matched where it stands, if neither a
/// semicolon nor anything that continues an expression follows it.
pub proof fn lemma_procedure_found(items: Seq<Item>, i: int, def: ProcedureDef)
    requires
        def.wf(),
        stands_at(items, i, def.syntax()),
        ends_block(symbol_at(items, i + def.syntax().len())),
    ensures
        def.syntax().len() >= 1,
        symbol_at(items, i) == Symbol::Procedure,
        scan_procedure(items, i) == Ok::<int, int>(i + def.syntax().len()),
{
    let head = params_syntax(def.params@, def.params@.len()).len() + 2;
    let vars = var_block_syntax(def.var_defs).len();
    lemma_procedure_layout(items, i, def);
    lemma_param_block_found(items, i + 2, def.params@);
    lemma_var_block_found(items, i + 2 + head, def.var_defs);
    lemma_body_found(items, i + 2 + head + vars, def.body@);
}

/// The syntaxes of a list of procedures.
pub open spec fn proc_parts(procs: Seq<ProcedureDef>) -> Seq<Seq<Item>> {
    Seq::new(procs.len(), |k: int| procs[k].syntax())
}

pub proof fn lemma_procs_is_concat(procs: Seq<ProcedureDef>, n: nat)
    requires
        n <= procs.len(),
    ensures
        procs_syntax(procs, n) == concat(proc_parts(procs), n),
    decreases n,
{
    if n > 0 {
        lemma_procs_is_concat(procs, (n - 1) as nat);
    }
}

pub proof fn lemma_procs_wf(procs: Seq<ProcedureDef>, n: nat, k: int)
    requires
        procs_wf(procs, n),
        0 <= k < n <= procs.len(),
    ensures
        procs[k].wf(),
    decreases n,
{
    if k + 1 < n {
        lemma_procs_wf(procs, (n - 1) as nat, k);
    }
}

/// Procedure `k` of a list that stands in an input stands at its place
/// and starts with `procedure`.
pub proof fn lemma_proc_layout(items: Seq<Item>, start: int, procs: Seq<ProcedureDef>, k: nat)
    requires
        k < procs.len(),
        procs_wf(procs, procs.len()),
        stands_at(items, start, procs_syntax(procs, procs.len())),
    ensures
        ({
            let at = start + concat(proc_parts(procs), k).len();
            let def = procs[k as int];
            &&& def.wf()
            &&& def.syntax().len() >= 2
            &&& stands_at(items, at, def.syntax())
            &&& symbol_at(items, at) == Symbol::Procedure
            &&& at + def.syntax().len() == start + concat(proc_parts(procs), k + 1).len()
            &&& at + def.syntax().len() <= start + procs_syntax(procs, procs.len()).len()
            &&& k + 1 == procs.len() ==> at + def.syntax().len() == start + procs_syntax(
                procs,
                procs.len(),
            ).len()
        }),
{
    let n = procs.len();
    let parts = proc_parts(procs);
    let s = procs_syntax(procs, n);
    let off = concat(parts, k).len() as int;
    let end = concat(parts, k + 1).len() as int;
    lemma_procs_is_concat(procs, n);
    lemma_concat_layout(parts, n, k);
    lemma_procs_wf(procs, n, k as int);
    lemma_stands_part(items, start, s, off, end);
    lemma_stands_index(items, start + off, parts[k as int], 0);
}

/// The procedures of a program from procedure `k` on are matched where
/// they stand, if what follows them is no `procedure` and can follow a
/// statement list.
pub proof fn lemma_procs_found(items: Seq<Item>, start: int, procs: Seq<ProcedureDef>, k: nat)
    requires
        k < procs.len(),
        procs_wf(procs, procs.len()),
        stands_at(items, start, procs_syntax(procs, procs.len())),
        ends_block(symbol_at(items, start + procs_syntax(procs, procs.len()).len())),
        symbol_at(items, start + procs_syntax(procs, procs.len()).len()) != Symbol::Procedure,
    ensures
        scan_procedures(items, start + concat(proc_parts(procs), k).len()) == Ok::<int, int>(
            start + procs_syntax(procs, procs.len()).len(),
        ),
    decreases procs.len() - k,
{
    let at = start + concat(proc_parts(procs), k).len();
    lemma_proc_layout(items, start, procs, k);
    if k + 1 < procs.len() {
        lemma_proc_layout(items, start, procs, k + 1);
        lemma_procedure_found(items, at, procs[k as int]);
        lemma_procs_found(items, start, procs, k + 1);
    } else {
        lemma_procedure_found(items, at, procs[k as int]);
    }
}

/// The procedures of a program, or none, are matched where they stand, if
/// `begin` follows them.
pub proof fn lemma_proc_block_found(items: Seq<Item>, i: int, block: Option<Vec<ProcedureDef>>)
    requires
        proc_block_wf(block),
        stands_at(items, i, proc_block_syntax(block)),
        symbol_at(items, i + proc_block_syntax(block).len()) == Symbol::Begin,
    ensures
        scan_proc_block(items, i) == Ok::<int, int>(i + proc_block_syntax(block).len()),
        block is Some ==> symbol_at(items, i) == Symbol::Procedure,
{
    match block {
        Some(procs) => {
            assert(concat(proc_parts(procs@), 0).len() == 0);
            lemma_proc_layout(items, i, procs@, 0);
            lemma_procs_found(items, i, procs@, 0);
        },
        None => {},
    }
}

/// Where the parts of a program lie that stands in an input.
pub proof fn lemma_program_layout(items: Seq<Item>, i: int, program: Program)
    requires
        program.wf(),
        stands_at(items, i, program.syntax()),
    ensures
        ({
            let vars = var_block_syntax(program.var_defs);
            let procs = proc_block_syntax(program.procedure_defs);
            let body = seq![plain(Symbol::Begin)] + block_syntax(
                program.body@,
                program.body@.len(),
            );
            let b = i + 2 + vars.len() + procs.len() + body.len();
            &&& program.syntax().len() == 2 + vars.len() + procs.len() + body.len() + 2
            &&& symbol_at(items, i) == Symbol::Program
            &&& symbol_at(items, i + 1) == Symbol::Ident
            &&& stands_at(items, i + 2, vars)
            &&& stands_at(items, i + 2 + vars.len(), procs)
            &&& stands_at(items, i + 2 + vars.len() + procs.len(), body)
            &&& symbol_at(items, i + 2 + vars.len() + procs.len()) == Symbol::Begin
            &&& symbol_at(items, b) == Symbol::End
            &&& symbol_at(items, b + 1) == Symbol::Dot
        }),
{
    let s = program.syntax();
    let vars = var_block_syntax(program.var_defs);
    let procs = proc_block_syntax(program.procedure_defs);
    let body = seq![plain(Symbol::Begin)] + block_syntax(program.body@, program.body@.len());
    let v = 2 + vars.len() as int;
    let p = v + procs.len() as int;
    let b = p + body.len() as int;
    lemma_stands_index(items, i, s, 0);
    lemma_stands_index(items, i, s, 1);
    lemma_stands_index(items, i, s, p);
    lemma_stands_index(items, i, s, b);
    lemma_stands_index(items, i, s, b + 1);
    lemma_stands_part(items, i, s, 2, v);
    assert(s.subrange(2, v) =~= vars);
    lemma_stands_part(items, i, s, v, p);
    assert(s.subrange(v, p) =~= procs);
    lemma_stands_part(items, i, s, p, b);
    assert(s.subrange(p, b) =~= body);
}

/// A well-formed program is matched where it stands.
pub proof fn lemma_program_found(items: Seq<Item>, i: int, program: Program)
    requires
        program.wf(),
        stands_at(items, i, program.syntax()),
    ensures
        scan_program(items, i) == Ok::<int, int>(i + program.syntax().len()),
{
    let vars = var_block_syntax(program.var_defs).len();
    let procs = proc_block_syntax(program.procedure_defs).len();
    lemma_program_layout(items, i, program);
    lemma_proc_block_found(items, i + 2 + vars, program.procedure_defs);
    lemma_var_block_found(items, i + 2, program.var_defs);
    lemma_body_found(items, i + 2 + vars + procs, program.body@);
}

/// A well-formed program that is the whole input is matched as the whole
/// input.
pub proof fn lemma_program_complete(program: Program)
    requires
        program.wf(),
    ensures
        whole(scan_program(program.syntax(), 0), program.syntax()) == Ok::<int, int>(
            program.syntax().len() as int,
        ),
{
    let s = program.syntax();
    assert(s.subrange(0, s.len() as int) =~= s);
    lemma_program_found(s, 0, program);
}

/// The outcome of matching from index `i` on lies inside the input: a
/// match ends behind `i`, a misfit is found at or behind `i`.
pub open spec fn advances(scan: Result<int, int>, i: int, len: int) -> bool {
    match scan {
        Ok(n) => i < n <= len,
        Err(e) => i <= e <= len,
    }
}

/// No production of the expression grammar matches nothing, and none
/// reports a misfit outside the input.
pub proof fn lemma_expr_scans_advance(items: Seq<Item>, i: int)
    requires
        0 <= i <= items.len(),
    ensures
        advances(scan_primary(items, i), i, items.len() as int),
        advances(scan_expr(items, i), i, items.len() as int),
        advances(scan_tail(items, i), i, items.len() as int),
        advances(scan_args(items, i), i, items.len() as int),
        advances(scan_index(items, i), i, items.len() as int),
        advances(scan_call(items, i), i, items.len() as int),
        advances(scan_paren(items, i), i, items.len() as int),
    decreases items.len() - i,
{
    let len = items.len() as int;
    if i < len {
        lemma_expr_scans_advance(items, i + 1);
        if i + 2 <= len {
            lemma_expr_scans_advance(items, i + 2);
        }
        assert(advances(scan_index(items, i), i, len));
        assert(advances(scan_call(items, i), i, len));
        assert(advances(scan_paren(items, i), i, len));
        assert(advances(scan_primary(items, i), i, len));
        assert(advances(scan_tail(items, i), i, len));
        if let Ok(n) = scan_primary(items, i) {
            if n < len {
                lemma_expr_scans_advance(items, n);
            }
        }
        assert(advances(scan_expr(items, i), i, len));
        if let Ok(n) = scan_expr(items, i) {
            if n < len {
                lemma_expr_scans_advance(items, n + 1);
            }
        }
    }
}

/// No production of the statement grammar matches nothing, and none
/// reports a misfit outside the input.
pub proof fn lemma_stm_scans_advance(items: Seq<Item>, i: int)
    requires
        0 <= i <= items.len(),
    ensures
        advances(scan_io(items, i, Symbol::Read), i, items.len() as int),
        advances(scan_io(items, i, Symbol::Write), i, items.len() as int),
        advances(scan_if(items, i), i, items.len() as int),
        advances(scan_while(items, i), i, items.len() as int),
        advances(scan_stm(items, i), i, items.len() as int),
        advances(scan_stm_list(items, i), i, items.len() as int),
    decreases items.len() - i,
{
    let len = items.len() as int;
    lemma_expr_scans_advance(items, i);
    if i < len {
        lemma_expr_scans_advance(items, i + 1);
        if i + 2 <= len {
            lemma_expr_scans_advance(items, i + 2);
        }
        if let Ok(c) = scan_expr(items, i + 1) {
            if c < len {
                lemma_stm_scans_advance(items, c + 1);
                if let Ok(b) = scan_stm_list(items, c + 1) {
                    if b < len {
                        lemma_stm_scans_advance(items, b + 1);
                    }
                }
            }
        }
        assert(advances(scan_if(items, i), i, len));
        assert(advances(scan_while(items, i), i, len));
        assert(advances(scan_stm(items, i), i, len));
        if let Ok(n) = scan_stm(items, i) {
            if n < len {
                lemma_stm_scans_advance(items, n + 1);
            }
        }
    }
}

/// A list of names and a list of parameters never match nothing.
pub proof fn lemma_list_scans_advance(items: Seq<Item>, i: int)
    requires
        0 <= i <= items.len(),
    ensures
        advances(scan_names(items, i), i, items.len() as int),
        advances(scan_vardef(items, i), i, items.len() as int),
        advances(scan_vardefs(items, i), i, items.len() as int),
        advances(scan_params(items, i), i, items.len() as int),
        advances(scan_param_block(items, i), i, items.len() as int),
    decreases items.len() - i,
{
    let len = items.len() as int;
    if i < len {
        lemma_list_scans_advance(items, i + 1);
        if i + 2 <= len {
            lemma_list_scans_advance(items, i + 2);
        }
        if i + 3 <= len {
            lemma_list_scans_advance(items, i + 3);
        }
        assert(advances(scan_names(items, i), i, len));
        assert(advances(scan_vardef(items, i), i, len));
        if let Ok(n) = scan_vardef(items, i) {
            if n < len {
                lemma_list_scans_advance(items, n + 1);
            }
        }
    }
}

/// A block of declarations matches nothing only where it is missing.
pub proof fn lemma_var_block_advances(items: Seq<Item>, i: int)
    requires
        0 <= i <= items.len(),
    ensures
        scan_var_block(items, i) == Ok::<int, int>(i) || advances(
            scan_var_block(items, i),
            i,
            items.len() as int,
        ),
{
    if i < items.len() {
        lemma_list_scans_advance(items, i + 1);
    }
}

/// `begin` with its statement list never matches nothing.
pub proof fn lemma_body_advances(items: Seq<Item>, i: int)
    requires
        0 <= i <= items.len(),
    ensures
        advances(scan_body(items, i), i, items.len() as int),
{
    if i < items.len() {
        lemma_stm_scans_advance(items, i + 1);
    }
}

/// A procedure never matches nothing.
pub proof fn lemma_procedure_advances(items: Seq<Item>, i: int)
    requires
        0 <= i <= items.len(),
    ensures
        advances(scan_procedure(items, i), i, items.len() as int),
{
    if i + 2 <= items.len() {
        lemma_list_scans_advance(items, i + 2);
        if let Ok(p) = scan_param_block(items, i + 2) {
            lemma_var_block_advances(items, p);
            if let Ok(v) = scan_var_block(items, p) {
                lemma_body_advances(items, v);
            }
        }
    }
}

/// A list of procedures never matches nothing.
pub proof fn lemma_procedures_advance(items: Seq<Item>, i: int)
    requires
        0 <= i <= items.len(),
    ensures
        advances(scan_procedures(items, i), i, items.len() as int),
    decreases items.len() - i,
{
    lemma_procedure_advances(items, i);
    if let Ok(n) = scan_procedure(items, i) {
        if i < n {
            lemma_procedures_advance(items, n);
        }
    }
}

/// A program never matches nothing.
pub proof fn lemma_program_advances(items: Seq<Item>, i: int)
    requires
        0 <= i <= items.len(),
    ensures
        advances(scan_program(items, i), i, items.len() as int),
{
    if i + 2 <= items.len() {
        lemma_var_block_advances(items, i + 2);
        if let Ok(v) = scan_var_block(items, i + 2) {
            lemma_procedures_advance(items, v);
            if let Ok(p) = scan_proc_block(items, v) {
                lemma_body_advances(items, p);
            }
        }
    }
}

} // verus!
