//! The grammar is unambiguous as far as the emitted program goes: two
//! well-formed trees that are written with the same terminals are rendered
//! as the same text.
use crate::ast::{
    lets_text, maybe_end, names_syntax, params_syntax, params_text, params_wf, proc_block_syntax,
    proc_block_text, proc_block_wf, procs_syntax, procs_text, procs_wf, same_names, same_params,
    same_proc_block, same_procs, same_var_block, same_vardefs, var_block_syntax, var_block_text,
    var_block_wf, vardefs_syntax, vardefs_text, vardefs_wf, ParamDecl, ProcedureDef, Program,
    VarDef,
};
use crate::derivation::{
    concat, ends_vars, lemma_names_layout, lemma_params_found, lemma_params_is_join,
    lemma_params_wf, lemma_proc_block_found, lemma_proc_layout, lemma_procedure_layout,
    lemma_program_layout, lemma_vardef_found, lemma_vardef_layout, param_parts, proc_parts,
    vardef_parts,
};
use crate::derivation::{
    ends_block, ends_expr, ends_primary, expr_parts, lemma_block_is_join, lemma_block_wf,
    lemma_expr_found, lemma_expr_starts, lemma_if_layout, lemma_list_is_join, lemma_list_wf,
    lemma_primary_found, lemma_sep_layout, lemma_stands_index, lemma_stands_part, lemma_stm_found,
    lemma_stm_starts, lemma_while_layout, sep_join, sep_offset, stands_at, stm_parts,
};
use crate::expr::{
    is_operator, left_side, list_syntax, list_text, list_wf, operator_of, right_side, same_list,
    BinOp, Expr,
};
use crate::stm::{
    block_syntax, block_text, block_wf, body_wf, same_block, IfStm, Stmatment, WhileStm,
};
use crate::symbol::{plain, symbol_at, Item, Symbol};
use vstd::prelude::*;

verus! {

/// Where the sides of an expression with an operator lie that stands in
/// an input.
pub proof fn lemma_operator_layout(items: Seq<Item>, i: int, e: Expr)
    requires
        e.wf(),
        !e.is_primary(),
        stands_at(items, i, e.syntax()),
    ensures
        ({
            let left = left_side(e).syntax();
            let right = right_side(e).syntax();
            let m = left.len() as int;
            &&& left_side(e).wf()
            &&& left_side(e).is_primary()
            &&& right_side(e).wf()
            &&& m >= 1
            &&& right.len() >= 1
            &&& e.syntax().len() == m + 1 + right.len()
            &&& stands_at(items, i, left)
            &&& items[i + m] == plain(operator_of(e).symbol())
            &&& is_operator(symbol_at(items, i + m))
            &&& stands_at(items, i + m + 1, right)
            &&& e.text() == left_side(e).text() + " "@ + operator_of(e).text() + " "@
                + right_side(e).text()
            &&& e is Assign <==> operator_of(e) == BinOp::Assign
        }),
{
    let s = e.syntax();
    let left = left_side(e).syntax();
    let right = right_side(e).syntax();
    let m = left.len() as int;
    lemma_expr_starts(left_side(e));
    lemma_expr_starts(right_side(e));
    lemma_stands_part(items, i, s, 0, m);
    assert(s.subrange(0, m) =~= left);
    lemma_stands_index(items, i, s, m);
    lemma_stands_part(items, i, s, m + 1, s.len() as int);
    assert(s.subrange(m + 1, s.len() as int) =~= right);
}

/// Two operators with the same symbol are the same.
pub proof fn lemma_operator_symbol(a: BinOp, b: BinOp)
    requires
        a.symbol() == b.symbol(),
    ensures
        a == b,
{
}

/// Two well-formed primaries that stand at the same place, neither
/// followed by `(` or `[`, are as long as each other and rendered alike.
#[verifier::rlimit(40)]
pub proof fn lemma_primary_same(items: Seq<Item>, i: int, a: Expr, b: Expr)
    requires
        a.wf(),
        b.wf(),
        a.is_primary(),
        b.is_primary(),
        stands_at(items, i, a.syntax()),
        stands_at(items, i, b.syntax()),
        ends_primary(symbol_at(items, i + a.syntax().len())),
        ends_primary(symbol_at(items, i + b.syntax().len())),
    ensures
        a.syntax().len() == b.syntax().len(),
        a.text() == b.text(),
        a.same(b),
    decreases a, 0int,
{
    let s = a.syntax();
    let t = b.syntax();
    lemma_primary_found(items, i, a);
    lemma_primary_found(items, i, b);
    lemma_expr_starts(a);
    lemma_expr_starts(b);
    lemma_stands_index(items, i, s, 0);
    lemma_stands_index(items, i, t, 0);
    match a {
        Expr::Var(v) => {},
        Expr::Lit(l) => {},
        Expr::Index(x) => {
            lemma_stands_index(items, i, s, 1);
            lemma_stands_index(items, i, t, 1);
            match b {
                Expr::Index(y) => {
                    assert(s.subrange(2, 2 + (*x.index).syntax().len() as int) =~= (
                    *x.index).syntax());
                    assert(t.subrange(2, 2 + (*y.index).syntax().len() as int) =~= (
                    *y.index).syntax());
                    lemma_inner_layout(items, i, s, 2, (*x.index).syntax());
                    lemma_inner_layout(items, i, t, 2, (*y.index).syntax());
                    lemma_expr_same(items, i + 2, *x.index, *y.index);
                },
                _ => {},
            }
        },
        Expr::Call(c) => {
            lemma_stands_index(items, i, s, 1);
            lemma_stands_index(items, i, t, 1);
            match b {
                Expr::Call(d) => {
                    assert(s.subrange(2, s.len() - 1) =~= list_syntax(c.args@, c.args@.len()));
                    assert(t.subrange(2, t.len() - 1) =~= list_syntax(d.args@, d.args@.len()));
                    lemma_call_same(items, i, c.args@, d.args@, s, t);
                },
                _ => {},
            }
        },
        Expr::Paren(p) => {
            match b {
                Expr::Paren(q) => {
                    assert(s.subrange(1, 1 + (*p.expr).syntax().len() as int) =~= (
                    *p.expr).syntax());
                    assert(t.subrange(1, 1 + (*q.expr).syntax().len() as int) =~= (
                    *q.expr).syntax());
                    lemma_inner_layout(items, i, s, 1, (*p.expr).syntax());
                    lemma_inner_layout(items, i, t, 1, (*q.expr).syntax());
                    lemma_expr_same(items, i + 1, *p.expr, *q.expr);
                },
                _ => {},
            }
        },
        _ => {},
    }
}

/// What stands between the first `lead` terminals and the last one of
/// terminals that stand in an input stands there too, and the last
/// terminal follows it.
pub proof fn lemma_inner_layout(
    items: Seq<Item>,
    i: int,
    s: Seq<Item>,
    lead: int,
    inner: Seq<Item>,
)
    requires
        stands_at(items, i, s),
        0 <= lead,
        s.len() == lead + inner.len() + 1,
        s.subrange(lead, lead + inner.len()) == inner,
    ensures
        stands_at(items, i + lead, inner),
        items[i + lead + inner.len()] == s[s.len() - 1],
        symbol_at(items, i + lead + inner.len()) == s[s.len() - 1].symbol,
{
    lemma_stands_part(items, i, s, lead, lead + inner.len());
    lemma_stands_index(items, i, s, s.len() - 1);
}

/// The arguments of two calls that stand at the same place are rendered
/// alike.
proof fn lemma_call_same(
    items: Seq<Item>,
    i: int,
    xs: Seq<Expr>,
    ys: Seq<Expr>,
    s: Seq<Item>,
    t: Seq<Item>,
)
    requires
        list_wf(xs, xs.len()),
        list_wf(ys, ys.len()),
        stands_at(items, i, s),
        stands_at(items, i, t),
        s.len() == list_syntax(xs, xs.len()).len() + 3,
        t.len() == list_syntax(ys, ys.len()).len() + 3,
        s.subrange(2, s.len() - 1) == list_syntax(xs, xs.len()),
        t.subrange(2, t.len() - 1) == list_syntax(ys, ys.len()),
        s[s.len() - 1] == plain(Symbol::CloseParen),
        t[t.len() - 1] == plain(Symbol::CloseParen),
    ensures
        list_text(xs, xs.len()) == list_text(ys, ys.len()),
        xs.len() == ys.len(),
        same_list(xs, ys, xs.len()),
    decreases xs, xs.len() + 1,
{
    let sx = list_syntax(xs, xs.len());
    let sy = list_syntax(ys, ys.len());
    lemma_inner_layout(items, i, s, 2, sx);
    lemma_inner_layout(items, i, t, 2, sy);
    if xs.len() > 0 {
        lemma_list_is_join(xs, xs.len());
        lemma_sep_layout(expr_parts(xs), plain(Symbol::Comma), xs.len(), 0);
        lemma_list_wf(xs, xs.len(), 0);
        lemma_expr_starts(xs[0]);
        lemma_stands_part(items, i + 2, sx, 0, xs[0].syntax().len() as int);
        lemma_stands_index(items, i + 2, xs[0].syntax(), 0);
    }
    if ys.len() > 0 {
        lemma_list_is_join(ys, ys.len());
        lemma_sep_layout(expr_parts(ys), plain(Symbol::Comma), ys.len(), 0);
        lemma_list_wf(ys, ys.len(), 0);
        lemma_expr_starts(ys[0]);
        lemma_stands_part(items, i + 2, sy, 0, ys[0].syntax().len() as int);
        lemma_stands_index(items, i + 2, ys[0].syntax(), 0);
    }
    if xs.len() > 0 && ys.len() > 0 {
        lemma_args_same(items, i + 2, xs, ys, 0);
    }
}

/// Two well-formed argument lists that stand at the same place and agree
/// up to argument `k` are as long as each other and rendered alike.
pub proof fn lemma_args_same(items: Seq<Item>, start: int, xs: Seq<Expr>, ys: Seq<Expr>, k: nat)
    requires
        k < xs.len(),
        k < ys.len(),
        list_wf(xs, xs.len()),
        list_wf(ys, ys.len()),
        stands_at(items, start, list_syntax(xs, xs.len())),
        stands_at(items, start, list_syntax(ys, ys.len())),
        ends_expr(symbol_at(items, start + list_syntax(xs, xs.len()).len())),
        ends_expr(symbol_at(items, start + list_syntax(ys, ys.len()).len())),
        symbol_at(items, start + list_syntax(xs, xs.len()).len()) != Symbol::Comma,
        symbol_at(items, start + list_syntax(ys, ys.len()).len()) != Symbol::Comma,
        sep_offset(expr_parts(xs), plain(Symbol::Comma), k) == sep_offset(
            expr_parts(ys),
            plain(Symbol::Comma),
            k,
        ),
        list_text(xs, k) == list_text(ys, k),
        same_list(xs, ys, k),
    ensures
        xs.len() == ys.len(),
        list_syntax(xs, xs.len()).len() == list_syntax(ys, ys.len()).len(),
        list_text(xs, xs.len()) == list_text(ys, ys.len()),
        same_list(xs, ys, xs.len()),
    decreases xs, xs.len() - k,
{
    let sep = plain(Symbol::Comma);
    let px = expr_parts(xs);
    let py = expr_parts(ys);
    let sx = list_syntax(xs, xs.len());
    let sy = list_syntax(ys, ys.len());
    let off = sep_offset(px, sep, k) as int;
    let end_x = sep_join(px, sep, k + 1).len() as int;
    let end_y = sep_join(py, sep, k + 1).len() as int;
    lemma_list_is_join(xs, xs.len());
    lemma_list_is_join(ys, ys.len());
    lemma_sep_layout(px, sep, xs.len(), k);
    lemma_sep_layout(py, sep, ys.len(), k);
    lemma_list_wf(xs, xs.len(), k as int);
    lemma_list_wf(ys, ys.len(), k as int);
    lemma_stands_part(items, start, sx, off, end_x);
    lemma_stands_part(items, start, sy, off, end_y);
    if k + 1 < xs.len() {
        lemma_stands_index(items, start, sx, end_x);
    }
    if k + 1 < ys.len() {
        lemma_stands_index(items, start, sy, end_y);
    }
    lemma_expr_same(items, start + off, xs[k as int], ys[k as int]);
    assert(list_text(xs, k + 1) == list_text(ys, k + 1));
    assert(same_list(xs, ys, k + 1));
    if k + 1 < xs.len() && k + 1 < ys.len() {
        lemma_args_same(items, start, xs, ys, k + 1);
    }
}

/// Two well-formed expressions that stand at the same place, neither
/// followed by anything that continues an expression, are as long as each
/// other and rendered alike.
pub proof fn lemma_expr_same(items: Seq<Item>, i: int, a: Expr, b: Expr)
    requires
        a.wf(),
        b.wf(),
        stands_at(items, i, a.syntax()),
        stands_at(items, i, b.syntax()),
        ends_expr(symbol_at(items, i + a.syntax().len())),
        ends_expr(symbol_at(items, i + b.syntax().len())),
    ensures
        a.syntax().len() == b.syntax().len(),
        a.text() == b.text(),
        a.same(b),
    decreases a, 1int,
{
    lemma_expr_found(items, i, a);
    lemma_expr_found(items, i, b);
    if a.is_primary() {
        lemma_primary_found(items, i, a);
        if b.is_primary() {
            lemma_primary_same(items, i, a, b);
        } else {
            lemma_operator_layout(items, i, b);
            lemma_primary_found(items, i, left_side(b));
        }
    } else {
        lemma_operator_layout(items, i, a);
        lemma_primary_found(items, i, left_side(a));
        if b.is_primary() {
            lemma_primary_found(items, i, b);
        } else {
            lemma_operator_layout(items, i, b);
            let m = left_side(a).syntax().len() as int;
            lemma_primary_same(items, i, left_side(a), left_side(b));
            lemma_operator_symbol(operator_of(a), operator_of(b));
            lemma_expr_same(items, i + m + 1, right_side(a), right_side(b));
        }
    }
}

/// Two well-formed expressions that are written with the same terminals
/// are rendered as the same text.
pub proof fn lemma_expr_unique(a: Expr, b: Expr)
    requires
        a.wf(),
        b.wf(),
        a.syntax() == b.syntax(),
    ensures
        a.same(b),
        a.text() == b.text(),
{
    let s = a.syntax();
    assert(s.subrange(0, s.len() as int) =~= s);
    lemma_expr_same(s, 0, a, b);
}

/// Two `read` or two `write` statements that stand at the same place
/// have arguments that are rendered alike.
proof fn lemma_io_same(items: Seq<Item>, i: int, word: Symbol, a: Expr, b: Expr)
    requires
        a.wf(),
        b.wf(),
        stands_at(
            items,
            i,
            seq![plain(word), plain(Symbol::OpenParen)] + a.syntax() + seq![
                plain(Symbol::CloseParen),
            ],
        ),
        stands_at(
            items,
            i,
            seq![plain(word), plain(Symbol::OpenParen)] + b.syntax() + seq![
                plain(Symbol::CloseParen),
            ],
        ),
    ensures
        a.text() == b.text(),
        a.same(b),
{
    let s = seq![plain(word), plain(Symbol::OpenParen)] + a.syntax() + seq![
        plain(Symbol::CloseParen),
    ];
    let t = seq![plain(word), plain(Symbol::OpenParen)] + b.syntax() + seq![
        plain(Symbol::CloseParen),
    ];
    assert(s.subrange(2, 2 + a.syntax().len() as int) =~= a.syntax());
    assert(t.subrange(2, 2 + b.syntax().len() as int) =~= b.syntax());
    lemma_inner_layout(items, i, s, 2, a.syntax());
    lemma_inner_layout(items, i, t, 2, b.syntax());
    lemma_expr_same(items, i + 2, a, b);
}

/// Two well-formed `while` statements that stand at the same place are
/// rendered alike.
pub proof fn lemma_while_same(items: Seq<Item>, i: int, a: WhileStm, b: WhileStm)
    requires
        Stmatment::While(a).wf(),
        Stmatment::While(b).wf(),
        stands_at(items, i, Stmatment::While(a).syntax()),
        stands_at(items, i, Stmatment::While(b).syntax()),
    ensures
        Stmatment::While(a).text() == Stmatment::While(b).text(),
        Stmatment::While(a).same(Stmatment::While(b)),
    decreases a, 0int,
{
    let c = 1 + a.condition.syntax().len() as int;
    lemma_while_layout(items, i, a);
    lemma_while_layout(items, i, b);
    lemma_expr_same(items, i + 1, a.condition, b.condition);
    assert(sep_offset(stm_parts(a.body@), plain(Symbol::Semicolon), 0) == 0);
    assert(block_text(a.body@, 0) == block_text(b.body@, 0));
    lemma_block_same(items, i + c + 1, a.body@, b.body@, 0);
}

/// Two well-formed `if` statements that stand at the same place are
/// rendered alike.
pub proof fn lemma_if_same(items: Seq<Item>, i: int, a: IfStm, b: IfStm)
    requires
        Stmatment::If(a).wf(),
        Stmatment::If(b).wf(),
        stands_at(items, i, Stmatment::If(a).syntax()),
        stands_at(items, i, Stmatment::If(b).syntax()),
    ensures
        Stmatment::If(a).text() == Stmatment::If(b).text(),
        Stmatment::If(a).same(Stmatment::If(b)),
    decreases a, 0int,
{
    let c = 1 + a.condition.syntax().len() as int;
    let e = c + 1 + block_syntax(a.body@, a.body@.len()).len() as int;
    lemma_if_layout(items, i, a);
    lemma_if_layout(items, i, b);
    lemma_expr_same(items, i + 1, a.condition, b.condition);
    assert(block_text(a.body@, 0) == block_text(b.body@, 0));
    lemma_block_same(items, i + c + 1, a.body@, b.body@, 0);
    match a.else_body {
        Some(x) => {
            match b.else_body {
                Some(y) => {
                    assert(block_text(x@, 0) == block_text(y@, 0));
                    lemma_block_same(items, i + e + 1, x@, y@, 0);
                },
                None => {},
            }
        },
        None => {},
    }
}

/// Two well-formed statements that stand at the same place, neither
/// followed by anything that continues an expression, are as long as each
/// other and rendered alike.
pub proof fn lemma_stm_same(items: Seq<Item>, i: int, a: Stmatment, b: Stmatment)
    requires
        a.wf(),
        b.wf(),
        stands_at(items, i, a.syntax()),
        stands_at(items, i, b.syntax()),
        ends_expr(symbol_at(items, i + a.syntax().len())),
        ends_expr(symbol_at(items, i + b.syntax().len())),
    ensures
        a.syntax().len() == b.syntax().len(),
        a.text() == b.text(),
        a.same(b),
    decreases a, 1int,
{
    lemma_stm_found(items, i, a);
    lemma_stm_found(items, i, b);
    lemma_stm_starts(a);
    lemma_stm_starts(b);
    lemma_stands_index(items, i, a.syntax(), 0);
    lemma_stands_index(items, i, b.syntax(), 0);
    if let Stmatment::Expr(x) = a {
        lemma_expr_starts(x);
    }
    if let Stmatment::Expr(y) = b {
        lemma_expr_starts(y);
    }
    match a {
        Stmatment::Expr(x) => {
            match b {
                Stmatment::Expr(y) => {
                    lemma_expr_same(items, i, x, y);
                },
                _ => {},
            }
        },
        Stmatment::Read(x) => {
            match b {
                Stmatment::Read(y) => {
                    lemma_io_same(items, i, Symbol::Read, x.param, y.param);
                },
                _ => {},
            }
        },
        Stmatment::Write(x) => {
            match b {
                Stmatment::Write(y) => {
                    lemma_io_same(items, i, Symbol::Write, x.param, y.param);
                },
                _ => {},
            }
        },
        Stmatment::While(x) => {
            match b {
                Stmatment::While(y) => {
                    lemma_while_same(items, i, x, y);
                },
                _ => {},
            }
        },
        Stmatment::If(x) => {
            match b {
                Stmatment::If(y) => {
                    lemma_if_same(items, i, x, y);
                },
                _ => {},
            }
        },
    }
}

/// Two well-formed statement lists that stand at the same place and agree
/// up to statement `k` are as long as each other and rendered alike.
pub proof fn lemma_block_same(
    items: Seq<Item>,
    start: int,
    xs: Seq<Stmatment>,
    ys: Seq<Stmatment>,
    k: nat,
)
    requires
        k < xs.len(),
        k < ys.len(),
        block_wf(xs, xs.len()),
        block_wf(ys, ys.len()),
        stands_at(items, start, block_syntax(xs, xs.len())),
        stands_at(items, start, block_syntax(ys, ys.len())),
        ends_block(symbol_at(items, start + block_syntax(xs, xs.len()).len())),
        ends_block(symbol_at(items, start + block_syntax(ys, ys.len()).len())),
        sep_offset(stm_parts(xs), plain(Symbol::Semicolon), k) == sep_offset(
            stm_parts(ys),
            plain(Symbol::Semicolon),
            k,
        ),
        block_text(xs, k) == block_text(ys, k),
        same_block(xs, ys, k),
    ensures
        xs.len() == ys.len(),
        block_syntax(xs, xs.len()).len() == block_syntax(ys, ys.len()).len(),
        block_text(xs, xs.len()) == block_text(ys, ys.len()),
        same_block(xs, ys, xs.len()),
    decreases xs, xs.len() - k,
{
    let sep = plain(Symbol::Semicolon);
    let px = stm_parts(xs);
    let py = stm_parts(ys);
    let sx = block_syntax(xs, xs.len());
    let sy = block_syntax(ys, ys.len());
    let off = sep_offset(px, sep, k) as int;
    let end_x = sep_join(px, sep, k + 1).len() as int;
    let end_y = sep_join(py, sep, k + 1).len() as int;
    lemma_block_is_join(xs, xs.len());
    lemma_block_is_join(ys, ys.len());
    lemma_sep_layout(px, sep, xs.len(), k);
    lemma_sep_layout(py, sep, ys.len(), k);
    lemma_block_wf(xs, xs.len(), k as int);
    lemma_block_wf(ys, ys.len(), k as int);
    lemma_stands_part(items, start, sx, off, end_x);
    lemma_stands_part(items, start, sy, off, end_y);
    if k + 1 < xs.len() {
        lemma_stands_index(items, start, sx, end_x);
    }
    if k + 1 < ys.len() {
        lemma_stands_index(items, start, sy, end_y);
    }
    lemma_stm_same(items, start + off, xs[k as int], ys[k as int]);
    assert(block_text(xs, k + 1) == block_text(ys, k + 1));
    assert(same_block(xs, ys, k + 1));
    if k + 1 < xs.len() && k + 1 < ys.len() {
        lemma_block_same(items, start, xs, ys, k + 1);
    }
}

/// Two well-formed statements that are written with the same terminals
/// are rendered as the same text.
pub proof fn lemma_stm_unique(a: Stmatment, b: Stmatment)
    requires
        a.wf(),
        b.wf(),
        a.syntax() == b.syntax(),
    ensures
        a.same(b),
        a.text() == b.text(),
{
    let s = a.syntax();
    assert(s.subrange(0, s.len() as int) =~= s);
    lemma_stm_same(s, 0, a, b);
}

/// Two lists of names that stand at the same place and agree up to name
/// `k` are as long as each other and bound alike.
pub proof fn lemma_names_same(
    items: Seq<Item>,
    start: int,
    xs: Seq<String>,
    ys: Seq<String>,
    k: nat,
    init: Seq<char>,
)
    requires
        k < xs.len(),
        k < ys.len(),
        stands_at(items, start, names_syntax(xs, xs.len())),
        stands_at(items, start, names_syntax(ys, ys.len())),
        symbol_at(items, start + names_syntax(xs, xs.len()).len()) != Symbol::Comma,
        symbol_at(items, start + names_syntax(ys, ys.len()).len()) != Symbol::Comma,
        lets_text(xs, k, init) == lets_text(ys, k, init),
        same_names(xs, ys, k),
    ensures
        xs.len() == ys.len(),
        lets_text(xs, xs.len(), init) == lets_text(ys, ys.len(), init),
        same_names(xs, ys, xs.len()),
    decreases xs.len() - k,
{
    let sx = names_syntax(xs, xs.len());
    let sy = names_syntax(ys, ys.len());
    lemma_names_layout(xs, xs.len(), k);
    lemma_names_layout(ys, ys.len(), k);
    lemma_stands_index(items, start, sx, 2 * k as int);
    lemma_stands_index(items, start, sy, 2 * k as int);
    if k + 1 < xs.len() {
        lemma_stands_index(items, start, sx, 2 * k as int + 1);
    }
    if k + 1 < ys.len() {
        lemma_stands_index(items, start, sy, 2 * k as int + 1);
    }
    assert(xs[k as int]@ == ys[k as int]@);
    assert(lets_text(xs, k + 1, init) == lets_text(ys, k + 1, init));
    assert(same_names(xs, ys, k + 1));
    if k + 1 < xs.len() && k + 1 < ys.len() {
        lemma_names_same(items, start, xs, ys, k + 1, init);
    }
}

/// Two well-formed declarations that stand at the same place, neither
/// followed by a comma, are as long as each other and rendered alike.
pub proof fn lemma_vardef_same(items: Seq<Item>, i: int, a: VarDef, b: VarDef)
    requires
        a.wf(),
        b.wf(),
        stands_at(items, i, a.syntax()),
        stands_at(items, i, b.syntax()),
        symbol_at(items, i + a.syntax().len()) != Symbol::Comma,
        symbol_at(items, i + b.syntax().len()) != Symbol::Comma,
    ensures
        a.syntax().len() == b.syntax().len(),
        a.text() == b.text(),
        a.same(b),
{
    let s = a.syntax();
    let t = b.syntax();
    lemma_vardef_found(items, i, a);
    lemma_vardef_found(items, i, b);
    lemma_stands_index(items, i, s, 0);
    lemma_stands_index(items, i, t, 0);
    lemma_stands_part(items, i, s, 1, s.len() as int);
    lemma_stands_part(items, i, t, 1, t.len() as int);
    assert(s.subrange(1, s.len() as int) =~= names_syntax(a.names(), a.names().len()));
    assert(t.subrange(1, t.len() as int) =~= names_syntax(b.names(), b.names().len()));
    assert(a.init() == b.init());
    lemma_names_same(items, i + 1, a.names(), b.names(), 0, a.init());
}

/// Two well-formed lists of declarations that stand at the same place and
/// agree up to declaration `k` are as long as each other and rendered alike.
pub proof fn lemma_vardefs_same(
    items: Seq<Item>,
    start: int,
    xs: Seq<VarDef>,
    ys: Seq<VarDef>,
    k: nat,
)
    requires
        k < xs.len(),
        k < ys.len(),
        vardefs_wf(xs, xs.len()),
        vardefs_wf(ys, ys.len()),
        stands_at(items, start, vardefs_syntax(xs, xs.len())),
        stands_at(items, start, vardefs_syntax(ys, ys.len())),
        ends_vars(symbol_at(items, start + vardefs_syntax(xs, xs.len()).len())),
        ends_vars(symbol_at(items, start + vardefs_syntax(ys, ys.len()).len())),
        concat(vardef_parts(xs), k).len() == concat(vardef_parts(ys), k).len(),
        vardefs_text(xs, k) == vardefs_text(ys, k),
        same_vardefs(xs, ys, k),
    ensures
        xs.len() == ys.len(),
        vardefs_syntax(xs, xs.len()).len() == vardefs_syntax(ys, ys.len()).len(),
        vardefs_text(xs, xs.len()) == vardefs_text(ys, ys.len()),
        same_vardefs(xs, ys, xs.len()),
    decreases xs.len() - k,
{
    let at = start + concat(vardef_parts(xs), k).len();
    lemma_vardef_layout(items, start, xs, k);
    lemma_vardef_layout(items, start, ys, k);
    lemma_vardef_same(items, at, xs[k as int], ys[k as int]);
    assert(vardefs_text(xs, k + 1) == vardefs_text(ys, k + 1));
    assert(same_vardefs(xs, ys, k + 1));
    if k + 1 < xs.len() {
        lemma_vardef_layout(items, start, xs, k + 1);
        lemma_vardef_found(
            items,
            start + concat(vardef_parts(xs), k + 1).len(),
            xs[k as int + 1],
        );
    }
    if k + 1 < ys.len() {
        lemma_vardef_layout(items, start, ys, k + 1);
        lemma_vardef_found(
            items,
            start + concat(vardef_parts(ys), k + 1).len(),
            ys[k as int + 1],
        );
    }
    if k + 1 < xs.len() && k + 1 < ys.len() {
        lemma_vardefs_same(items, start, xs, ys, k + 1);
    }
}

/// Two well-formed blocks of declarations, or none, that stand at the same
/// place before `begin` or `procedure` are as long as each other and
/// rendered alike.
pub proof fn lemma_var_block_same(
    items: Seq<Item>,
    i: int,
    a: Option<Vec<VarDef>>,
    b: Option<Vec<VarDef>>,
)
    requires
        var_block_wf(a),
        var_block_wf(b),
        stands_at(items, i, var_block_syntax(a)),
        stands_at(items, i, var_block_syntax(b)),
        maybe_end(symbol_at(items, i + var_block_syntax(a).len())),
        maybe_end(symbol_at(items, i + var_block_syntax(b).len())),
    ensures
        var_block_syntax(a).len() == var_block_syntax(b).len(),
        var_block_text(a) == var_block_text(b),
        same_var_block(a, b),
{
    let s = var_block_syntax(a);
    let t = var_block_syntax(b);
    if let Some(x) = a {
        lemma_stands_index(items, i, s, 0);
        lemma_stands_part(items, i, s, 1, s.len() as int);
        assert(s.subrange(1, s.len() as int) =~= vardefs_syntax(x@, x@.len()));
    }
    if let Some(y) = b {
        lemma_stands_index(items, i, t, 0);
        lemma_stands_part(items, i, t, 1, t.len() as int);
        assert(t.subrange(1, t.len() as int) =~= vardefs_syntax(y@, y@.len()));
    }
    match a {
        Some(x) => {
            match b {
                Some(y) => {
                    assert(concat(vardef_parts(x@), 0).len() == 0);
                    assert(concat(vardef_parts(y@), 0).len() == 0);
                    assert(vardefs_text(x@, 0) == vardefs_text(y@, 0));
                    lemma_vardefs_same(items, i + 1, x@, y@, 0);
                },
                None => {},
            }
        },
        None => {},
    }
}

/// Two well-formed lists of parameters that stand at the same place and
/// agree up to parameter `k` are as long as each other and bound alike.
#[verifier::rlimit(40)]
pub proof fn lemma_params_same(
    items: Seq<Item>,
    start: int,
    xs: Seq<ParamDecl>,
    ys: Seq<ParamDecl>,
    k: nat,
)
    requires
        k < xs.len(),
        k < ys.len(),
        params_wf(xs, xs.len()),
        params_wf(ys, ys.len()),
        stands_at(items, start, params_syntax(xs, xs.len())),
        stands_at(items, start, params_syntax(ys, ys.len())),
        symbol_at(items, start + params_syntax(xs, xs.len()).len()) != Symbol::Comma,
        symbol_at(items, start + params_syntax(ys, ys.len()).len()) != Symbol::Comma,
        sep_offset(param_parts(xs), plain(Symbol::Comma), k) == sep_offset(
            param_parts(ys),
            plain(Symbol::Comma),
            k,
        ),
        params_text(xs, k) == params_text(ys, k),
        same_params(xs, ys, k),
    ensures
        xs.len() == ys.len(),
        params_syntax(xs, xs.len()).len() == params_syntax(ys, ys.len()).len(),
        params_text(xs, xs.len()) == params_text(ys, ys.len()),
        same_params(xs, ys, xs.len()),
    decreases xs.len() - k,
{
    let sep = plain(Symbol::Comma);
    let px = param_parts(xs);
    let py = param_parts(ys);
    let sx = params_syntax(xs, xs.len());
    let sy = params_syntax(ys, ys.len());
    let off = sep_offset(px, sep, k) as int;
    let end_x = sep_join(px, sep, k + 1).len() as int;
    let end_y = sep_join(py, sep, k + 1).len() as int;
    lemma_params_is_join(xs, xs.len());
    lemma_params_is_join(ys, ys.len());
    lemma_sep_layout(px, sep, xs.len(), k);
    lemma_sep_layout(py, sep, ys.len(), k);
    lemma_params_wf(xs, xs.len(), k as int);
    lemma_params_wf(ys, ys.len(), k as int);
    lemma_stands_part(items, start, sx, off, end_x);
    lemma_stands_part(items, start, sy, off, end_y);
    lemma_stands_index(items, start + off, px[k as int], 0);
    lemma_stands_index(items, start + off, px[k as int], 1);
    lemma_stands_index(items, start + off, py[k as int], 0);
    lemma_stands_index(items, start + off, py[k as int], 1);
    if k + 1 < xs.len() {
        lemma_stands_index(items, start, sx, end_x);
    }
    if k + 1 < ys.len() {
        lemma_stands_index(items, start, sy, end_y);
    }
    assert(xs[k as int].ty() == ys[k as int].ty());
    assert(xs[k as int].name() == ys[k as int].name());
    assert(xs[k as int].text() == ys[k as int].text());
    assert(params_text(xs, k + 1) == params_text(ys, k + 1));
    assert(same_params(xs, ys, k + 1));
    if k + 1 < xs.len() && k + 1 < ys.len() {
        lemma_params_same(items, start, xs, ys, k + 1);
    }
}

/// Two well-formed parameter lists between their parentheses that stand
/// at the same place are as long as each other and bound alike.
pub proof fn lemma_param_block_same(
    items: Seq<Item>,
    i: int,
    xs: Seq<ParamDecl>,
    ys: Seq<ParamDecl>,
)
    requires
        params_wf(xs, xs.len()),
        params_wf(ys, ys.len()),
        stands_at(
            items,
            i,
            seq![plain(Symbol::OpenParen)] + params_syntax(xs, xs.len()) + seq![
                plain(Symbol::CloseParen),
            ],
        ),
        stands_at(
            items,
            i,
            seq![plain(Symbol::OpenParen)] + params_syntax(ys, ys.len()) + seq![
                plain(Symbol::CloseParen),
            ],
        ),
    ensures
        params_syntax(xs, xs.len()).len() == params_syntax(ys, ys.len()).len(),
        params_text(xs, xs.len()) == params_text(ys, ys.len()),
        xs.len() == ys.len(),
        same_params(xs, ys, xs.len()),
{
    let sx = params_syntax(xs, xs.len());
    let sy = params_syntax(ys, ys.len());
    let s = seq![plain(Symbol::OpenParen)] + sx + seq![plain(Symbol::CloseParen)];
    let t = seq![plain(Symbol::OpenParen)] + sy + seq![plain(Symbol::CloseParen)];
    assert(s.subrange(1, 1 + sx.len() as int) =~= sx);
    assert(t.subrange(1, 1 + sy.len() as int) =~= sy);
    lemma_inner_layout(items, i, s, 1, sx);
    lemma_inner_layout(items, i, t, 1, sy);
    if xs.len() > 0 {
        lemma_params_found(items, i + 1, xs, 0);
    }
    if ys.len() > 0 {
        lemma_params_found(items, i + 1, ys, 0);
    }
    if xs.len() > 0 && ys.len() > 0 {
        lemma_params_same(items, i + 1, xs, ys, 0);
    }
}

/// Two well-formed bodies that stand at the same place are as long as
/// each other and rendered alike.
pub proof fn lemma_body_same(items: Seq<Item>, i: int, xs: Seq<Stmatment>, ys: Seq<Stmatment>)
    requires
        body_wf(xs),
        body_wf(ys),
        stands_at(items, i, seq![plain(Symbol::Begin)] + block_syntax(xs, xs.len())),
        stands_at(items, i, seq![plain(Symbol::Begin)] + block_syntax(ys, ys.len())),
        ends_block(symbol_at(items, i + block_syntax(xs, xs.len()).len() + 1)),
        ends_block(symbol_at(items, i + block_syntax(ys, ys.len()).len() + 1)),
    ensures
        block_syntax(xs, xs.len()).len() == block_syntax(ys, ys.len()).len(),
        block_text(xs, xs.len()) == block_text(ys, ys.len()),
        xs.len() == ys.len(),
        same_block(xs, ys, xs.len()),
{
    let sx = block_syntax(xs, xs.len());
    let sy = block_syntax(ys, ys.len());
    let s = seq![plain(Symbol::Begin)] + sx;
    let t = seq![plain(Symbol::Begin)] + sy;
    lemma_stands_part(items, i, s, 1, 1 + sx.len() as int);
    lemma_stands_part(items, i, t, 1, 1 + sy.len() as int);
    assert(s.subrange(1, 1 + sx.len() as int) =~= sx);
    assert(t.subrange(1, 1 + sy.len() as int) =~= sy);
    assert(block_text(xs, 0) == block_text(ys, 0));
    lemma_block_same(items, i + 1, xs, ys, 0);
}

/// Two well-formed procedures that stand at the same place, neither
/// followed by a semicolon or by anything that continues an expression,
/// are as long as each other and rendered alike.
pub proof fn lemma_procedure_same(items: Seq<Item>, i: int, a: ProcedureDef, b: ProcedureDef)
    requires
        a.wf(),
        b.wf(),
        stands_at(items, i, a.syntax()),
        stands_at(items, i, b.syntax()),
        ends_block(symbol_at(items, i + a.syntax().len())),
        ends_block(symbol_at(items, i + b.syntax().len())),
    ensures
        a.syntax().len() == b.syntax().len(),
        a.text() == b.text(),
        a.same(b),
{
    let head = params_syntax(a.params@, a.params@.len()).len() + 2;
    let vars = var_block_syntax(a.var_defs).len();
    lemma_procedure_layout(items, i, a);
    lemma_procedure_layout(items, i, b);
    lemma_stands_index(items, i, a.syntax(), 1);
    lemma_stands_index(items, i, b.syntax(), 1);
    assert(a.name@ == b.name@);
    lemma_param_block_same(items, i + 2, a.params@, b.params@);
    lemma_var_block_same(items, i + 2 + head, a.var_defs, b.var_defs);
    lemma_body_same(items, i + 2 + head + vars, a.body@, b.body@);
}

/// Two well-formed lists of procedures that stand at the same place and
/// agree up to procedure `k` are as long as each other and rendered alike.
pub proof fn lemma_procs_same(
    items: Seq<Item>,
    start: int,
    xs: Seq<ProcedureDef>,
    ys: Seq<ProcedureDef>,
    k: nat,
)
    requires
        k < xs.len(),
        k < ys.len(),
        procs_wf(xs, xs.len()),
        procs_wf(ys, ys.len()),
        stands_at(items, start, procs_syntax(xs, xs.len())),
        stands_at(items, start, procs_syntax(ys, ys.len())),
        symbol_at(items, start + procs_syntax(xs, xs.len()).len()) == Symbol::Begin,
        symbol_at(items, start + procs_syntax(ys, ys.len()).len()) == Symbol::Begin,
        concat(proc_parts(xs), k).len() == concat(proc_parts(ys), k).len(),
        procs_text(xs, k) == procs_text(ys, k),
        same_procs(xs, ys, k),
    ensures
        xs.len() == ys.len(),
        procs_syntax(xs, xs.len()).len() == procs_syntax(ys, ys.len()).len(),
        procs_text(xs, xs.len()) == procs_text(ys, ys.len()),
        same_procs(xs, ys, xs.len()),
    decreases xs.len() - k,
{
    let at = start + concat(proc_parts(xs), k).len();
    lemma_proc_layout(items, start, xs, k);
    lemma_proc_layout(items, start, ys, k);
    if k + 1 < xs.len() {
        lemma_proc_layout(items, start, xs, k + 1);
    }
    if k + 1 < ys.len() {
        lemma_proc_layout(items, start, ys, k + 1);
    }
    lemma_procedure_same(items, at, xs[k as int], ys[k as int]);
    assert(procs_text(xs, k + 1) == procs_text(ys, k + 1));
    assert(same_procs(xs, ys, k + 1));
    if k + 1 < xs.len() && k + 1 < ys.len() {
        lemma_procs_same(items, start, xs, ys, k + 1);
    }
}

/// Two well-formed lists of procedures, or none, that stand at the same
/// place before `begin` are as long as each other and rendered alike.
pub proof fn lemma_proc_block_same(
    items: Seq<Item>,
    i: int,
    a: Option<Vec<ProcedureDef>>,
    b: Option<Vec<ProcedureDef>>,
)
    requires
        proc_block_wf(a),
        proc_block_wf(b),
        stands_at(items, i, proc_block_syntax(a)),
        stands_at(items, i, proc_block_syntax(b)),
        symbol_at(items, i + proc_block_syntax(a).len()) == Symbol::Begin,
        symbol_at(items, i + proc_block_syntax(b).len()) == Symbol::Begin,
    ensures
        proc_block_syntax(a).len() == proc_block_syntax(b).len(),
        proc_block_text(a) == proc_block_text(b),
        same_proc_block(a, b),
{
    lemma_proc_block_found(items, i, a);
    lemma_proc_block_found(items, i, b);
    match a {
        Some(x) => {
            match b {
                Some(y) => {
                    assert(concat(proc_parts(x@), 0).len() == 0);
                    assert(concat(proc_parts(y@), 0).len() == 0);
                    assert(procs_text(x@, 0) == procs_text(y@, 0));
                    lemma_procs_same(items, i, x@, y@, 0);
                },
                None => {},
            }
        },
        None => {},
    }
}

/// Two well-formed programs that stand at the same place are rendered
/// alike.
pub proof fn lemma_program_same(items: Seq<Item>, i: int, a: Program, b: Program)
    requires
        a.wf(),
        b.wf(),
        stands_at(items, i, a.syntax()),
        stands_at(items, i, b.syntax()),
    ensures
        a.text() == b.text(),
        a.same(b),
{
    let vars = var_block_syntax(a.var_defs).len();
    let procs = proc_block_syntax(a.procedure_defs).len();
    lemma_program_layout(items, i, a);
    lemma_program_layout(items, i, b);
    lemma_stands_index(items, i, a.syntax(), 1);
    lemma_stands_index(items, i, b.syntax(), 1);
    assert(a.name@ == b.name@);
    lemma_proc_block_found(items, i + 2 + vars, a.procedure_defs);
    lemma_proc_block_found(
        items,
        i + 2 + var_block_syntax(b.var_defs).len(),
        b.procedure_defs,
    );
    lemma_var_block_same(items, i + 2, a.var_defs, b.var_defs);
    lemma_proc_block_same(items, i + 2 + vars, a.procedure_defs, b.procedure_defs);
    lemma_body_same(items, i + 2 + vars + procs, a.body@, b.body@);
}

/// Two well-formed programs that are written with the same terminals are
/// rendered as the same text.
pub proof fn lemma_program_unique(a: Program, b: Program)
    requires
        a.wf(),
        b.wf(),
        a.syntax() == b.syntax(),
    ensures
        a.same(b),
        a.text() == b.text(),
{
    let s = a.syntax();
    assert(s.subrange(0, s.len() as int) =~= s);
    lemma_program_same(s, 0, a, b);
}

} // verus!
