//! Programs, declarations and procedures: the syntax tree, its grammar,
//! its rendering and its parser.
use crate::derivation::lemma_program_complete;
use crate::expr::{expect, follows, Scan};
use crate::stm::{
    block_syntax, block_text, block_to_tokens, body_wf, parse_stm_list, same_block,
    scan_stm_list, Stmatment,
};
use crate::symbol::{
    error_in, name_item, name_text, plain, source_items, source_tokens, symbol_at, whole, Item,
    ParseBuffer, ParseError, Symbol,
};
use crate::text::byte_len;
use crate::unique::lemma_program_unique;
use vstd::prelude::*;
use vstd::string::*;

verus! {

#[derive(Debug, PartialEq, Eq)]
pub struct Program {
    pub name: String,
    pub var_defs: Option<Vec<VarDef>>,
    pub procedure_defs: Option<Vec<ProcedureDef>>,
    pub body: Vec<Stmatment>,
}

/// One declaration: a type and the names declared with it.
#[derive(Debug, PartialEq, Eq)]
pub enum VarDef {
    CharTyVar(CharTyVarDef),
    IntTyVar(IntTyVarDef),
}

#[derive(Debug, PartialEq, Eq)]
pub struct CharTyVarDef {
    pub names: Vec<String>,
}

#[derive(Debug, PartialEq, Eq)]
pub struct IntTyVarDef {
    pub names: Vec<String>,
}

/// One parameter of a procedure.
#[derive(Debug, PartialEq, Eq)]
pub enum ParamDecl {
    CharTyParam(CharTyParamDecl),
    IntTyParam(IntTyParamDecl),
}

#[derive(Debug, PartialEq, Eq)]
pub struct CharTyParamDecl {
    pub name: String,
}

#[derive(Debug, PartialEq, Eq)]
pub struct IntTyParamDecl {
    pub name: String,
}

#[derive(Debug, PartialEq, Eq)]
pub struct ProcedureDef {
    pub name: String,
    pub params: Vec<ParamDecl>,
    pub var_defs: Option<Vec<VarDef>>,
    pub body: Vec<Stmatment>,
}

/// The symbols at which a list of declarations ends.
pub open spec fn maybe_end(symbol: Symbol) -> bool {
    symbol == Symbol::Begin || symbol == Symbol::Procedure
}

pub open spec fn is_type(symbol: Symbol) -> bool {
    symbol == Symbol::CharTy || symbol == Symbol::IntegerTy
}

/// IDENT (',' IDENT)*
pub open spec fn scan_names(items: Seq<Item>, i: int) -> Scan
    decreases items.len() - i,
{
    if symbol_at(items, i) != Symbol::Ident {
        Err(i)
    } else if symbol_at(items, i + 1) == Symbol::Comma {
        scan_names(items, i + 2)
    } else {
        Ok(i + 1)
    }
}

/// VarDef := ('char' | 'integer') IDENT (',' IDENT)*, by the type word.
pub open spec fn scan_typed_names(items: Seq<Item>, i: int, ty: Symbol) -> Scan {
    if symbol_at(items, i) != ty {
        Err(i)
    } else {
        scan_names(items, i + 1)
    }
}

pub open spec fn scan_vardef(items: Seq<Item>, i: int) -> Scan {
    if is_type(symbol_at(items, i)) {
        scan_names(items, i + 1)
    } else {
        Err(i)
    }
}

/// (VarDef ';')+
///
/// The list ends behind a `;` where `begin` or `procedure` follows or the
/// input is over.
pub open spec fn scan_vardefs(items: Seq<Item>, i: int) -> Scan
    decreases items.len() - i,
{
    match scan_vardef(items, i) {
        Ok(n) => if symbol_at(items, n) != Symbol::Semicolon {
            Err(n)
        } else if maybe_end(symbol_at(items, n + 1)) || symbol_at(items, n + 1) == Symbol::Eof
            || n < i {
            Ok(n + 1)
        } else {
            scan_vardefs(items, n + 1)
        },
        Err(e) => Err(e),
    }
}

/// VarBlock? := ('var' (VarDef ';')+)?
pub open spec fn scan_var_block(items: Seq<Item>, i: int) -> Scan {
    if symbol_at(items, i) == Symbol::Var {
        scan_vardefs(items, i + 1)
    } else {
        Ok(i)
    }
}

/// ParamDecl := ('char' | 'integer') IDENT, by the type word.
pub open spec fn scan_typed_param(items: Seq<Item>, i: int, ty: Symbol) -> Scan {
    if symbol_at(items, i) != ty {
        Err(i)
    } else {
        expect(items, i + 1, Symbol::Ident)
    }
}

pub open spec fn scan_param(items: Seq<Item>, i: int) -> Scan {
    if is_type(symbol_at(items, i)) {
        expect(items, i + 1, Symbol::Ident)
    } else {
        Err(i)
    }
}

/// ParamDecl (',' ParamDecl)*
pub open spec fn scan_params(items: Seq<Item>, i: int) -> Scan
    decreases items.len() - i,
{
    match scan_param(items, i) {
        Ok(n) => if symbol_at(items, n) == Symbol::Comma && i < n {
            scan_params(items, n + 1)
        } else {
            Ok(n)
        },
        Err(e) => Err(e),
    }
}

/// '(' ParamList? ')'
pub open spec fn scan_param_block(items: Seq<Item>, i: int) -> Scan {
    if symbol_at(items, i) != Symbol::OpenParen {
        Err(i)
    } else if symbol_at(items, i + 1) == Symbol::CloseParen {
        Ok(i + 2)
    } else {
        match scan_params(items, i + 1) {
            Ok(n) => expect(items, n, Symbol::CloseParen),
            Err(e) => Err(e),
        }
    }
}

/// 'begin' StmList
pub open spec fn scan_body(items: Seq<Item>, i: int) -> Scan {
    if symbol_at(items, i) != Symbol::Begin {
        Err(i)
    } else {
        scan_stm_list(items, i + 1)
    }
}

/// ProcedureDef := 'procedure' IDENT '(' ParamList? ')' VarBlock? 'begin' StmList
pub open spec fn scan_procedure(items: Seq<Item>, i: int) -> Scan {
    if symbol_at(items, i) != Symbol::Procedure {
        Err(i)
    } else if symbol_at(items, i + 1) != Symbol::Ident {
        Err(i + 1)
    } else {
        match scan_param_block(items, i + 2) {
            Ok(p) => match scan_var_block(items, p) {
                Ok(v) => scan_body(items, v),
                Err(e) => Err(e),
            },
            Err(e) => Err(e),
        }
    }
}

/// ProcedureDef+
///
/// The list goes on exactly as long as `procedure` follows.
pub open spec fn scan_procedures(items: Seq<Item>, i: int) -> Scan
    decreases items.len() - i,
{
    match scan_procedure(items, i) {
        Ok(n) => if symbol_at(items, n) == Symbol::Procedure && i < n {
            scan_procedures(items, n)
        } else {
            Ok(n)
        },
        Err(e) => Err(e),
    }
}

/// ProcBlock?
pub open spec fn scan_proc_block(items: Seq<Item>, i: int) -> Scan {
    if symbol_at(items, i) == Symbol::Procedure {
        scan_procedures(items, i)
    } else {
        Ok(i)
    }
}

/// Program := 'program' IDENT VarBlock? ProcBlock? 'begin' StmList 'end' '.'
pub open spec fn scan_program(items: Seq<Item>, i: int) -> Scan {
    if symbol_at(items, i) != Symbol::Program {
        Err(i)
    } else if symbol_at(items, i + 1) != Symbol::Ident {
        Err(i + 1)
    } else {
        match scan_var_block(items, i + 2) {
            Ok(v) => match scan_proc_block(items, v) {
                Ok(p) => match scan_body(items, p) {
                    Ok(b) => if symbol_at(items, b) != Symbol::End {
                        Err(b)
                    } else {
                        expect(items, b + 1, Symbol::Dot)
                    },
                    Err(e) => Err(e),
                },
                Err(e) => Err(e),
            },
            Err(e) => Err(e),
        }
    }
}

/// The terminals of the first `n` names, with a comma between neighbours.
pub open spec fn names_syntax(names: Seq<String>, n: nat) -> Seq<Item>
    decreases n,
{
    if n == 0 || n > names.len() {
        Seq::empty()
    } else if n == 1 {
        seq![name_item(names[0]@)]
    } else {
        names_syntax(names, (n - 1) as nat) + seq![
            plain(Symbol::Comma),
            name_item(names[n - 1]@),
        ]
    }
}

/// The first `n` names are well formed.
pub open spec fn names_wf(names: Seq<String>, n: nat) -> bool
    decreases n,
{
    if n == 0 || n > names.len() {
        true
    } else {
        names_wf(names, (n - 1) as nat) && name_text(names[n - 1]@)
    }
}

/// One `let mut name = init; ` for each of the first `n` names.
pub open spec fn lets_text(names: Seq<String>, n: nat, init: Seq<char>) -> Seq<char>
    decreases n,
{
    if n == 0 || n > names.len() {
        Seq::empty()
    } else {
        lets_text(names, (n - 1) as nat, init) + "let mut "@ + names[n - 1]@ + " = "@ + init
            + "; "@
    }
}

pub proof fn lemma_names_prefix(a: Seq<String>, b: Seq<String>, n: nat, init: Seq<char>)
    requires
        n <= a.len(),
        n <= b.len(),
        forall|i: int| 0 <= i < n ==> a[i] == b[i],
    ensures
        names_syntax(a, n) == names_syntax(b, n),
        names_wf(a, n) == names_wf(b, n),
        lets_text(a, n, init) == lets_text(b, n, init),
    decreases n,
{
    if n > 0 {
        lemma_names_prefix(a, b, (n - 1) as nat, init);
    }
}

/// The first `n` names of `xs` and of `ys` are the same, one by one.
pub open spec fn same_names(xs: Seq<String>, ys: Seq<String>, n: nat) -> bool
    decreases n,
{
    if n == 0 {
        true
    } else if n > xs.len() || n > ys.len() {
        false
    } else {
        same_names(xs, ys, (n - 1) as nat) && xs[n - 1]@ == ys[n - 1]@
    }
}

/// The first `n` declarations of `xs` and of `ys` are the same, one by one.
pub open spec fn same_vardefs(xs: Seq<VarDef>, ys: Seq<VarDef>, n: nat) -> bool
    decreases n,
{
    if n == 0 {
        true
    } else if n > xs.len() || n > ys.len() {
        false
    } else {
        same_vardefs(xs, ys, (n - 1) as nat) && xs[n - 1].same(ys[n - 1])
    }
}

/// Both blocks of declarations are missing, or both are there and the same.
pub open spec fn same_var_block(a: Option<Vec<VarDef>>, b: Option<Vec<VarDef>>) -> bool {
    match a {
        Some(x) => b matches Some(y) && x@.len() == y@.len() && same_vardefs(x@, y@, x@.len()),
        None => b is None,
    }
}

/// The first `n` parameters of `xs` and of `ys` are the same, one by one.
pub open spec fn same_params(xs: Seq<ParamDecl>, ys: Seq<ParamDecl>, n: nat) -> bool
    decreases n,
{
    if n == 0 {
        true
    } else if n > xs.len() || n > ys.len() {
        false
    } else {
        same_params(xs, ys, (n - 1) as nat) && xs[n - 1].same(ys[n - 1])
    }
}

/// The first `n` procedures of `xs` and of `ys` are the same, one by one.
pub open spec fn same_procs(xs: Seq<ProcedureDef>, ys: Seq<ProcedureDef>, n: nat) -> bool
    decreases n,
{
    if n == 0 {
        true
    } else if n > xs.len() || n > ys.len() {
        false
    } else {
        same_procs(xs, ys, (n - 1) as nat) && xs[n - 1].same(ys[n - 1])
    }
}

/// Both lists of procedures are missing, or both are there and the same.
pub open spec fn same_proc_block(
    a: Option<Vec<ProcedureDef>>,
    b: Option<Vec<ProcedureDef>>,
) -> bool {
    match a {
        Some(x) => b matches Some(y) && x@.len() == y@.len() && same_procs(x@, y@, x@.len()),
        None => b is None,
    }
}

impl VarDef {
    /// The two declarations have the same type and the same names.
    pub open spec fn same(self, other: VarDef) -> bool {
        self.ty() == other.ty() && self.names().len() == other.names().len() && same_names(
            self.names(),
            other.names(),
            self.names().len(),
        )
    }

    /// The names that the declaration declares.
    pub open spec fn names(self) -> Seq<String> {
        match self {
            VarDef::CharTyVar(d) => d.names@,
            VarDef::IntTyVar(d) => d.names@,
        }
    }

    /// The type word of the declaration.
    pub open spec fn ty(self) -> Symbol {
        match self {
            VarDef::CharTyVar(_) => Symbol::CharTy,
            VarDef::IntTyVar(_) => Symbol::IntegerTy,
        }
    }

    /// The value that the emitted program starts each name with.
    pub open spec fn init(self) -> Seq<char> {
        match self {
            VarDef::CharTyVar(_) => "'\\0'"@,
            VarDef::IntTyVar(_) => "0"@,
        }
    }

    /// At least one name, every name well formed.
    pub open spec fn wf(self) -> bool {
        self.names().len() >= 1 && names_wf(self.names(), self.names().len())
    }

    pub open spec fn syntax(self) -> Seq<Item> {
        seq![plain(self.ty())] + names_syntax(self.names(), self.names().len())
    }

    /// One mutable binding for each name, in the order of declaration.
    pub open spec fn text(self) -> Seq<char> {
        lets_text(self.names(), self.names().len(), self.init())
    }

    pub fn to_tokens(&self, tokens: &mut String)
        ensures
            final(tokens)@ == old(tokens)@ + self.text(),
    {
        match self {
            VarDef::CharTyVar(var_def) => var_def.to_tokens(tokens),
            VarDef::IntTyVar(var_def) => var_def.to_tokens(tokens),
        }
    }

    /// Reads one declaration, by its type word.
    pub fn parse(input: &ParseBuffer, start: usize) -> (r: Result<(VarDef, usize), ParseError>)
        requires
            input.wf(),
            start <= input.items().len(),
        ensures
            follows(input, start as int, scan_vardef(input.items(), start as int), r),
            r matches Ok((d, n)) ==> d.wf() && d.syntax() == input.items().subrange(
                start as int,
                n as int,
            ),
    {
        match input.peek(start) {
            Symbol::CharTy => match CharTyVarDef::parse(input, start) {
                Ok((def, n)) => Ok((VarDef::CharTyVar(def), n)),
                Err(e) => Err(e),
            },
            Symbol::IntegerTy => match IntTyVarDef::parse(input, start) {
                Ok((def, n)) => Ok((VarDef::IntTyVar(def), n)),
                Err(e) => Err(e),
            },
            _ => Err(input.error(start)),
        }
    }
}

/// Appends `let mut name = init; ` for each of `names`.
fn lets_to_tokens(names: &Vec<String>, init: &str, tokens: &mut String)
    ensures
        final(tokens)@ == old(tokens)@ + lets_text(names@, names@.len(), init@),
{
    let ghost before = tokens@;
    let mut i: usize = 0;
    while i < names.len()
        invariant
            i <= names.len(),
            tokens@ == before + lets_text(names@, i as nat, init@),
        decreases names.len() - i,
    {
        tokens.append("let mut ");
        tokens.append(names[i].as_str());
        tokens.append(" = ");
        tokens.append(init);
        tokens.append("; ");
        i += 1;
    }
}

/// Reads the names of one declaration: one identifier, and one more
/// behind every comma.
pub fn parse_ident_within_vardef(input: &ParseBuffer, start: usize) -> (r: Result<
    (Vec<String>, usize),
    ParseError,
>)
    requires
        input.wf(),
        start <= input.items().len(),
    ensures
        follows(input, start as int, scan_names(input.items(), start as int), r),
        r matches Ok((names, n)) ==> names@.len() >= 1 && names_wf(names@, names@.len())
            && names_syntax(names@, names@.len()) == input.items().subrange(
            start as int,
            n as int,
        ),
{
    let ghost items = input.items();
    let mut idents: Vec<String> = Vec::new();
    let mut cur = start;
    let total = input.len();
    loop
        invariant
            input.wf(),
            items == input.items(),
            start <= cur <= items.len(),
            items.len() == total,
            scan_names(items, cur as int) == scan_names(items, start as int),
            names_wf(idents@, idents@.len()),
            idents@.len() == 0 <==> cur == start,
            items.subrange(start as int, cur as int) == if idents@.len() == 0 {
                Seq::<Item>::empty()
            } else {
                names_syntax(idents@, idents@.len()) + seq![plain(Symbol::Comma)]
            },
        decreases items.len() - cur,
    {
        if input.peek(cur) != Symbol::Ident {
            return Err(input.error(cur));
        }
        let ident = input.lexeme(cur);
        let ghost before = idents@;
        idents.push(ident);
        proof {
            lemma_names_prefix(before, idents@, before.len(), Seq::empty());
            assert(names_wf(idents@, idents@.len()));
            assert(names_syntax(idents@, idents@.len()) =~= items.subrange(
                start as int,
                cur + 1,
            )) by {
                assert(items.subrange(start as int, cur + 1) =~= items.subrange(
                    start as int,
                    cur as int,
                ) + seq![items[cur as int]]);
            }
        }
        if input.peek(cur + 1) == Symbol::Comma {
            proof {
                assert(items.subrange(start as int, cur + 2) =~= items.subrange(
                    start as int,
                    cur + 1,
                ) + seq![plain(Symbol::Comma)]);
            }
            cur = cur + 2;
        } else {
            return Ok((idents, cur + 1));
        }
    }
}

impl CharTyVarDef {
    pub fn to_tokens(&self, tokens: &mut String)
        ensures
            final(tokens)@ == old(tokens)@ + VarDef::CharTyVar(*self).text(),
    {
        lets_to_tokens(&self.names, "'\\0'", tokens);
    }

    /// Reads `char` and the names declared with it.
    pub fn parse(input: &ParseBuffer, start: usize) -> (r: Result<
        (CharTyVarDef, usize),
        ParseError,
    >)
        requires
            input.wf(),
            start <= input.items().len(),
        ensures
            follows(
                input,
                start as int,
                scan_typed_names(input.items(), start as int, Symbol::CharTy),
                r,
            ),
            r matches Ok((d, n)) ==> VarDef::CharTyVar(d).wf() && VarDef::CharTyVar(d).syntax()
                == input.items().subrange(start as int, n as int),
    {
        if input.peek(start) != Symbol::CharTy {
            return Err(input.error(start));
        }
        match parse_ident_within_vardef(input, start + 1) {
            Ok((names, n)) => {
                proof {
                    assert(input.items().subrange(start as int, n as int) =~= seq![
                        plain(Symbol::CharTy),
                    ] + input.items().subrange(start + 1, n as int));
                }
                Ok((CharTyVarDef { names }, n))
            },
            Err(e) => Err(e),
        }
    }
}

impl IntTyVarDef {
    pub fn to_tokens(&self, tokens: &mut String)
        ensures
            final(tokens)@ == old(tokens)@ + VarDef::IntTyVar(*self).text(),
    {
        lets_to_tokens(&self.names, "0", tokens);
    }

    /// Reads `integer` and the names declared with it.
    pub fn parse(input: &ParseBuffer, start: usize) -> (r: Result<(IntTyVarDef, usize), ParseError>)
        requires
            input.wf(),
            start <= input.items().len(),
        ensures
            follows(
                input,
                start as int,
                scan_typed_names(input.items(), start as int, Symbol::IntegerTy),
                r,
            ),
            r matches Ok((d, n)) ==> VarDef::IntTyVar(d).wf() && VarDef::IntTyVar(d).syntax()
                == input.items().subrange(start as int, n as int),
    {
        if input.peek(start) != Symbol::IntegerTy {
            return Err(input.error(start));
        }
        match parse_ident_within_vardef(input, start + 1) {
            Ok((names, n)) => {
                proof {
                    assert(input.items().subrange(start as int, n as int) =~= seq![
                        plain(Symbol::IntegerTy),
                    ] + input.items().subrange(start + 1, n as int));
                }
                Ok((IntTyVarDef { names }, n))
            },
            Err(e) => Err(e),
        }
    }
}

/// The terminals of the first `n` declarations, each followed by a semicolon.
pub open spec fn vardefs_syntax(defs: Seq<VarDef>, n: nat) -> Seq<Item>
    decreases n,
{
    if n == 0 || n > defs.len() {
        Seq::empty()
    } else {
        vardefs_syntax(defs, (n - 1) as nat) + defs[n - 1].syntax() + seq![
            plain(Symbol::Semicolon),
        ]
    }
}

pub open spec fn vardefs_wf(defs: Seq<VarDef>, n: nat) -> bool
    decreases n,
{
    if n == 0 || n > defs.len() {
        true
    } else {
        vardefs_wf(defs, (n - 1) as nat) && defs[n - 1].wf()
    }
}

/// The bindings of the first `n` declarations, in order.
pub open spec fn vardefs_text(defs: Seq<VarDef>, n: nat) -> Seq<char>
    decreases n,
{
    if n == 0 || n > defs.len() {
        Seq::empty()
    } else {
        vardefs_text(defs, (n - 1) as nat) + defs[n - 1].text()
    }
}

pub proof fn lemma_vardefs_prefix(a: Seq<VarDef>, b: Seq<VarDef>, n: nat)
    requires
        n <= a.len(),
        n <= b.len(),
        forall|i: int| 0 <= i < n ==> a[i] == b[i],
    ensures
        vardefs_syntax(a, n) == vardefs_syntax(b, n),
        vardefs_wf(a, n) == vardefs_wf(b, n),
        vardefs_text(a, n) == vardefs_text(b, n),
    decreases n,
{
    if n > 0 {
        lemma_vardefs_prefix(a, b, (n - 1) as nat);
    }
}

/// A block of declarations, if there is one: `var` and at least one
/// declaration.
pub open spec fn var_block_wf(block: Option<Vec<VarDef>>) -> bool {
    match block {
        Some(defs) => defs@.len() >= 1 && vardefs_wf(defs@, defs@.len()),
        None => true,
    }
}

pub open spec fn var_block_syntax(block: Option<Vec<VarDef>>) -> Seq<Item> {
    match block {
        Some(defs) => seq![plain(Symbol::Var)] + vardefs_syntax(defs@, defs@.len()),
        None => Seq::empty(),
    }
}

pub open spec fn var_block_text(block: Option<Vec<VarDef>>) -> Seq<char> {
    match block {
        Some(defs) => vardefs_text(defs@, defs@.len()),
        None => Seq::empty(),
    }
}

/// True if the token at `at` ends a list of declarations.
pub fn is_maybe_end(input: &ParseBuffer, at: usize) -> (res: bool)
    requires
        input.wf(),
    ensures
        res == maybe_end(symbol_at(input.items(), at as int)),
{
    input.peek(at) == Symbol::Begin || input.peek(at) == Symbol::Procedure
}

/// Reads the declarations behind `var`: a declaration and a `;`, again
/// and again until `begin` or `procedure` follows or the input is over.
#[verifier::rlimit(40)]
pub fn parse_vardef_within(input: &ParseBuffer, start: usize) -> (r: Result<
    (Vec<VarDef>, usize),
    ParseError,
>)
    requires
        input.wf(),
        start <= input.items().len(),
    ensures
        follows(input, start as int, scan_vardefs(input.items(), start as int), r),
        r matches Ok((defs, n)) ==> defs@.len() >= 1 && vardefs_wf(defs@, defs@.len())
            && vardefs_syntax(defs@, defs@.len()) == input.items().subrange(
            start as int,
            n as int,
        ),
{
    let ghost items = input.items();
    let mut var_defs: Vec<VarDef> = Vec::new();
    let mut cur = start;
    let total = input.len();
    loop
        invariant
            input.wf(),
            items == input.items(),
            start <= cur <= items.len(),
            items.len() == total,
            scan_vardefs(items, cur as int) == scan_vardefs(items, start as int),
            vardefs_wf(var_defs@, var_defs@.len()),
            var_defs@.len() == 0 <==> cur == start,
            items.subrange(start as int, cur as int) == vardefs_syntax(
                var_defs@,
                var_defs@.len(),
            ),
        decreases items.len() - cur,
    {
        let (var_def, next) = match VarDef::parse(input, cur) {
            Ok(found) => found,
            Err(e) => {
                return Err(e);
            },
        };
        if input.peek(next) != Symbol::Semicolon {
            return Err(input.error(next));
        }
        let ghost before = var_defs@;
        var_defs.push(var_def);
        proof {
            lemma_vardefs_prefix(before, var_defs@, before.len());
            assert(vardefs_wf(var_defs@, var_defs@.len()));
            assert(vardefs_syntax(var_defs@, var_defs@.len()) =~= items.subrange(
                start as int,
                next + 1,
            )) by {
                assert(items.subrange(start as int, next + 1) =~= items.subrange(
                    start as int,
                    cur as int,
                ) + items.subrange(cur as int, next as int) + seq![plain(Symbol::Semicolon)]);
            }
        }
        cur = next + 1;
        if is_maybe_end(input, cur) || cur >= total {
            return Ok((var_defs, cur));
        }
    }
}

/// Reads a block of declarations if `var` stands at `start`.
fn parse_var_block(input: &ParseBuffer, start: usize) -> (r: Result<
    (Option<Vec<VarDef>>, usize),
    ParseError,
>)
    requires
        input.wf(),
        start <= input.items().len(),
    ensures
        match r {
            Ok((block, n)) => scan_var_block(input.items(), start as int) == Ok::<int, int>(
                n as int,
            ) && start <= n <= input.items().len() && var_block_wf(block) && var_block_syntax(
                block,
            ) == input.items().subrange(start as int, n as int),
            Err(e) => scan_var_block(input.items(), start as int) == Err::<int, int>(
                e.index as int,
            ) && start <= e.index <= input.items().len() && e == input.error_at(e.index as int),
        },
{
    if input.peek(start) == Symbol::Var {
        match parse_vardef_within(input, start + 1) {
            Ok((defs, n)) => {
                proof {
                    assert(input.items().subrange(start as int, n as int) =~= seq![
                        plain(Symbol::Var),
                    ] + input.items().subrange(start + 1, n as int));
                }
                Ok((Some(defs), n))
            },
            Err(e) => Err(e),
        }
    } else {
        proof {
            assert(input.items().subrange(start as int, start as int) =~= Seq::<Item>::empty());
        }
        Ok((None, start))
    }
}

impl ParamDecl {
    /// The two parameters have the same type and the same name.
    pub open spec fn same(self, other: ParamDecl) -> bool {
        self.ty() == other.ty() && self.name() == other.name()
    }

    pub open spec fn name(self) -> Seq<char> {
        match self {
            ParamDecl::CharTyParam(p) => p.name@,
            ParamDecl::IntTyParam(p) => p.name@,
        }
    }

    /// The type word of the parameter.
    pub open spec fn ty(self) -> Symbol {
        match self {
            ParamDecl::CharTyParam(_) => Symbol::CharTy,
            ParamDecl::IntTyParam(_) => Symbol::IntegerTy,
        }
    }

    /// The type as the emitted program writes it.
    pub open spec fn host_type(self) -> Seq<char> {
        match self {
            ParamDecl::CharTyParam(_) => "char"@,
            ParamDecl::IntTyParam(_) => "i32"@,
        }
    }

    pub open spec fn wf(self) -> bool {
        name_text(self.name())
    }

    pub open spec fn syntax(self) -> Seq<Item> {
        seq![plain(self.ty()), name_item(self.name())]
    }

    /// `name: type`
    pub open spec fn text(self) -> Seq<char> {
        self.name() + ": "@ + self.host_type()
    }

    pub fn to_tokens(&self, tokens: &mut String)
        ensures
            final(tokens)@ == old(tokens)@ + self.text(),
    {
        match self {
            ParamDecl::CharTyParam(x) => x.to_tokens(tokens),
            ParamDecl::IntTyParam(x) => x.to_tokens(tokens),
        }
    }

    /// Reads one parameter, by its type word.
    pub fn parse(input: &ParseBuffer, start: usize) -> (r: Result<(ParamDecl, usize), ParseError>)
        requires
            input.wf(),
            start <= input.items().len(),
        ensures
            follows(input, start as int, scan_param(input.items(), start as int), r),
            r matches Ok((p, n)) ==> n == start + 2 && p.wf() && p.syntax()
                == input.items().subrange(start as int, n as int),
    {
        match input.peek(start) {
            Symbol::CharTy => match CharTyParamDecl::parse(input, start) {
                Ok((param, n)) => Ok((ParamDecl::CharTyParam(param), n)),
                Err(e) => Err(e),
            },
            Symbol::IntegerTy => match IntTyParamDecl::parse(input, start) {
                Ok((param, n)) => Ok((ParamDecl::IntTyParam(param), n)),
                Err(e) => Err(e),
            },
            _ => Err(input.error(start)),
        }
    }
}

impl CharTyParamDecl {
    pub fn to_tokens(&self, tokens: &mut String)
        ensures
            final(tokens)@ == old(tokens)@ + ParamDecl::CharTyParam(*self).text(),
    {
        tokens.append(self.name.as_str());
        tokens.append(": ");
        tokens.append("char");
    }

    /// Reads `char name`.
    pub fn parse(input: &ParseBuffer, start: usize) -> (r: Result<
        (CharTyParamDecl, usize),
        ParseError,
    >)
        requires
            input.wf(),
            start <= input.items().len(),
        ensures
            follows(
                input,
                start as int,
                scan_typed_param(input.items(), start as int, Symbol::CharTy),
                r,
            ),
            r matches Ok((p, n)) ==> n == start + 2 && ParamDecl::CharTyParam(p).wf()
                && ParamDecl::CharTyParam(p).syntax() == input.items().subrange(
                start as int,
                n as int,
            ),
    {
        if input.peek(start) != Symbol::CharTy {
            return Err(input.error(start));
        }
        if input.peek(start + 1) != Symbol::Ident {
            return Err(input.error(start + 1));
        }
        let name = input.lexeme(start + 1);
        proof {
            assert(input.items().subrange(start as int, start + 2) =~= seq![
                plain(Symbol::CharTy),
                name_item(name@),
            ]);
        }
        Ok((CharTyParamDecl { name }, start + 2))
    }
}

impl IntTyParamDecl {
    pub fn to_tokens(&self, tokens: &mut String)
        ensures
            final(tokens)@ == old(tokens)@ + ParamDecl::IntTyParam(*self).text(),
    {
        tokens.append(self.name.as_str());
        tokens.append(": ");
        tokens.append("i32");
    }

    /// Reads `integer name`.
    pub fn parse(input: &ParseBuffer, start: usize) -> (r: Result<
        (IntTyParamDecl, usize),
        ParseError,
    >)
        requires
            input.wf(),
            start <= input.items().len(),
        ensures
            follows(
                input,
                start as int,
                scan_typed_param(input.items(), start as int, Symbol::IntegerTy),
                r,
            ),
            r matches Ok((p, n)) ==> n == start + 2 && ParamDecl::IntTyParam(p).wf()
                && ParamDecl::IntTyParam(p).syntax() == input.items().subrange(
                start as int,
                n as int,
            ),
    {
        if input.peek(start) != Symbol::IntegerTy {
            return Err(input.error(start));
        }
        if input.peek(start + 1) != Symbol::Ident {
            return Err(input.error(start + 1));
        }
        let name = input.lexeme(start + 1);
        proof {
            assert(input.items().subrange(start as int, start + 2) =~= seq![
                plain(Symbol::IntegerTy),
                name_item(name@),
            ]);
        }
        Ok((IntTyParamDecl { name }, start + 2))
    }
}

/// A parameter is bound under its own name, a `char` parameter with the
/// host type `char` and an `integer` parameter with the host type `i32`.
pub proof fn lemma_param_text(p: ParamDecl)
    ensures
        p.text() == p.name() + seq![':', ' '] + if p is CharTyParam {
            seq!['c', 'h', 'a', 'r']
        } else {
            seq!['i', '3', '2']
        },
{
    reveal_strlit(": ");
    reveal_strlit("char");
    reveal_strlit("i32");
    assert(": "@ =~= seq![':', ' ']);
    assert("char"@ =~= seq!['c', 'h', 'a', 'r']);
    assert("i32"@ =~= seq!['i', '3', '2']);
}

/// The parameters of a procedure are bound in the order of declaration:
/// the bindings of the first `n` are those of the first `n - 1`, a comma,
/// and the binding of parameter `n - 1`.
pub proof fn lemma_params_in_order(params: Seq<ParamDecl>, n: nat)
    requires
        2 <= n <= params.len(),
    ensures
        params_text(params, n) == params_text(params, (n - 1) as nat) + ", "@ + params[n
            - 1].text(),
        params_text(params, 1) == params[0].text(),
{
}

/// The terminals of the first `n` parameters, with a comma between
/// neighbours.
pub open spec fn params_syntax(params: Seq<ParamDecl>, n: nat) -> Seq<Item>
    decreases n,
{
    if n == 0 || n > params.len() {
        Seq::empty()
    } else if n == 1 {
        params[0].syntax()
    } else {
        params_syntax(params, (n - 1) as nat) + seq![plain(Symbol::Comma)] + params[n
            - 1].syntax()
    }
}

pub open spec fn params_wf(params: Seq<ParamDecl>, n: nat) -> bool
    decreases n,
{
    if n == 0 || n > params.len() {
        true
    } else {
        params_wf(params, (n - 1) as nat) && params[n - 1].wf()
    }
}

/// The first `n` parameters as the emitted program binds them, in the
/// order of declaration, with `, ` between neighbours.
pub open spec fn params_text(params: Seq<ParamDecl>, n: nat) -> Seq<char>
    decreases n,
{
    if n == 0 || n > params.len() {
        Seq::empty()
    } else if n == 1 {
        params[0].text()
    } else {
        params_text(params, (n - 1) as nat) + ", "@ + params[n - 1].text()
    }
}

pub proof fn lemma_params_prefix(a: Seq<ParamDecl>, b: Seq<ParamDecl>, n: nat)
    requires
        n <= a.len(),
        n <= b.len(),
        forall|i: int| 0 <= i < n ==> a[i] == b[i],
    ensures
        params_syntax(a, n) == params_syntax(b, n),
        params_wf(a, n) == params_wf(b, n),
        params_text(a, n) == params_text(b, n),
    decreases n,
{
    if n > 0 {
        lemma_params_prefix(a, b, (n - 1) as nat);
    }
}

/// Reads `(` and the parameters up to `)`. The list may be empty; a comma
/// must be followed by another parameter.
#[verifier::rlimit(40)]
fn parse_param_block(input: &ParseBuffer, start: usize) -> (r: Result<
    (Vec<ParamDecl>, usize),
    ParseError,
>)
    requires
        input.wf(),
        start <= input.items().len(),
    ensures
        follows(input, start as int, scan_param_block(input.items(), start as int), r),
        r matches Ok((params, n)) ==> params_wf(params@, params@.len()) && seq![
            plain(Symbol::OpenParen),
        ] + params_syntax(params@, params@.len()) + seq![plain(Symbol::CloseParen)]
            == input.items().subrange(start as int, n as int),
{
    let ghost items = input.items();
    if input.peek(start) != Symbol::OpenParen {
        return Err(input.error(start));
    }
    let mut params: Vec<ParamDecl> = Vec::new();
    let first = start + 1;
    if input.peek(first) == Symbol::CloseParen {
        proof {
            assert(items.subrange(start as int, first + 1) =~= seq![plain(Symbol::OpenParen)]
                + Seq::<Item>::empty() + seq![plain(Symbol::CloseParen)]);
        }
        return Ok((params, first + 1));
    }
    let mut cur = first;
    let total = input.len();
    loop
        invariant
            input.wf(),
            items == input.items(),
            start + 1 == first <= cur <= items.len(),
            items.len() == total,
            items[start as int] == plain(Symbol::OpenParen),
            symbol_at(items, start as int) == Symbol::OpenParen,
            symbol_at(items, start + 1) != Symbol::CloseParen,
            scan_params(items, cur as int) == scan_params(items, first as int),
            params_wf(params@, params@.len()),
            params@.len() == 0 <==> cur == first,
            items.subrange(first as int, cur as int) == if params@.len() == 0 {
                Seq::<Item>::empty()
            } else {
                params_syntax(params@, params@.len()) + seq![plain(Symbol::Comma)]
            },
        decreases items.len() - cur,
    {
        let (param, next) = match ParamDecl::parse(input, cur) {
            Ok(found) => found,
            Err(e) => {
                return Err(e);
            },
        };
        let ghost before = params@;
        params.push(param);
        proof {
            lemma_params_prefix(before, params@, before.len());
            assert(params_wf(params@, params@.len()));
            assert(params_syntax(params@, params@.len()) =~= items.subrange(
                first as int,
                next as int,
            )) by {
                assert(items.subrange(first as int, next as int) =~= items.subrange(
                    first as int,
                    cur as int,
                ) + items.subrange(cur as int, next as int));
            }
        }
        if input.peek(next) == Symbol::Comma {
            proof {
                assert(items.subrange(first as int, next + 1) =~= items.subrange(
                    first as int,
                    next as int,
                ) + seq![plain(Symbol::Comma)]);
            }
            cur = next + 1;
        } else if input.peek(next) == Symbol::CloseParen {
            proof {
                assert(items.subrange(start as int, next + 1) =~= seq![plain(Symbol::OpenParen)]
                    + items.subrange(first as int, next as int) + seq![
                    plain(Symbol::CloseParen),
                ]);
            }
            return Ok((params, next + 1));
        } else {
            return Err(input.error(next));
        }
    }
}

/// Reads `begin` and the statement list behind it.
fn parse_body(input: &ParseBuffer, start: usize) -> (r: Result<
    (Vec<Stmatment>, usize),
    ParseError,
>)
    requires
        input.wf(),
        start <= input.items().len(),
    ensures
        follows(input, start as int, scan_body(input.items(), start as int), r),
        r matches Ok((stms, n)) ==> body_wf(stms@) && seq![plain(Symbol::Begin)] + block_syntax(
            stms@,
            stms@.len(),
        ) == input.items().subrange(start as int, n as int),
{
    if input.peek(start) != Symbol::Begin {
        return Err(input.error(start));
    }
    match parse_stm_list(input, start + 1) {
        Ok((stms, n)) => {
            proof {
                assert(input.items().subrange(start as int, n as int) =~= seq![
                    plain(Symbol::Begin),
                ] + input.items().subrange(start + 1, n as int));
            }
            Ok((stms, n))
        },
        Err(e) => Err(e),
    }
}

/// A procedure whose parts lie one behind the other in `items` is written
/// as the whole run.
proof fn lemma_procedure_derives(
    items: Seq<Item>,
    start: int,
    params_end: int,
    vars_end: int,
    end: int,
    def: ProcedureDef,
)
    requires
        0 <= start,
        start + 2 <= params_end <= vars_end <= end <= items.len(),
        items[start] == plain(Symbol::Procedure),
        items[start + 1] == name_item(def.name@),
        seq![plain(Symbol::OpenParen)] + params_syntax(def.params@, def.params@.len()) + seq![
            plain(Symbol::CloseParen),
        ] == items.subrange(start + 2, params_end),
        var_block_syntax(def.var_defs) == items.subrange(params_end, vars_end),
        seq![plain(Symbol::Begin)] + block_syntax(def.body@, def.body@.len()) == items.subrange(
            vars_end,
            end,
        ),
    ensures
        def.syntax() == items.subrange(start, end),
{
    assert(items.subrange(start, end) =~= seq![plain(Symbol::Procedure), name_item(def.name@)]
        + items.subrange(start + 2, params_end) + items.subrange(params_end, vars_end)
        + items.subrange(vars_end, end));
}

/// A program whose parts lie one behind the other in `items` is written
/// as the whole run.
proof fn lemma_program_derives(
    items: Seq<Item>,
    start: int,
    vars_end: int,
    procs_end: int,
    body_end: int,
    program: Program,
)
    requires
        0 <= start,
        start + 2 <= vars_end <= procs_end <= body_end,
        body_end + 2 <= items.len(),
        items[start] == plain(Symbol::Program),
        items[start + 1] == name_item(program.name@),
        var_block_syntax(program.var_defs) == items.subrange(start + 2, vars_end),
        proc_block_syntax(program.procedure_defs) == items.subrange(vars_end, procs_end),
        seq![plain(Symbol::Begin)] + block_syntax(program.body@, program.body@.len())
            == items.subrange(procs_end, body_end),
        items[body_end] == plain(Symbol::End),
        items[body_end + 1] == plain(Symbol::Dot),
    ensures
        program.syntax() == items.subrange(start, body_end + 2),
{
    assert(items.subrange(start, body_end + 2) =~= seq![
        plain(Symbol::Program),
        name_item(program.name@),
    ] + items.subrange(start + 2, vars_end) + items.subrange(vars_end, procs_end)
        + items.subrange(procs_end, body_end) + seq![plain(Symbol::End), plain(Symbol::Dot)]);
}

impl ProcedureDef {
    /// The two procedures have the same name, parameters, declarations and
    /// statements.
    pub open spec fn same(self, other: ProcedureDef) -> bool {
        &&& self.name@ == other.name@
        &&& self.params@.len() == other.params@.len()
        &&& same_params(self.params@, other.params@, self.params@.len())
        &&& same_var_block(self.var_defs, other.var_defs)
        &&& self.body@.len() == other.body@.len()
        &&& same_block(self.body@, other.body@, self.body@.len())
    }

    pub open spec fn wf(self) -> bool {
        &&& name_text(self.name@)
        &&& params_wf(self.params@, self.params@.len())
        &&& var_block_wf(self.var_defs)
        &&& body_wf(self.body@)
    }

    pub open spec fn syntax(self) -> Seq<Item> {
        seq![plain(Symbol::Procedure), name_item(self.name@)] + (seq![plain(Symbol::OpenParen)]
            + params_syntax(self.params@, self.params@.len()) + seq![plain(Symbol::CloseParen)])
            + var_block_syntax(self.var_defs) + (seq![plain(Symbol::Begin)] + block_syntax(
            self.body@,
            self.body@.len(),
        ))
    }

    /// A closure bound to the procedure's name that takes the declared
    /// parameters in the order of declaration; its body is the
    /// declarations and then the statements.
    pub open spec fn text(self) -> Seq<char> {
        "let mut "@ + self.name@ + " = |"@ + params_text(self.params@, self.params@.len())
            + "| { "@ + var_block_text(self.var_defs) + block_text(self.body@, self.body@.len())
            + "}; "@
    }

    pub fn to_tokens(&self, tokens: &mut String)
        ensures
            final(tokens)@ == old(tokens)@ + self.text(),
    {
        let ghost before = tokens@;
        tokens.append("let mut ");
        tokens.append(self.name.as_str());
        tokens.append(" = |");
        let params_len = self.params.len();
        let mut i: usize = 0;
        while i < params_len
            invariant
                i <= params_len == self.params@.len(),
                tokens@ == before + "let mut "@ + self.name@ + " = |"@ + params_text(
                    self.params@,
                    i as nat,
                ),
            decreases params_len - i,
        {
            if i != 0 {
                tokens.append(", ");
            }
            self.params[i].to_tokens(tokens);
            i += 1;
        }
        tokens.append("| { ");
        var_block_to_tokens(&self.var_defs, tokens);
        block_to_tokens(&self.body, tokens);
        tokens.append("}; ");
    }

    /// Reads one procedure: its head, its declarations if `var` follows,
    /// and `begin` with the statement list.
    #[verifier::rlimit(40)]
    pub fn parse(input: &ParseBuffer, start: usize) -> (r: Result<
        (ProcedureDef, usize),
        ParseError,
    >)
        requires
            input.wf(),
            start <= input.items().len(),
        ensures
            follows(input, start as int, scan_procedure(input.items(), start as int), r),
            r matches Ok((p, n)) ==> p.wf() && p.syntax() == input.items().subrange(
                start as int,
                n as int,
            ),
    {
        let ghost items = input.items();
        if input.peek(start) != Symbol::Procedure {
            return Err(input.error(start));
        }
        if input.peek(start + 1) != Symbol::Ident {
            return Err(input.error(start + 1));
        }
        let name = input.lexeme(start + 1);
        let (params, params_end) = match parse_param_block(input, start + 2) {
            Ok(found) => found,
            Err(e) => {
                return Err(e);
            },
        };
        let (var_defs, vars_end) = match parse_var_block(input, params_end) {
            Ok(found) => found,
            Err(e) => {
                return Err(e);
            },
        };
        let (body, end) = match parse_body(input, vars_end) {
            Ok(found) => found,
            Err(e) => {
                return Err(e);
            },
        };
        let def = ProcedureDef { name, params, var_defs, body };
        proof {
            lemma_procedure_derives(
                items,
                start as int,
                params_end as int,
                vars_end as int,
                end as int,
                def,
            );
        }
        Ok((def, end))
    }
}

/// Appends the bindings of a block of declarations, if there is one.
fn var_block_to_tokens(block: &Option<Vec<VarDef>>, tokens: &mut String)
    ensures
        final(tokens)@ == old(tokens)@ + var_block_text(*block),
{
    if let Some(var_defs) = block {
        let ghost before = tokens@;
        let mut i: usize = 0;
        while i < var_defs.len()
            invariant
                i <= var_defs.len(),
                tokens@ == before + vardefs_text(var_defs@, i as nat),
            decreases var_defs.len() - i,
        {
            var_defs[i].to_tokens(tokens);
            i += 1;
        }
    }
}

/// The terminals of the first `n` procedures, one behind the other.
pub open spec fn procs_syntax(procs: Seq<ProcedureDef>, n: nat) -> Seq<Item>
    decreases n,
{
    if n == 0 || n > procs.len() {
        Seq::empty()
    } else {
        procs_syntax(procs, (n - 1) as nat) + procs[n - 1].syntax()
    }
}

pub open spec fn procs_wf(procs: Seq<ProcedureDef>, n: nat) -> bool
    decreases n,
{
    if n == 0 || n > procs.len() {
        true
    } else {
        procs_wf(procs, (n - 1) as nat) && procs[n - 1].wf()
    }
}

/// The first `n` procedures as the emitted program binds them, in order.
pub open spec fn procs_text(procs: Seq<ProcedureDef>, n: nat) -> Seq<char>
    decreases n,
{
    if n == 0 || n > procs.len() {
        Seq::empty()
    } else {
        procs_text(procs, (n - 1) as nat) + procs[n - 1].text()
    }
}

pub proof fn lemma_procs_prefix(a: Seq<ProcedureDef>, b: Seq<ProcedureDef>, n: nat)
    requires
        n <= a.len(),
        n <= b.len(),
        forall|i: int| 0 <= i < n ==> a[i] == b[i],
    ensures
        procs_syntax(a, n) == procs_syntax(b, n),
        procs_wf(a, n) == procs_wf(b, n),
        procs_text(a, n) == procs_text(b, n),
    decreases n,
{
    if n > 0 {
        lemma_procs_prefix(a, b, (n - 1) as nat);
    }
}

/// The procedures of a program, if there are any: at least one.
pub open spec fn proc_block_wf(block: Option<Vec<ProcedureDef>>) -> bool {
    match block {
        Some(procs) => procs@.len() >= 1 && procs_wf(procs@, procs@.len()),
        None => true,
    }
}

pub open spec fn proc_block_syntax(block: Option<Vec<ProcedureDef>>) -> Seq<Item> {
    match block {
        Some(procs) => procs_syntax(procs@, procs@.len()),
        None => Seq::empty(),
    }
}

pub open spec fn proc_block_text(block: Option<Vec<ProcedureDef>>) -> Seq<char> {
    match block {
        Some(procs) => procs_text(procs@, procs@.len()),
        None => Seq::empty(),
    }
}

/// Reads procedures as long as `procedure` follows; at least one.
pub fn parse_procdef_within(input: &ParseBuffer, start: usize) -> (r: Result<
    (Vec<ProcedureDef>, usize),
    ParseError,
>)
    requires
        input.wf(),
        start <= input.items().len(),
    ensures
        follows(input, start as int, scan_procedures(input.items(), start as int), r),
        r matches Ok((procs, n)) ==> procs@.len() >= 1 && procs_wf(procs@, procs@.len())
            && procs_syntax(procs@, procs@.len()) == input.items().subrange(
            start as int,
            n as int,
        ),
{
    let ghost items = input.items();
    let mut procs: Vec<ProcedureDef> = Vec::new();
    let mut cur = start;
    let total = input.len();
    loop
        invariant
            input.wf(),
            items == input.items(),
            start <= cur <= items.len(),
            items.len() == total,
            scan_procedures(items, cur as int) == scan_procedures(items, start as int),
            procs_wf(procs@, procs@.len()),
            procs@.len() == 0 <==> cur == start,
            items.subrange(start as int, cur as int) == procs_syntax(procs@, procs@.len()),
        decreases items.len() - cur,
    {
        let (proc, next) = match ProcedureDef::parse(input, cur) {
            Ok(found) => found,
            Err(e) => {
                return Err(e);
            },
        };
        let ghost before = procs@;
        procs.push(proc);
        proof {
            lemma_procs_prefix(before, procs@, before.len());
            assert(procs_wf(procs@, procs@.len()));
            assert(procs_syntax(procs@, procs@.len()) =~= items.subrange(
                start as int,
                next as int,
            )) by {
                assert(items.subrange(start as int, next as int) =~= items.subrange(
                    start as int,
                    cur as int,
                ) + items.subrange(cur as int, next as int));
            }
        }
        cur = next;
        if input.peek(cur) != Symbol::Procedure {
            return Ok((procs, cur));
        }
    }
}

/// Reads the procedures if `procedure` stands at `start`.
fn parse_proc_block(input: &ParseBuffer, start: usize) -> (r: Result<
    (Option<Vec<ProcedureDef>>, usize),
    ParseError,
>)
    requires
        input.wf(),
        start <= input.items().len(),
    ensures
        match r {
            Ok((block, n)) => scan_proc_block(input.items(), start as int) == Ok::<int, int>(
                n as int,
            ) && start <= n <= input.items().len() && proc_block_wf(block) && proc_block_syntax(
                block,
            ) == input.items().subrange(start as int, n as int),
            Err(e) => scan_proc_block(input.items(), start as int) == Err::<int, int>(
                e.index as int,
            ) && start <= e.index <= input.items().len() && e == input.error_at(e.index as int),
        },
{
    if input.peek(start) == Symbol::Procedure {
        match parse_procdef_within(input, start) {
            Ok((procs, n)) => Ok((Some(procs), n)),
            Err(e) => Err(e),
        }
    } else {
        proof {
            assert(input.items().subrange(start as int, start as int) =~= Seq::<Item>::empty());
        }
        Ok((None, start))
    }
}

/// Appends the bindings of the procedures, if there are any.
fn proc_block_to_tokens(block: &Option<Vec<ProcedureDef>>, tokens: &mut String)
    ensures
        final(tokens)@ == old(tokens)@ + proc_block_text(*block),
{
    if let Some(procs) = block {
        let ghost before = tokens@;
        let mut i: usize = 0;
        while i < procs.len()
            invariant
                i <= procs.len(),
                tokens@ == before + procs_text(procs@, i as nat),
            decreases procs.len() - i,
        {
            procs[i].to_tokens(tokens);
            i += 1;
        }
    }
}

impl Program {
    /// The two programs have the same name, declarations, procedures and
    /// statements.
    pub open spec fn same(self, other: Program) -> bool {
        &&& self.name@ == other.name@
        &&& same_var_block(self.var_defs, other.var_defs)
        &&& same_proc_block(self.procedure_defs, other.procedure_defs)
        &&& self.body@.len() == other.body@.len()
        &&& same_block(self.body@, other.body@, self.body@.len())
    }

    /// The tree is one that the grammar derives.
    pub open spec fn wf(self) -> bool {
        &&& name_text(self.name@)
        &&& var_block_wf(self.var_defs)
        &&& proc_block_wf(self.procedure_defs)
        &&& body_wf(self.body@)
    }

    /// The terminals that the program is written as.
    pub open spec fn syntax(self) -> Seq<Item> {
        seq![plain(Symbol::Program), name_item(self.name@)] + var_block_syntax(self.var_defs)
            + proc_block_syntax(self.procedure_defs) + (seq![plain(Symbol::Begin)] + block_syntax(
            self.body@,
            self.body@.len(),
        )) + seq![plain(Symbol::End), plain(Symbol::Dot)]
    }

    /// A closure without arguments bound to the program's name, which holds
    /// the declarations, the procedures and the statements, and behind it
    /// the call of that closure.
    pub open spec fn text(self) -> Seq<char> {
        "let mut "@ + self.name@ + " = || { "@ + var_block_text(self.var_defs) + proc_block_text(
            self.procedure_defs,
        ) + block_text(self.body@, self.body@.len()) + "}; "@ + self.name@ + "();"@
    }

    pub fn to_tokens(&self, tokens: &mut String)
        ensures
            final(tokens)@ == old(tokens)@ + self.text(),
    {
        tokens.append("let mut ");
        tokens.append(self.name.as_str());
        tokens.append(" = || { ");
        var_block_to_tokens(&self.var_defs, tokens);
        proc_block_to_tokens(&self.procedure_defs, tokens);
        block_to_tokens(&self.body, tokens);
        tokens.append("}; ");
        tokens.append(self.name.as_str());
        tokens.append("();");
    }

    /// Reads a program: its name, its declarations if `var` follows, its
    /// procedures if `procedure` follows, and its body between `begin` and
    /// `end.`.
    #[verifier::rlimit(40)]
    pub fn parse(input: &ParseBuffer, start: usize) -> (r: Result<(Program, usize), ParseError>)
        requires
            input.wf(),
            start <= input.items().len(),
        ensures
            follows(input, start as int, scan_program(input.items(), start as int), r),
            r matches Ok((p, n)) ==> p.wf() && p.syntax() == input.items().subrange(
                start as int,
                n as int,
            ),
    {
        let ghost items = input.items();
        if input.peek(start) != Symbol::Program {
            return Err(input.error(start));
        }
        if input.peek(start + 1) != Symbol::Ident {
            return Err(input.error(start + 1));
        }
        let name = input.lexeme(start + 1);
        let (var_defs, vars_end) = match parse_var_block(input, start + 2) {
            Ok(found) => found,
            Err(e) => {
                return Err(e);
            },
        };
        let (procedure_defs, procs_end) = match parse_proc_block(input, vars_end) {
            Ok(found) => found,
            Err(e) => {
                return Err(e);
            },
        };
        let (body, body_end) = match parse_body(input, procs_end) {
            Ok(found) => found,
            Err(e) => {
                return Err(e);
            },
        };
        if input.peek(body_end) != Symbol::End {
            return Err(input.error(body_end));
        }
        if input.peek(body_end + 1) != Symbol::Dot {
            return Err(input.error(body_end + 1));
        }
        let program = Program { name, var_defs, procedure_defs, body };
        proof {
            lemma_program_derives(
                items,
                start as int,
                vars_end as int,
                procs_end as int,
                body_end as int,
                program,
            );
        }
        Ok((program, body_end + 2))
    }
}

/// The terminals `items` are those of a program of the grammar.
pub open spec fn is_program(items: Seq<Item>) -> bool {
    exists|p: Program| p.wf() && #[trigger] p.syntax() == items
}

/// The index of the first terminal that does not fit where `items` as a
/// whole are read as one program.
pub open spec fn program_misfit(items: Seq<Item>) -> int {
    match whole(scan_program(items, 0), items) {
        Ok(_) => items.len() as int,
        Err(i) => i,
    }
}

impl Program {
    /// Reads the whole input as one program. The result is a tree of the
    /// grammar for the input if there is one, and else the error for the
    /// first token that does not fit.
    pub fn parse_all(input: &ParseBuffer) -> (r: Result<Program, ParseError>)
        requires
            input.wf(),
        ensures
            r is Ok <==> is_program(input.items()),
            r matches Ok(p) ==> p.wf() && p.syntax() == input.items(),
            r matches Ok(p) ==> forall|o: Program|
                o.wf() && #[trigger] o.syntax() == input.items() ==> o.same(p),
            r matches Err(e) ==> e == input.error_at(program_misfit(input.items())),
    {
        let r = match Program::parse(input, 0) {
            Ok((program, end)) => if end == input.len() {
                proof {
                    assert(input.items().subrange(0, end as int) =~= input.items());
                }
                Ok(program)
            } else {
                Err(input.error(end))
            },
            Err(e) => Err(e),
        };
        proof {
            let outcome = r;
            if let Ok(found) = outcome {
                assert forall|o: Program|
                    o.wf() && #[trigger] o.syntax() == input.items() implies o.same(found) by {
                    lemma_program_unique(o, found);
                }
            }
            if r is Err {
                assert forall|p: Program| p.wf() implies #[trigger] p.syntax()
                    != input.items() by {
                    if p.syntax() == input.items() {
                        lemma_program_complete(p);
                    }
                }
            }
        }
        r
    }

    /// The program that stands in for one that could not be read: it has
    /// the name `yurzi`, no declarations and an empty body.
    pub fn fallback() -> (program: Program)
        ensures
            program.name@ == "yurzi"@,
            program.var_defs is None,
            program.procedure_defs is None,
            program.body@.len() == 0,
            program.text() == fallback_text(),
    {
        let program = Program {
            name: String::from_str("yurzi"),
            var_defs: None,
            procedure_defs: None,
            body: Vec::new(),
        };
        assert(program.text() =~= fallback_text());
        program
    }
}

/// What is emitted in place of a program that could not be read.
pub open spec fn fallback_text() -> Seq<char> {
    "let mut "@ + "yurzi"@ + " = || { "@ + "}; "@ + "yurzi"@ + "();"@
}

/// Reads `input` as one program. The result is a tree of the grammar for
/// the input, for the caller to show, or the marker of the syntax error
/// if there is none.
pub fn snl_program(input: &str) -> (r: Result<Program, String>)
    requires
        byte_len(input@) <= u32::MAX,
    ensures
        r is Ok <==> is_program(source_items(input@)),
        r matches Ok(p) ==> p.wf() && p.syntax() == source_items(input@),
        r matches Ok(p) ==> forall|o: Program|
            o.wf() && #[trigger] o.syntax() == source_items(input@) ==> o.same(p),
        r matches Err(marker) ==> marker@ == error_in(
            source_tokens(input@),
            program_misfit(source_items(input@)),
        ).marker(),
{
    let buffer = ParseBuffer::from_source(input);
    match Program::parse_all(&buffer) {
        Ok(program) => Ok(program),
        Err(e) => Err(e.to_compile_error()),
    }
}

/// Compiles `input`, read as one program: the rendering of its tree, or
/// the marker of the syntax error if it has none.
pub fn snlc_program(input: &str) -> (res: String)
    requires
        byte_len(input@) <= u32::MAX,
    ensures
        forall|p: Program|
            p.wf() && #[trigger] p.syntax() == source_items(input@) ==> res@ == p.text(),
        !is_program(source_items(input@)) ==> res@ == error_in(
            source_tokens(input@),
            program_misfit(source_items(input@)),
        ).marker(),
{
    let buffer = ParseBuffer::from_source(input);
    match Program::parse_all(&buffer) {
        Ok(program) => {
            let mut res = String::new();
            program.to_tokens(&mut res);
            proof {
                assert(res@ =~= program.text());
                assert forall|p: Program|
                    p.wf() && #[trigger] p.syntax() == source_items(input@) implies res@
                    == p.text() by {
                    lemma_program_unique(p, program);
                }
            }
            res
        },
        Err(e) => e.to_compile_error(),
    }
}

} // verus!
