use snlc::ast::{snlc_program, IntTyParamDecl, ParamDecl, ProcedureDef, Program};
use snlc::expr::{snlc_expr, BinOp, Expr, ExprVar};
use snlc::stm::{snlc_stm, Stmatment, WriteStm};
use snlc::symbol::{push_decimal, ParseError, Symbol};
use snlc::utils::gen_ir_file;
use snlc::{snl, snl_with_erros};

#[test]
fn assign_is_one_equals_sign_and_equality_is_two() {
    assert_eq!(snlc_expr("a := b"), "a = b");
    assert_eq!(snlc_expr("a = b"), "a == b");
    assert_eq!(snlc_expr("a := b = c"), "a = b == c");
}

#[test]
fn operators_are_written_between_single_spaces() {
    assert_eq!(snlc_expr("a<b"), "a < b");
    assert_eq!(snlc_expr("a<=b"), "a <= b");
    assert_eq!(snlc_expr("a+b-c*d/e"), "a + b - c * d / e");
    let mut out = String::from("x");
    for op in [
        BinOp::Lt, BinOp::Le, BinOp::Eq, BinOp::Assign, BinOp::Plus, BinOp::Minus, BinOp::Star,
        BinOp::Slash,
    ] {
        op.to_tokens(&mut out);
        out.push(' ');
    }
    assert_eq!(out, "x< <= == = + - * / ");
}

#[test]
fn primaries_are_written_as_in_the_source() {
    assert_eq!(snlc_expr("x"), "x");
    assert_eq!(snlc_expr("007"), "007");
    assert_eq!(snlc_expr("'c'"), "'c'");
    assert_eq!(snlc_expr("a [ i + 1 ]"), "a[i + 1]");
    assert_eq!(snlc_expr("( a )"), "(a)");
    assert_eq!(snlc_expr("f ( )"), "f()");
    assert_eq!(snlc_expr("f(a)"), "f(a)");
    assert_eq!(snlc_expr("f(a,b,g(c))"), "f(a, b, g(c))");
}

#[test]
fn to_tokens_appends_to_what_is_there() {
    let mut out = String::from("// ");
    Expr::Var(ExprVar { ident: "x".to_string() }).to_tokens(&mut out);
    assert_eq!(out, "// x");
    Stmatment::Write(WriteStm { param: Expr::Var(ExprVar { ident: "y".to_string() }) })
        .to_tokens(&mut out);
    assert_eq!(out, "// xprintln!(\"{:?}\", y)");
}

#[test]
fn statements_rendering() {
    assert_eq!(snlc_stm("read(x)"), "x = read()");
    assert_eq!(snlc_stm("write(x + 1)"), "println!(\"{:?}\", x + 1)");
    assert_eq!(snlc_stm("x := 1"), "x = 1");
    assert_eq!(snlc_stm("if x then write(1) fi"), "if x { println!(\"{:?}\", 1); }");
    assert_eq!(
        snlc_stm("if x < 1 then a := 1; b := 2 else c := 3 fi"),
        "if x < 1 { a = 1; b = 2; } else { c = 3; }"
    );
    assert_eq!(
        snlc_stm("while i < 3 do i := i + 1 endwh"),
        "while i < 3 { i = i + 1; }"
    );
}

#[test]
fn declarations_bind_each_name_in_order() {
    assert_eq!(
        snlc_program("program p var char a, b; integer i; char c; begin write(a) end."),
        "let mut p = || { let mut a = '\\0'; let mut b = '\\0'; let mut i = 0; \
         let mut c = '\\0'; println!(\"{:?}\", a); }; p();"
    );
}

#[test]
fn procedures_bind_their_parameters_in_order_with_host_types() {
    assert_eq!(
        snlc_program(
            "program p procedure q(char c, integer n, char d) begin write(c) \
             procedure r() var integer k; begin k := 1 begin q('a', 1, 'b'); r() end."
        ),
        "let mut p = || { let mut q = |c: char, n: i32, d: char| { println!(\"{:?}\", c); }; \
         let mut r = || { let mut k = 0; k = 1; }; q('a', 1, 'b'); r(); }; p();"
    );
    let mut out = String::new();
    ProcedureDef {
        name: "one".to_string(),
        params: vec![ParamDecl::IntTyParam(IntTyParamDecl { name: "n".to_string() })],
        var_defs: None,
        body: vec![],
    }
    .to_tokens(&mut out);
    assert_eq!(out, "let mut one = |n: i32| { }; ");
}

#[test]
fn emission_is_the_same_every_time() {
    let src = "program w var integer i; begin i := 0; while i < 3 do i := i + 1; write(i) endwh end.";
    let first = snl(src);
    for _ in 0..3 {
        assert_eq!(snl(src), first);
    }
    assert_eq!(snlc_program(src), first);
    assert_eq!(snl_with_erros(src), (first, vec![]));
}

#[test]
fn whitespace_and_comments_do_not_change_the_emission() {
    assert_eq!(
        snl("program  p{c}\nbegin\n\twrite ( 1 ){ done }\nend ."),
        snl("program p begin write(1) end.")
    );
}

#[test]
fn empty_body_minimal_program() {
    assert_eq!(
        snl("program p begin write(1) end."),
        "let mut p = || { println!(\"{:?}\", 1); }; p();"
    );
}

#[test]
fn variable_declaration_and_read_write() {
    assert_eq!(
        snl("program echo var integer x; begin read(x); write(x) end."),
        "let mut echo = || { let mut x = 0; x = read(); println!(\"{:?}\", x); }; echo();"
    );
}

#[test]
fn conditional_without_else() {
    assert_eq!(
        snl("program c var integer x; begin read(x); if x < 10 then write(x) fi end."),
        "let mut c = || { let mut x = 0; x = read(); if x < 10 { println!(\"{:?}\", x); }; }; c();"
    );
}

#[test]
fn while_loop_with_increment() {
    assert_eq!(
        snl("program w var integer i; begin i := 0; while i < 3 do i := i + 1; write(i) endwh end."),
        "let mut w = || { let mut i = 0; i = 0; while i < 3 { i = i + 1; \
         println!(\"{:?}\", i); }; }; w();"
    );
}

#[test]
fn procedure_with_parameters() {
    let src = "program bubble var integer i, j, num;
procedure q(integer num, integer awa)
  var integer k;
  begin k:=1; i:=num; write(i);
    while k <= 10 do k:=k+1; write(k) endwh
begin read(num); q(num, j) end.";
    assert_eq!(
        snl(src),
        "let mut bubble = || { let mut i = 0; let mut j = 0; let mut num = 0; \
         let mut q = |num: i32, awa: i32| { let mut k = 0; k = 1; i = num; \
         println!(\"{:?}\", i); while k <= 10 { k = k + 1; println!(\"{:?}\", k); }; }; \
         num = read(); q(num, j); }; bubble();"
    );
}

#[test]
fn procedure_body_has_no_end_of_its_own() {
    let src = "program bubble var integer i, j, num;
procedure q(integer num, integer awa)
  var integer k;
  begin k:=1; i:=num; write(i);
    while k <= 10 do k:=k+1; write(k) endwh
  end
begin read(num); q(num, j) end.";
    let at = src.find("  end\n").unwrap() + 2;
    let (out, errors) = snl_with_erros(src);
    assert_eq!(out, "let mut yurzi = || { }; yurzi();");
    assert_eq!(errors.len(), 1);
    assert_eq!(errors[0].pos as usize, at);
    assert_eq!(errors[0].found, Symbol::End);
}

#[test]
fn syntax_error() {
    let src = "program bad begin if x then fi end.";
    let (out, errors) = snl_with_erros(src);
    assert_eq!(out, "let mut yurzi = || { }; yurzi();");
    assert_eq!(errors, vec![ParseError { index: 6, pos: 28, found: Symbol::Fi }]);
    assert_eq!(
        snl(src),
        "let mut yurzi = || { }; yurzi();\
         ::core::compile_error!{\"unexpected token at byte 28\"}"
    );
    assert_eq!(
        snlc_program(src),
        "::core::compile_error!{\"unexpected token at byte 28\"}"
    );
    assert_eq!(
        snlc::ast::snl_program(src),
        Err("::core::compile_error!{\"unexpected token at byte 28\"}".to_string())
    );
}

#[test]
fn markers_of_expression_and_statement_errors() {
    assert_eq!(snlc_expr("a +"), "::core::compile_error!{\"unexpected token at byte 3\"}");
    assert_eq!(
        snlc::expr::snl_expr("f(a,)"),
        Err("::core::compile_error!{\"unexpected token at byte 4\"}".to_string())
    );
    assert_eq!(
        snlc_stm("if x then fi"),
        "::core::compile_error!{\"unexpected token at byte 10\"}"
    );
    assert_eq!(
        snlc::stm::snl_stm("write x"),
        Err("::core::compile_error!{\"unexpected token at byte 6\"}".to_string())
    );
}

#[test]
fn marker_names_the_byte_offset_in_decimal() {
    for (pos, text) in [(0u32, "0"), (7, "7"), (10, "10"), (1905, "1905"), (u32::MAX, "4294967295")]
    {
        let e = ParseError { index: 0, pos, found: Symbol::Eof };
        assert_eq!(
            e.to_compile_error(),
            format!("::core::compile_error!{{\"unexpected token at byte {}\"}}", text)
        );
        let mut out = String::from("n=");
        push_decimal(pos, &mut out);
        assert_eq!(out, format!("n={}", text));
    }
}

#[test]
fn fallback_program_is_named_yurzi_and_empty() {
    let program = Program::fallback();
    assert_eq!(
        program,
        Program { name: "yurzi".to_string(), var_defs: None, procedure_defs: None, body: vec![] }
    );
    let mut out = String::new();
    program.to_tokens(&mut out);
    assert_eq!(out, "let mut yurzi = || { }; yurzi();");
}

#[test]
fn ir_file_wraps_the_source_in_the_scaffold() {
    let expected = "
fn read<T>() -> T 
where
    T: std::str::FromStr,
    T::Err: std::fmt::Debug,
{
    let mut buf = String::new();
    std::io::stdin().read_line(&mut buf).unwrap();
    let res = match buf.trim().parse() {
        Ok(res) => res,
        Err(e) => {
            println!(\"{:?}: {:?}\", \"unmatch type\", e);
            std::process::exit(1);
        }
    };
    res
}
fn main() {
snlc_parse::snl!{
r#program p r#begin r#write(1) r#end.
}
}";
    assert_eq!(
        gen_ir_file(snlc::token::mark_source("program p begin write(1) end.")),
        expected
    );
    assert!(gen_ir_file(String::new()).ends_with("fn main() {\nsnlc_parse::snl!{\n\n}\n}"));
}
