use snlc::ast::{
    snl_program, CharTyParamDecl, CharTyVarDef, IntTyParamDecl, IntTyVarDef, ParamDecl,
    ProcedureDef, Program, VarDef,
};
use snlc::expr::{
    snl_expr, BinOp, Expr, ExprAssign, ExprBinary, ExprCall, ExprIndex, ExprLit, ExprParen,
    ExprVar, Lit,
};
use snlc::stm::{
    is_maybe_end, is_peek_kw, parse_stm_list, parse_stm_more, snl_stm, IfStm, ReadStm, Stmatment,
    WhileStm, WriteStm,
};
use snlc::symbol::{ParseBuffer, ParseError, Symbol};

fn name(name: &str) -> Expr {
    Expr::Var(ExprVar { ident: name.to_string() })
}

fn num(text: &str) -> Expr {
    Expr::Lit(ExprLit { lit: Lit::Integer(text.to_string()) })
}

fn binary(lhs: Expr, op: BinOp, rhs: Expr) -> Expr {
    Expr::Binary(ExprBinary { lhs: Box::new(lhs), op, rhs: Box::new(rhs) })
}

fn assignment(target: Expr, from: Expr) -> Expr {
    Expr::Assign(ExprAssign { target: Box::new(target), from: Box::new(from) })
}

fn print_stm(param: Expr) -> Stmatment {
    Stmatment::Write(WriteStm { param })
}

fn expr_error(src: &str) -> ParseError {
    match Expr::parse_all(&ParseBuffer::from_source(src)) {
        Ok(e) => panic!("{:?} was read as {:?}", src, e),
        Err(e) => e,
    }
}

fn program_error(src: &str) -> ParseError {
    match Program::parse_all(&ParseBuffer::from_source(src)) {
        Ok(p) => panic!("{:?} was read as {:?}", src, p),
        Err(e) => e,
    }
}

#[test]
fn primaries() {
    assert_eq!(snl_expr("x"), Ok(name("x")));
    assert_eq!(snl_expr("007"), Ok(num("007")));
    assert_eq!(
        snl_expr("'c'"),
        Ok(Expr::Lit(ExprLit { lit: Lit::Char("'c'".to_string()) }))
    );
    assert_eq!(
        snl_expr("a[i]"),
        Ok(Expr::Index(ExprIndex { ident: "a".to_string(), index: Box::new(name("i")) }))
    );
    assert_eq!(
        snl_expr("(x)"),
        Ok(Expr::Paren(ExprParen { expr: Box::new(name("x")) }))
    );
}

#[test]
fn operators_chain_to_the_right_without_precedence() {
    assert_eq!(
        snl_expr("a * b + c"),
        Ok(binary(name("a"), BinOp::Star, binary(name("b"), BinOp::Plus, name("c"))))
    );
    assert_eq!(
        snl_expr("a - b - c"),
        Ok(binary(name("a"), BinOp::Minus, binary(name("b"), BinOp::Minus, name("c"))))
    );
    assert_eq!(
        snl_expr("(a + b) / 2"),
        Ok(binary(
            Expr::Paren(ExprParen { expr: Box::new(binary(name("a"), BinOp::Plus, name("b"))) }),
            BinOp::Slash,
            num("2")
        ))
    );
}

#[test]
fn every_operator_but_assign_gives_a_binary_node() {
    for (text, op) in [
        ("<", BinOp::Lt),
        ("<=", BinOp::Le),
        ("=", BinOp::Eq),
        ("+", BinOp::Plus),
        ("-", BinOp::Minus),
        ("*", BinOp::Star),
        ("/", BinOp::Slash),
    ] {
        assert_eq!(snl_expr(&format!("a {} b", text)), Ok(binary(name("a"), op, name("b"))));
    }
}

#[test]
fn assign_operator_gives_an_assign_node() {
    assert_eq!(snl_expr("a := b"), Ok(assignment(name("a"), name("b"))));
    assert_eq!(
        snl_expr("a := b + 1"),
        Ok(assignment(name("a"), binary(name("b"), BinOp::Plus, num("1"))))
    );
    assert_eq!(
        snl_expr("a + b := c"),
        Ok(binary(name("a"), BinOp::Plus, assignment(name("b"), name("c"))))
    );
    assert_eq!(
        snl_expr("a[1] := 2"),
        Ok(assignment(
            Expr::Index(ExprIndex { ident: "a".to_string(), index: Box::new(num("1")) }),
            num("2")
        ))
    );
}

#[test]
fn call_has_one_argument_per_expression() {
    let call = |args: Vec<Expr>| Expr::Call(ExprCall { ident: "f".to_string(), args });
    assert_eq!(snl_expr("f()"), Ok(call(vec![])));
    assert_eq!(snl_expr("f(a)"), Ok(call(vec![name("a")])));
    assert_eq!(
        snl_expr("f(a, b + 1, g(c, d))"),
        Ok(call(vec![
            name("a"),
            binary(name("b"), BinOp::Plus, num("1")),
            Expr::Call(ExprCall { ident: "g".to_string(), args: vec![name("c"), name("d")] }),
        ]))
    );
}

#[test]
fn call_with_trailing_comma_is_rejected() {
    assert_eq!(expr_error("f(a,)"), ParseError { index: 4, pos: 4, found: Symbol::CloseParen });
    assert_eq!(expr_error("f(,)"), ParseError { index: 2, pos: 2, found: Symbol::Comma });
    assert_eq!(expr_error("f(a b)"), ParseError { index: 3, pos: 4, found: Symbol::Ident });
    assert_eq!(expr_error("f(a"), ParseError { index: 3, pos: 3, found: Symbol::Eof });
}

#[test]
fn expression_errors_name_the_first_token_that_does_not_fit() {
    assert_eq!(expr_error(""), ParseError { index: 0, pos: 0, found: Symbol::Eof });
    assert_eq!(expr_error("a +"), ParseError { index: 2, pos: 3, found: Symbol::Eof });
    assert_eq!(expr_error("a + ;"), ParseError { index: 2, pos: 4, found: Symbol::Semicolon });
    assert_eq!(expr_error("a b"), ParseError { index: 1, pos: 2, found: Symbol::Ident });
    assert_eq!(expr_error("a < = b"), ParseError { index: 2, pos: 4, found: Symbol::Eq });
    assert_eq!(expr_error("a : = b"), ParseError { index: 1, pos: 2, found: Symbol::Colon });
    assert_eq!(expr_error("(a"), ParseError { index: 2, pos: 2, found: Symbol::Eof });
    assert_eq!(expr_error("a[1"), ParseError { index: 3, pos: 3, found: Symbol::Eof });
    assert_eq!(expr_error("a[1)"), ParseError { index: 3, pos: 3, found: Symbol::CloseParen });
    assert_eq!(expr_error("f(1)(2)"), ParseError { index: 4, pos: 4, found: Symbol::OpenParen });
}

#[test]
fn lexical_anomalies_are_syntax_errors() {
    assert_eq!(expr_error("a + #"), ParseError { index: 2, pos: 4, found: Symbol::Unknown });
    assert_eq!(expr_error("'a"), ParseError { index: 0, pos: 0, found: Symbol::Unknown });
    assert_eq!(expr_error("x + 'a"), ParseError { index: 2, pos: 4, found: Symbol::Unknown });
    assert_eq!(
        expr_error("a {never closed"),
        ParseError { index: 1, pos: 2, found: Symbol::Unknown }
    );
    assert_eq!(
        program_error("program p begin write(1) {never closed end."),
        ParseError { index: 7, pos: 25, found: Symbol::Unknown }
    );
    assert_eq!(
        program_error("program p begin write(1) end. {"),
        ParseError { index: 9, pos: 30, found: Symbol::Unknown }
    );
    assert_eq!(snl_expr("{closed} a {closed too}"), Ok(name("a")));
}

#[test]
fn reserved_words_are_no_identifiers() {
    assert_eq!(expr_error("then"), ParseError { index: 0, pos: 0, found: Symbol::Then });
    assert_eq!(expr_error("a + array"), ParseError { index: 2, pos: 4, found: Symbol::Array });
    assert_eq!(expr_error("return"), ParseError { index: 0, pos: 0, found: Symbol::Return });
    assert_eq!(snl_expr("Then"), Ok(name("Then")));
}

#[test]
fn statements_by_their_first_word() {
    assert_eq!(snl_stm("read(x)"), Ok(Stmatment::Read(ReadStm { param: name("x") })));
    assert_eq!(snl_stm("write(x + 1)"), Ok(print_stm(binary(name("x"), BinOp::Plus, num("1")))));
    assert_eq!(
        snl_stm("x := 1"),
        Ok(Stmatment::Expr(assignment(name("x"), num("1"))))
    );
    assert_eq!(
        snl_stm("while i < 3 do i := i + 1; write(i) endwh"),
        Ok(Stmatment::While(WhileStm {
            condition: binary(name("i"), BinOp::Lt, num("3")),
            body: vec![
                Stmatment::Expr(assignment(name("i"), binary(name("i"), BinOp::Plus, num("1")))),
                print_stm(name("i")),
            ],
        }))
    );
}

#[test]
fn else_body_is_there_exactly_if_else_is_written() {
    assert_eq!(
        snl_stm("if x then write(1) fi"),
        Ok(Stmatment::If(IfStm {
            condition: name("x"),
            body: vec![print_stm(num("1"))],
            else_body: None,
        }))
    );
    assert_eq!(
        snl_stm("if x then write(1) else write(2); write(3) fi"),
        Ok(Stmatment::If(IfStm {
            condition: name("x"),
            body: vec![print_stm(num("1"))],
            else_body: Some(vec![print_stm(num("2")), print_stm(num("3"))]),
        }))
    );
    assert_eq!(
        snl_stm("if a then if b then write(1) else write(2) fi fi"),
        Ok(Stmatment::If(IfStm {
            condition: name("a"),
            body: vec![Stmatment::If(IfStm {
                condition: name("b"),
                body: vec![print_stm(num("1"))],
                else_body: Some(vec![print_stm(num("2"))]),
            })],
            else_body: None,
        }))
    );
}

#[test]
fn statement_errors() {
    let err = |src: &str| match Stmatment::parse_all(&ParseBuffer::from_source(src)) {
        Ok(s) => panic!("{:?} was read as {:?}", src, s),
        Err(e) => e,
    };
    assert_eq!(err("if x then fi"), ParseError { index: 3, pos: 10, found: Symbol::Fi });
    assert_eq!(err("if x then write(1) else fi"), ParseError { index: 8, pos: 24, found: Symbol::Fi });
    assert_eq!(err("if x write(1) fi"), ParseError { index: 2, pos: 5, found: Symbol::Write });
    assert_eq!(err("while x do write(1)"), ParseError { index: 7, pos: 19, found: Symbol::Eof });
    assert_eq!(err("write x"), ParseError { index: 1, pos: 6, found: Symbol::Ident });
    assert_eq!(err("read(x"), ParseError { index: 3, pos: 6, found: Symbol::Eof });
    assert_eq!(err("var"), ParseError { index: 0, pos: 0, found: Symbol::Var });
    assert_eq!(err("end"), ParseError { index: 0, pos: 0, found: Symbol::End });
    assert_eq!(err("x := 1;"), ParseError { index: 3, pos: 6, found: Symbol::Semicolon });
    assert_eq!(err("write(1); "), ParseError { index: 4, pos: 8, found: Symbol::Semicolon });
}

#[test]
fn statement_lists_go_on_behind_semicolons() {
    let buffer = ParseBuffer::from_source("x := 1; write(x); read(y) fi z");
    assert_eq!(
        parse_stm_list(&buffer, 0),
        Ok((
            vec![
                Stmatment::Expr(assignment(name("x"), num("1"))),
                print_stm(name("x")),
                Stmatment::Read(ReadStm { param: name("y") }),
            ],
            13
        ))
    );
    assert_eq!(
        parse_stm_more(&buffer, 3),
        Ok((vec![print_stm(name("x")), Stmatment::Read(ReadStm { param: name("y") })], 13))
    );
    assert_eq!(parse_stm_more(&buffer, 13), Ok((vec![], 13)));
    assert_eq!(
        parse_stm_list(&buffer, 13),
        Err(ParseError { index: 13, pos: 26, found: Symbol::Fi })
    );
    let dangling = ParseBuffer::from_source("x; ");
    assert_eq!(
        parse_stm_list(&dangling, 0),
        Err(ParseError { index: 2, pos: 2, found: Symbol::Eof })
    );
}

#[test]
fn peeking_reserved_words() {
    let buffer = ParseBuffer::from_source("begin var x fi write end else endwh");
    assert!(is_peek_kw(&buffer, 0));
    assert!(!is_peek_kw(&buffer, 1));
    assert!(!is_peek_kw(&buffer, 2));
    assert!(is_peek_kw(&buffer, 3));
    assert!(is_peek_kw(&buffer, 4));
    assert!(!is_peek_kw(&buffer, 50));
    assert!(!is_maybe_end(&buffer, 0));
    assert!(is_maybe_end(&buffer, 3));
    assert!(!is_maybe_end(&buffer, 4));
    assert!(is_maybe_end(&buffer, 5));
    assert!(is_maybe_end(&buffer, 6));
    assert!(is_maybe_end(&buffer, 7));
    assert!(snlc::ast::is_maybe_end(&buffer, 0));
    assert!(!snlc::ast::is_maybe_end(&buffer, 5));
}

#[test]
fn minimal_program() {
    assert_eq!(
        snl_program("program p begin write(1) end."),
        Ok(Program {
            name: "p".to_string(),
            var_defs: None,
            procedure_defs: None,
            body: vec![print_stm(num("1"))],
        })
    );
}

#[test]
fn program_with_declarations_and_a_procedure() {
    let src = "program bubble var integer i, j; char c;
        procedure q(integer num, char awa)
          var integer k;
          begin k := 1; write(awa)
        procedure r()
          begin read(c)
        begin q(i, c) end.";
    assert_eq!(
        snl_program(src),
        Ok(Program {
            name: "bubble".to_string(),
            var_defs: Some(vec![
                VarDef::IntTyVar(IntTyVarDef { names: vec!["i".to_string(), "j".to_string()] }),
                VarDef::CharTyVar(CharTyVarDef { names: vec!["c".to_string()] }),
            ]),
            procedure_defs: Some(vec![
                ProcedureDef {
                    name: "q".to_string(),
                    params: vec![
                        ParamDecl::IntTyParam(IntTyParamDecl { name: "num".to_string() }),
                        ParamDecl::CharTyParam(CharTyParamDecl { name: "awa".to_string() }),
                    ],
                    var_defs: Some(vec![VarDef::IntTyVar(IntTyVarDef {
                        names: vec!["k".to_string()]
                    })]),
                    body: vec![Stmatment::Expr(assignment(name("k"), num("1"))), print_stm(name("awa"))],
                },
                ProcedureDef {
                    name: "r".to_string(),
                    params: vec![],
                    var_defs: None,
                    body: vec![Stmatment::Read(ReadStm { param: name("c") })],
                },
            ]),
            body: vec![Stmatment::Expr(Expr::Call(ExprCall {
                ident: "q".to_string(),
                args: vec![name("i"), name("c")],
            }))],
        })
    );
}

#[test]
fn program_errors() {
    assert_eq!(program_error(""), ParseError { index: 0, pos: 0, found: Symbol::Eof });
    assert_eq!(program_error("begin end."), ParseError { index: 0, pos: 0, found: Symbol::Begin });
    assert_eq!(
        program_error("program begin write(1) end."),
        ParseError { index: 1, pos: 8, found: Symbol::Begin }
    );
    assert_eq!(
        program_error("program p begin end."),
        ParseError { index: 3, pos: 16, found: Symbol::End }
    );
    assert_eq!(
        program_error("program p begin write(1) end"),
        ParseError { index: 8, pos: 28, found: Symbol::Eof }
    );
    assert_eq!(
        program_error("program p begin write(1) end. x"),
        ParseError { index: 9, pos: 30, found: Symbol::Ident }
    );
    assert_eq!(
        program_error("program p begin write(1); end."),
        ParseError { index: 8, pos: 26, found: Symbol::End }
    );
}

#[test]
fn declaration_errors() {
    assert_eq!(
        program_error("program p var begin write(1) end."),
        ParseError { index: 3, pos: 14, found: Symbol::Begin }
    );
    assert_eq!(
        program_error("program p var integer ; begin write(1) end."),
        ParseError { index: 4, pos: 22, found: Symbol::Semicolon }
    );
    assert_eq!(
        program_error("program p var integer a, ; begin write(1) end."),
        ParseError { index: 6, pos: 25, found: Symbol::Semicolon }
    );
    assert_eq!(
        program_error("program p var integer a begin write(1) end."),
        ParseError { index: 5, pos: 24, found: Symbol::Begin }
    );
    assert_eq!(
        program_error("program p var integer a; x begin write(1) end."),
        ParseError { index: 6, pos: 25, found: Symbol::Ident }
    );
    assert_eq!(
        program_error("program p var array a; begin write(1) end."),
        ParseError { index: 3, pos: 14, found: Symbol::Array }
    );
    assert_eq!(
        program_error("program p var integer a;"),
        ParseError { index: 6, pos: 24, found: Symbol::Eof }
    );
}

#[test]
fn procedure_errors() {
    assert_eq!(
        program_error("program p procedure q(integer a,) begin write(1) begin q(1) end."),
        ParseError { index: 8, pos: 32, found: Symbol::CloseParen }
    );
    assert_eq!(
        program_error("program p procedure q(a) begin write(1) begin q(1) end."),
        ParseError { index: 5, pos: 22, found: Symbol::Ident }
    );
    assert_eq!(
        program_error("program p procedure q() begin write(1) end begin q() end."),
        ParseError { index: 11, pos: 39, found: Symbol::End }
    );
    assert_eq!(
        program_error("program p procedure q begin write(1) begin q() end."),
        ParseError { index: 4, pos: 22, found: Symbol::Begin }
    );
}

#[test]
fn whole_input_readers_agree_with_the_tree_readers() {
    let buffer = ParseBuffer::from_source("a + b");
    assert_eq!(Expr::parse(&buffer, 0), Ok((binary(name("a"), BinOp::Plus, name("b")), 3)));
    assert_eq!(Expr::parse(&buffer, 2), Ok((name("b"), 3)));
    assert_eq!(Expr::parse_primary(&buffer, 0), Ok((name("a"), 1)));
    assert_eq!(BinOp::parse(&buffer, 1), Ok((BinOp::Plus, 2)));
    assert_eq!(
        BinOp::parse(&buffer, 0),
        Err(ParseError { index: 0, pos: 0, found: Symbol::Ident })
    );
    assert_eq!(
        Expr::parse(&buffer, 3),
        Err(ParseError { index: 3, pos: 5, found: Symbol::Eof })
    );
    assert_eq!(Expr::parse_all(&buffer), Ok(binary(name("a"), BinOp::Plus, name("b"))));
}
