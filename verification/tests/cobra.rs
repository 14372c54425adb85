use snek::cobra::compile::{compile, compile_to_instrs};
use snek::cobra::machine::{Instr, Reg, Val};
use snek::cobra::parse::parse_expr;
use snek::cobra::syntax::{BinOp, Expr, UnOp};
use snek::sexpr::parse;

fn parse_str(s: &str) -> Expr {
    match parse(s) {
        Some(sexp) => match parse_expr(&sexp) {
            Ok(e) => e,
            Err(err) => panic!("{}", err.message()),
        },
        None => panic!("Invalid"),
    }
}

fn compile_str(s: &str) -> String {
    match compile(&parse_str(s)) {
        Ok(text) => text,
        Err(err) => panic!("{}", err.message()),
    }
}

fn compile_in_empty_env(expr: &Expr) {
    let env: im::HashMap<String, i32> = im::HashMap::new();
    let mut labels = 0;
    if let Err(err) = compile_to_instrs(expr, 2, &env, &mut labels, None) {
        panic!("{}", err.message());
    }
}

#[test]
fn test_parse_number() {
    let expr = parse_str("42");
    match expr {
        Expr::Number(42) => (),
        other => panic!("Expected Number(42), got {:?}", other),
    }
}

#[test]
fn test_parse_identifier() {
    let expr = parse_str("x");
    match expr {
        Expr::Id(name) => assert_eq!(name, "x"),
        other => panic!("Expected Id(\"x\"), got {:?}", other),
    }
}

#[test]
fn test_parse_add1() {
    let expr = parse_str("(add1 5)");
    match expr {
        Expr::UnOp(UnOp::Add1, _) => (),
        other => panic!("Expected UnOp(Add1, ...), got {:?}", other),
    }
}

#[test]
fn test_parse_binary_plus() {
    let expr = parse_str("(+ 1 2)");
    match expr {
        Expr::BinOp(BinOp::Plus, _, _) => (),
        other => panic!("Expected BinOp(Plus, ...), got {:?}", other),
    }
}

#[test]
fn test_parse_let_simple() {
    let expr = parse_str("(let ((x 5)) x)");
    match expr {
        Expr::Let(bindings, _) => {
            assert_eq!(bindings.len(), 1);
            assert_eq!(bindings[0].0, "x");
        }
        other => panic!("Expected Let, got {:?}", other),
    }
}

#[test]
fn test_parse_let_multiple_bindings() {
    let expr = parse_str("(let ((x 5) (y 6)) (+ x y))");
    match expr {
        Expr::Let(bindings, _) => {
            assert_eq!(bindings.len(), 2);
        }
        other => panic!("Expected Let with 2 bindings, got {:?}", other),
    }
}

#[test]
fn test_parse_bool() {
    match parse_str("true") {
        Expr::Bool(true) => (),
        other => panic!("Expected bool, got {:?}", other),
    }
}

#[test]
fn test_parse_input() {
    match parse_str("input") {
        Expr::Input => (),
        other => panic!("Expected input, got {:?}", other),
    }
}

#[test]
fn test_parse_if() {
    match parse_str("(if true 1 0)") {
        Expr::If(_, _, _) => (),
        other => panic!("Expected if, got {:?}", other),
    }
}

#[test]
fn test_parse_loop() {
    match parse_str("(loop (break 5))") {
        Expr::Loop(_) => (),
        other => panic!("Expected loop, got {:?}", other),
    }
}

#[test]
#[should_panic(expected = "Duplicate binding")]
fn test_duplicate_binding() {
    let expr = parse_str("(let ((x 1) (x 2)) x)");
    compile_in_empty_env(&expr);
}

#[test]
#[should_panic(expected = "Unbound variable identifier y")]
fn test_unbound_variable() {
    let expr = parse_str("y");
    compile_in_empty_env(&expr);
}

#[test]
#[should_panic(expected = "break outside of loop")]
fn test_break_outside_loop() {
    let expr = parse_str("(break 5)");
    compile_in_empty_env(&expr);
}

#[test]
fn test_compile_number() {
    let expr = Expr::Number(42);
    let env: im::HashMap<String, i32> = im::HashMap::new();
    let mut labels = 0;
    let instrs = compile_to_instrs(&expr, 2, &env, &mut labels, None).unwrap();
    assert_eq!(instrs.len(), 1);
}

#[test]
fn test_compile_input() {
    let expr = Expr::Input;
    let env: im::HashMap<String, i32> = im::HashMap::new();
    let mut labels = 0;
    let instrs = compile_to_instrs(&expr, 2, &env, &mut labels, None).unwrap();
    assert_eq!(instrs.len(), 1);
    assert!(matches!(
        instrs[0],
        Instr::IMov(Val::Reg(Reg::RAX), Val::Reg(Reg::RDI))
    ));
}

#[test]
fn test_parse_add_expr_19() {
    match parse_str("(+ (+ 6 7) 6)") {
        Expr::BinOp(BinOp::Plus, _, _) => (),
        other => panic!("Expected plus, got {:?}", other),
    }
}

#[test]
fn test_parse_add_bool_expr_int_error() {
    match parse_str("(+ true (+ 6 7))") {
        Expr::BinOp(BinOp::Plus, left, right) => {
            assert!(matches!(*left, Expr::Bool(true)));
            assert!(matches!(*right, Expr::BinOp(BinOp::Plus, _, _)));
        }
        other => panic!("Expected plus with bool lhs, got {:?}", other),
    }
}

#[test]
fn test_parse_add_int_expr_bool_error() {
    match parse_str("(+ 6 (= 6 7))") {
        Expr::BinOp(BinOp::Plus, left, right) => {
            assert!(matches!(*left, Expr::Number(6)));
            assert!(matches!(*right, Expr::BinOp(BinOp::Equal, _, _)));
        }
        other => panic!("Expected plus with equality rhs, got {:?}", other),
    }
}

#[test]
fn test_parse_comparisons() {
    assert!(matches!(parse_str("(< 6 7)"), Expr::BinOp(BinOp::Less, _, _)));
    assert!(matches!(parse_str("(> 7 6)"), Expr::BinOp(BinOp::Greater, _, _)));
    assert!(matches!(parse_str("(<= 6 6)"), Expr::BinOp(BinOp::LessEq, _, _)));
    assert!(matches!(parse_str("(>= 6 6)"), Expr::BinOp(BinOp::GreaterEq, _, _)));
    assert!(matches!(parse_str("(= 6 6)"), Expr::BinOp(BinOp::Equal, _, _)));
}

#[test]
fn test_parse_nested_if() {
    match parse_str("(if true (if false 0 1) 0)") {
        Expr::If(_, then_expr, _) => {
            assert!(matches!(*then_expr, Expr::If(_, _, _)));
        }
        other => panic!("Expected nested if, got {:?}", other),
    }
}

#[test]
fn test_parse_isnum_and_isbool() {
    assert!(matches!(parse_str("(isnum 6)"), Expr::UnOp(UnOp::IsNum, _)));
    assert!(matches!(parse_str("(isbool true)"), Expr::UnOp(UnOp::IsBool, _)));
}

#[test]
fn test_parse_set_simple() {
    match parse_str("(let ((x 6)) (block (set! x 7) x))") {
        Expr::Let(_, body) => match *body {
            Expr::Block(exprs) => {
                assert!(matches!(exprs[0], Expr::Assign(_, _)));
            }
            other => panic!("Expected block body, got {:?}", other),
        },
        other => panic!("Expected let, got {:?}", other),
    }
}

#[test]
fn test_parse_set_expr() {
    match parse_str("(let ((x 6)) (block (set! x (+ x 7)) x))") {
        Expr::Let(_, body) => match *body {
            Expr::Block(exprs) => match &exprs[0] {
                Expr::Assign(_, value) => {
                    assert!(matches!(**value, Expr::BinOp(BinOp::Plus, _, _)));
                }
                other => panic!("Expected set!, got {:?}", other),
            },
            other => panic!("Expected block body, got {:?}", other),
        },
        other => panic!("Expected let, got {:?}", other),
    }
}

#[test]
fn test_parse_loop_count_to_10() {
    match parse_str("(let ((x 1)) (loop (if (= x 10) (break x) (set! x (+ x 1)))))") {
        Expr::Let(_, body) => {
            assert!(matches!(*body, Expr::Loop(_)));
        }
        other => panic!("Expected let/loop, got {:?}", other),
    }
}

#[test]
fn test_compile_add_and_sub() {
    let add = compile_str("(+ 6 7)");
    let sub = compile_str("(- 7 6)");
    assert!(add.contains("add rax"));
    assert!(sub.contains("sub rax"));
}

#[test]
fn test_compile_mul() {
    let text = compile_str("(* 6 7)");
    assert!(text.contains("sar rax, 1"));
    assert!(text.contains("imul rax"));
}

#[test]
fn test_compile_if() {
    let text = compile_str("(if false 1 0)");
    assert!(text.contains("if_else_"));
    assert!(text.contains("if_end_"));
}

#[test]
fn test_compile_loop_and_break() {
    let text = compile_str("(loop (break 5))");
    assert!(text.contains("loop_start_"));
    assert!(text.contains("loop_end_"));
}

#[test]
fn test_compile_type_checks() {
    let isnum = compile_str("(isnum 6)");
    let isbool = compile_str("(isbool true)");
    assert!(isnum.contains("isnum_false_"));
    assert!(isbool.contains("isbool_true_"));
}

#[test]
fn test_compile_set_and_block() {
    let text = compile_str("(let ((x 6)) (block (set! x 7) x))");
    assert!(text.contains("mov qword [rsp + -16], rax"));
}

#[test]
#[should_panic(expected = "Unbound variable identifier y")]
fn test_set_unbound_variable() {
    let expr = parse_str("(set! y 5)");
    compile_in_empty_env(&expr);
}

#[test]
fn test_compile_eq_type_mismatch_path() {
    let text = compile_str("(= true 6)");
    assert!(text.contains("throw_error_invalid"));
}

#[test]
fn test_compile_input_expr() {
    let text = compile_str("input");
    assert!(text.contains("mov rax, rdi"));
}
