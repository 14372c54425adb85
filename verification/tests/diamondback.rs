use snek::diamondback::compile::compile_program;
use snek::diamondback::parse::{parse_expr, parse_program_contents};
use snek::diamondback::syntax::{Expr, Program};
use snek::sexpr::parse;

fn parse_expr_str(source: &str) -> Expr {
    match parse(source) {
        Some(sexp) => match parse_expr(&sexp) {
            Ok(e) => e,
            Err(err) => panic!("{}", err.message()),
        },
        None => panic!("Invalid"),
    }
}

fn parse_program_str(source: &str) -> Program {
    match parse_program_contents(source) {
        Ok(p) => p,
        Err(err) => panic!("{}", err.message()),
    }
}

fn compile_str(source: &str) -> String {
    let program = parse_program_str(source);
    match compile_program(&program) {
        Ok(text) => text,
        Err(err) => panic!("{}", err.message()),
    }
}

fn assert_compile_error(source: &str, expected: &str) {
    let result = parse_program_contents(source).and_then(|program| compile_program(&program));
    match result {
        Ok(_) => panic!("expected compile error containing {expected}"),
        Err(err) => {
            let msg = err.message();
            assert!(
                msg.contains(expected),
                "expected panic containing {expected}, got {msg}"
            );
        }
    }
}

fn assert_asm_contains(source: &str, needle: &str) {
    let text = compile_str(source);
    assert!(
        text.contains(needle),
        "expected assembly to contain {:?}\n{}",
        needle,
        text
    );
}

#[test]
fn parse_program_collects_definitions() {
    let program = parse_program_str(
        "
        (fun (double x) (+ x x))
        (fun (quad x) (double (double x)))
        (quad 5)
        ",
    );
    assert_eq!(program.defns.len(), 2);
    assert_eq!(program.defns[0].name, "double");
    assert_eq!(program.defns[1].name, "quad");
    match program.main {
        Expr::Call(name, args) => {
            assert_eq!(name, "quad");
            assert_eq!(args.len(), 1);
        }
        _ => panic!("expected main call expression"),
    }
}

#[test]
fn parse_zero_argument_function() {
    let program = parse_program_str(
        "
        (fun (answer) 42)
        (answer)
        ",
    );
    assert_eq!(program.defns[0].params.len(), 0);
}

#[test]
fn parse_call_expression() {
    let expr = parse_expr_str("(f 1 true x)");
    match expr {
        Expr::Call(name, args) => {
            assert_eq!(name, "f");
            assert_eq!(args.len(), 3);
        }
        _ => panic!("expected call"),
    }
}

#[test]
fn parse_fun_body_with_let() {
    let program = parse_program_str(
        "
        (fun (compute x)
          (let ((y (* x 2))
                (z (+ x 1)))
            (+ y z)))
        (compute 10)
        ",
    );
    match &program.defns[0].body {
        Expr::Let(bindings, _) => assert_eq!(bindings.len(), 2),
        _ => panic!("expected let body"),
    }
}

#[test]
fn simple_function_call() {
    assert_asm_contains(
        "
        (fun (double x) (+ x x))
        (double 5)
    ",
        "call fun_double",
    );
}

#[test]
fn zero_argument_function() {
    assert_asm_contains(
        "
        (fun (answer) 42)
        (answer)
    ",
        "call fun_answer",
    );
}

#[test]
fn five_argument_function() {
    assert_asm_contains(
        "
        (fun (add5 a b c d e) (+ (+ a b) (+ c (+ d e))))
        (add5 1 2 3 4 5)
    ",
        "add rsp, 48",
    );
}

#[test]
fn recursive_factorial() {
    assert_asm_contains(
        "
        (fun (factorial n)
          (if (= n 1)
              1
              (* n (factorial (- n 1)))))
        (factorial 5)
    ",
        "fun_factorial:",
    );
}

#[test]
fn mutual_recursion() {
    assert_asm_contains(
        "
        (fun (is-even n)
          (if (= n 0)
              true
              (is-odd (- n 1))))
        (fun (is-odd n)
          (if (= n 0)
              false
              (is-even (- n 1))))
        (is-even 10)
    ",
        "fun_is_2dodd:",
    );
}

#[test]
fn local_variables_in_function() {
    assert_asm_contains(
        "
        (fun (compute x)
          (let ((y (* x 2))
                (z (+ x 1)))
            (+ y z)))
        (compute 10)
    ",
        "[rbp - 8]",
    );
}

#[test]
fn mixed_parameters_and_locals() {
    assert_asm_contains(
        "
        (fun (mix x y)
          (let ((z (+ x y))
                (w (* y 2)))
            (- z w)))
        (mix 10 3)
    ",
        "[rbp + 16]",
    );
}

#[test]
fn print_returns_value() {
    assert_asm_contains(
        "
        (block
          (print 5)
          9)
    ",
        "call snek_print",
    );
}

#[test]
fn input_in_main() {
    assert_asm_contains(
        "
        (+ input 3)
    ",
        "mov r12, rdi",
    );
}

#[test]
fn set_parameter_inside_function() {
    assert_asm_contains(
        "
        (fun (advance x)
          (block
            (set! x (+ x 2))
            x))
        (advance 5)
    ",
        "mov qword [rbp + 16], rax",
    );
}

#[test]
fn loop_inside_function() {
    assert_asm_contains(
        "
        (fun (count-to n)
          (let ((x 0))
            (loop
              (if (= x n)
                  (break x)
                  (set! x (+ x 1))))))
        (count-to 8)
    ",
        "loop_start_",
    );
}

#[test]
fn comparison_in_function() {
    assert_asm_contains(
        "
        (fun (max a b)
          (if (> a b) a b))
        (max 11 4)
    ",
        "jg bool_true_",
    );
}

#[test]
fn large_arity_and_nested_temporaries() {
    assert_asm_contains(
        "
        (fun (combine a b c d e f)
          (+ (+ (+ a b) (+ c d)) (+ e f)))
        (combine (+ 1 2) (* 2 3) (- 10 4) (add1 7) 9 11)
    ",
        "[rbp - 48]",
    );
}

#[test]
fn fibonacci_recursive() {
    assert_asm_contains(
        "
        (fun (fib n)
          (if (<= n 1)
              n
              (+ (fib (- n 1)) (fib (- n 2)))))
        (fib 8)
    ",
        "call fun_fib",
    );
}

#[test]
fn arithmetic_type_error_has_runtime_check() {
    let text = compile_str(
        "
        (fun (bad x) (+ x true))
        (bad 5)
        ",
    );
    assert!(text.contains("test rax, 1"));
    assert!(text.contains("jne throw_error_invalid"));
}

#[test]
fn equality_type_error_has_runtime_check() {
    let text = compile_str(
        "
        (fun (bad x) (= x true))
        (bad 5)
        ",
    );
    assert!(text.contains("and r11, 1"));
    assert!(text.contains("jne throw_error_invalid"));
}

#[test]
fn wrong_arity_error() {
    assert_compile_error(
        "
        (fun (add2 x y) (+ x y))
        (add2 1)
    ",
        "Wrong number of arguments",
    );
}

#[test]
fn undefined_function_error() {
    assert_compile_error(
        "
        (missing 1 2)
    ",
        "Undefined function",
    );
}

#[test]
fn shadow_parameter_error() {
    assert_compile_error(
        "
        (fun (f x)
          (let ((x 1))
            x))
        (f 10)
    ",
        "Cannot shadow parameter",
    );
}

#[test]
fn duplicate_function_error() {
    assert_compile_error(
        "
        (fun (f x) x)
        (fun (f y) y)
        (f 1)
    ",
        "Duplicate function definition",
    );
}

#[test]
fn duplicate_parameter_error() {
    assert_compile_error(
        "
        (fun (f x x) x)
        (f 1 2)
    ",
        "Duplicate parameter",
    );
}

#[test]
fn break_outside_loop_error() {
    assert_compile_error(
        "
        (break 5)
    ",
        "break outside of loop",
    );
}

#[test]
fn duplicate_binding_error() {
    assert_compile_error(
        "
        (let ((x 1) (x 2)) x)
    ",
        "Duplicate binding",
    );
}
