use snek::cobra::compile::{compile, fits_limits, program_text};
use snek::cobra::machine::{instr_to_str as cobra_instr, val_to_str as cobra_val};
use snek::cobra::machine::{Instr as CInstr, Reg as CReg, Val as CVal};
use snek::diamondback::compile::{
    align_function_frame, align_main_frame, compile_program, function_label, program_fits,
};
use snek::diamondback::machine::{instr_to_str, reg_to_str, val_to_str, Instr, Reg, Val};
use snek::diamondback::parse::parse_program_contents;
use snek::error::CompileError;
use snek::sexpr::{parse, SAtom, SExp};

fn cobra_text(source: &str) -> String {
    let sexp = parse(source).expect("well-formed S-expression");
    let expr = snek::cobra::parse::parse_expr(&sexp).expect("valid expression");
    assert!(fits_limits(&expr));
    compile(&expr).expect("compiles")
}

fn diamondback_text(source: &str) -> String {
    let program = parse_program_contents(source).expect("valid program");
    assert!(program_fits(&program));
    compile_program(&program).expect("compiles")
}

fn diamondback_error(source: &str) -> CompileError {
    match parse_program_contents(source).and_then(|p| compile_program(&p)) {
        Ok(_) => panic!("expected an error"),
        Err(e) => e,
    }
}

/// The labels that the text defines, in order.
fn defined_labels(text: &str) -> Vec<String> {
    text.lines()
        .map(|l| l.trim())
        .filter(|l| l.ends_with(':') && !l.contains(' '))
        .map(|l| l.trim_end_matches(':').to_string())
        .collect()
}

/// The operands of the instructions of the text that start with `mnemonic`
/// prefixes such as `j` or `call`.
fn operands_of(text: &str, mnemonics: &[&str]) -> Vec<String> {
    let mut out = Vec::new();
    for line in text.lines() {
        let mut words = line.split_whitespace();
        if let (Some(op), Some(arg)) = (words.next(), words.next()) {
            if mnemonics.contains(&op) {
                out.push(arg.to_string());
            }
        }
    }
    out
}

const JUMPS: [&str; 7] = ["jmp", "je", "jne", "jg", "jge", "jl", "jle"];

fn assert_well_labelled(text: &str) {
    let labels = defined_labels(text);
    for (i, a) in labels.iter().enumerate() {
        for b in &labels[i + 1..] {
            assert_ne!(a, b, "label defined twice in\n{text}");
        }
    }
    for target in operands_of(text, &JUMPS) {
        assert!(labels.contains(&target), "jump to undefined {target} in\n{text}");
    }
}

#[test]
fn cobra_labels_are_unique_and_jumps_resolve() {
    let text = cobra_text(
        "(let ((i 0) (acc 1))
           (block
             (loop (if (< i 5) (block (set! i (add1 i)) (set! acc (* acc 2)))
                             (break acc)))
             (if (isnum acc) (isbool (= acc 4)) (>= i 2))))",
    );
    assert_well_labelled(&text);
    let labels = defined_labels(&text);
    assert!(labels.contains(&"loop_start_0".to_string()));
    assert!(labels.contains(&"loop_end_1".to_string()));
    assert!(labels.contains(&"throw_error_invalid".to_string()));
    assert!(labels.contains(&"done".to_string()));
}

#[test]
fn cobra_nested_loops_break_to_innermost_end() {
    let text = cobra_text("(loop (block (loop (break 1)) (break 2)))");
    assert_well_labelled(&text);
    let jumps = operands_of(&text, &["jmp"]);
    assert!(jumps.contains(&"loop_end_3".to_string()));
    assert!(jumps.contains(&"loop_end_1".to_string()));
}

#[test]
fn cobra_program_text_wraps_the_code() {
    let body = cobra_text("5");
    assert_eq!(body, "mov rax, 10\n  jmp done\n  throw_error_invalid:\n  mov rdi, 1\n  sub rsp, 8\n  call snek_error\n  done:");
    let file = program_text(&body);
    assert!(file.starts_with("section .text\nextern snek_error\nglobal our_code_starts_here\nour_code_starts_here:\n  mov rax, 10"));
    assert!(file.ends_with("done:\n  ret\n"));
}

#[test]
fn diamondback_labels_and_calls_resolve() {
    let text = diamondback_text(
        "(fun (is-even n) (if (= n 0) true (is-odd (sub1 n))))
         (fun (is-odd n) (if (= n 0) false (is-even (sub1 n))))
         (fun (count n) (let ((i 0)) (loop (if (< i n) (set! i (add1 i)) (break i)))))
         (block (print (count 3)) (is-even input))",
    );
    assert_well_labelled(&text);
    let labels = defined_labels(&text);
    for callee in operands_of(&text, &["call"]) {
        assert!(
            labels.contains(&callee) || callee == "snek_print" || callee == "snek_error",
            "call to undefined {callee}"
        );
    }
    assert!(labels.contains(&"fun_is_2deven".to_string()));
    assert!(labels.contains(&"fun_is_2dodd".to_string()));
    assert!(labels.contains(&"our_code_starts_here".to_string()));
}

#[test]
fn function_labels_spell_other_bytes_in_hex() {
    assert_eq!(function_label("is-odd"), "fun_is_2dodd");
    assert_eq!(function_label("a_b1"), "fun_a_b1");
    assert_eq!(function_label("f?"), "fun_f_3f");
    assert_eq!(function_label("é"), "fun__c3_a9");
}

#[test]
fn names_that_share_a_label() {
    assert_eq!(function_label("a-b"), function_label("a_2db"));
    let text = diamondback_text("(fun (a-b) 1) (fun (a_2db) 2) (a-b)");
    let labels = defined_labels(&text);
    let n = labels.iter().filter(|l| l.as_str() == "fun_a_2db").count();
    assert_eq!(n, 2);
}

#[test]
fn frame_alignment() {
    assert_eq!(align_function_frame(0), 0);
    assert_eq!(align_function_frame(8), 16);
    assert_eq!(align_function_frame(16), 16);
    assert_eq!(align_main_frame(0), 8);
    assert_eq!(align_main_frame(8), 8);
    assert_eq!(align_main_frame(16), 24);
}

#[test]
fn diamondback_operands() {
    assert_eq!(reg_to_str(Reg::R12), "r12");
    assert_eq!(val_to_str(&Val::RegOffset(Reg::RBP, -8)), "qword [rbp - 8]");
    assert_eq!(val_to_str(&Val::RegOffset(Reg::RBP, 16)), "qword [rbp + 16]");
    assert_eq!(val_to_str(&Val::RegOffset(Reg::RBP, 0)), "qword [rbp]");
    assert_eq!(val_to_str(&Val::Imm(-3)), "-3");
    assert_eq!(instr_to_str(Instr::ILabel("x".to_string())), "x:");
    assert_eq!(instr_to_str(Instr::IJmp("x".to_string())), "  jmp x");
    assert_eq!(instr_to_str(Instr::IRet), "  ret");
    assert_eq!(
        instr_to_str(Instr::IMov(Val::Reg(Reg::RAX), Val::RegOffset(Reg::RBP, -16))),
        "  mov rax, qword [rbp - 16]"
    );
}

#[test]
fn cobra_operands() {
    assert_eq!(cobra_val(&CVal::RegOffset(CReg::RSP, -8)), "qword [rsp + -8]");
    assert_eq!(cobra_val(&CVal::Imm(7)), "7");
    assert_eq!(cobra_instr(&CInstr::ISar(CVal::Reg(CReg::RAX), CVal::Imm(1))), "sar rax, 1");
    assert_eq!(cobra_instr(&CInstr::ILabel("l".to_string())), "l:");
}

#[test]
fn diamondback_definition_errors() {
    let cases: [(&str, &str); 11] = [
        ("(fun (let x) x) 1", "Invalid function name: let"),
        ("(fun (f add1) 1) 1", "Invalid parameter name: add1"),
        ("(fun (f 1) 2) 1", "Invalid parameter"),
        ("(fun () 1) 1", "Invalid function definition"),
        ("(fun f 1) 1", "Invalid function definition"),
        ("5 (fun (f) 1)", "Function definitions must appear before the main expression"),
        ("1 2", "Multiple main expressions"),
        ("(fun (f) 1)", "No main expression"),
        ("(fun (f) 1) (fun (f) 2) (f)", "Duplicate function definition: f"),
        ("(fun (f x x) x) (f 1 2)", "Duplicate parameter: x"),
        ("(fun (f x) (let ((x 1)) x)) (f 1)", "Cannot shadow parameter: x"),
    ];
    for (source, message) in cases {
        assert_eq!(diamondback_error(source).message(), message, "for {source}");
    }
    assert_eq!(diamondback_error("(g 1)").message(), "Undefined function: g");
    assert_eq!(
        diamondback_error("(fun (f x) x) (f 1 2)").message(),
        "Wrong number of arguments for f: expected 1, got 2"
    );
    assert_eq!(diamondback_error("(").message(), "Invalid");
}

#[test]
fn cobra_errors() {
    let check = |source: &str, message: &str| {
        let sexp = parse(source).unwrap();
        let result = snek::cobra::parse::parse_expr(&sexp).and_then(|e| compile(&e));
        match result {
            Ok(_) => panic!("expected an error for {source}"),
            Err(e) => assert_eq!(e.message(), message),
        }
    };
    check("(let ((x 1) (x 2)) x)", "Duplicate binding");
    check("y", "Unbound variable identifier y");
    check("(set! y 1)", "Unbound variable identifier y");
    check("(break 1)", "break outside of loop");
    check("(let ((let 1)) 2)", "Invalid");
    check("(add1)", "Invalid");
    check("5000000000", "Invalid");
}

#[test]
fn s_expressions_are_read() {
    match parse("(add1 -3)") {
        Some(SExp::List(items)) => {
            assert_eq!(items.len(), 2);
            assert!(matches!(&items[0], SExp::Atom(SAtom::S(s)) if s == "add1"));
            assert!(matches!(&items[1], SExp::Atom(SAtom::I(-3))));
        }
        other => panic!("unexpected {:?}", other),
    }
    assert!(parse("(a b").is_none());
    assert!(matches!(parse("x"), Some(SExp::Atom(SAtom::S(s))) if s == "x"));
}

#[test]
fn cobra_stack_operands_stay_below_the_stack_pointer() {
    let source = "(let ((a 1) (b (+ 2 3))) (block (set! a (* a b)) (if (< a b) (- b a) (+ a (+ b 1)))))";
    let text = cobra_text(source);
    let mut seen = 0;
    for piece in text.split("qword [rsp + ").skip(1) {
        let end = piece.find(']').unwrap();
        let off: i64 = piece[..end].parse().unwrap();
        assert!(off <= -16 && off % 8 == 0, "offset {off} in\n{text}");
        seen += 1;
    }
    assert!(seen > 0);
    assert!(text.contains("mov qword [rsp + -16], rax"));
    assert!(text.contains("mov qword [rsp + -24], rax"));
}

#[test]
fn diamondback_frame_operands_stay_in_the_frame() {
    let text = diamondback_text(
        "(fun (f a b c) (let ((x (+ a b)) (y (* x c))) (+ x (+ y (f x y 1)))))
         (f 1 2 3)",
    );
    let mut in_function = false;
    let mut frame: i64 = 0;
    let mut seen = 0;
    for line in text.lines() {
        if line == "fun_f:" {
            in_function = true;
        }
        if line == "our_code_starts_here:" {
            in_function = false;
        }
        if in_function && line.starts_with("  sub rsp, ") && frame == 0 {
            frame = line["  sub rsp, ".len()..].parse().unwrap();
        }
        if !in_function {
            continue;
        }
        for (sign, piece) in [(-1i64, "qword [rbp - "), (1i64, "qword [rbp + ")] {
            for rest in line.split(piece).skip(1) {
                let end = rest.find(']').unwrap();
                let off = sign * rest[..end].parse::<i64>().unwrap();
                if off > 0 {
                    assert!(off == 16 || off == 24 || off == 32, "parameter offset {off}");
                } else {
                    assert!(-frame <= off && off <= -8, "slot offset {off} outside {frame}");
                }
                seen += 1;
            }
        }
    }
    assert!(frame > 0 && frame % 16 == 0);
    assert!(seen > 0);
}

#[test]
fn calls_keep_the_stack_aligned() {
    let odd = diamondback_text("(fun (g x) x) (g 1)");
    assert!(odd.contains("  sub rsp, 8\n  push qword [rbp - 8]\n  call fun_g\n  add rsp, 16"));
    let even = diamondback_text("(fun (h x y) x) (h 1 2)");
    assert!(even.contains("  push qword [rbp - 8]\n  push qword [rbp - 16]\n  call fun_h\n  add rsp, 16"));
}

#[test]
fn arguments_reach_their_parameters() {
    let text = diamondback_text("(fun (f a b c) a) (f 10 20 30)");
    let expected = "  mov rax, 60\n  mov qword [rbp - 8], rax\n  mov rax, 40\n  mov qword [rbp - 16], rax\n  mov rax, 20\n  mov qword [rbp - 24], rax\n  sub rsp, 8\n  push qword [rbp - 8]\n  push qword [rbp - 16]\n  push qword [rbp - 24]\n  call fun_f\n  add rsp, 32";
    assert!(text.contains(expected), "{text}");
    assert!(text.contains("fun_f:\n  push rbp\n  mov rbp, rsp\n  mov rax, qword [rbp + 16]\n  pop rbp\n  ret"), "{text}");
}
