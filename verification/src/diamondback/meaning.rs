//! What the generated instructions do: a model of the machine state that
//! they change, and the laws that the code of each operator computes that
//! operator.
use vstd::prelude::*;
use crate::diamondback::syntax::{UnOp, BinOp, ExprV};
use crate::diamondback::machine::{instr_text, val_text, Reg, Val, InstrV, CJump};
use crate::diamondback::compile::{compile_spec, slot_off, binop_tail, unop_tail, error_label, check_number_spec, frame, rax,
    r10, bool_result_spec, jump_spec};
use crate::tagging::{TRUE_VAL, FALSE_VAL};

verus! {

/// The machine state that the code of an operator changes: the registers,
/// the words of the current frame by their offset from `rbp`, and the two
/// values that the last comparison or test compared.
pub struct Machine {
    pub regs: spec_fn(Reg) -> i64,
    pub frame: spec_fn(i32) -> i64,
    pub flags: (int, int),
}

/// How running code ends: past its last instruction, by a jump to a label
/// outside it, or on an instruction that the model does not run.
pub enum Outcome {
    Done(Machine),
    Exit(Seq<char>, Machine),
    Stuck,
}

/// The value of an operand.
pub open spec fn operand(m: Machine, v: Val) -> Option<i64> {
    match v {
        Val::Reg(r) => Some((m.regs)(r)),
        Val::Imm(n) => Some(n),
        Val::RegOffset(Reg::RBP, off) => Some((m.frame)(off)),
        _ => None,
    }
}

/// The state after writing `x` to the destination `d`.
pub open spec fn store(m: Machine, d: Val, x: i64) -> Option<Machine> {
    match d {
        Val::Reg(r) => Some(
            Machine { regs: |q: Reg| if q == r { x } else { (m.regs)(q) }, frame: m.frame, flags: m.flags },
        ),
        Val::RegOffset(Reg::RBP, off) => Some(
            Machine {
                regs: m.regs,
                frame: |o: i32| if o == off { x } else { (m.frame)(o) },
                flags: m.flags,
            },
        ),
        _ => None,
    }
}

/// Whether a jump is taken after comparing `x` with `y`: the x86
/// conditions on signed values; `jmp` always.
pub open spec fn jump_taken(i: InstrV, x: int, y: int) -> bool {
    match i {
        InstrV::IJmp(_) => true,
        InstrV::IJe(_) => x == y,
        InstrV::IJne(_) => x != y,
        InstrV::IJg(_) => x > y,
        InstrV::IJge(_) => x >= y,
        InstrV::IJl(_) => x < y,
        InstrV::IJle(_) => x <= y,
        _ => false,
    }
}

/// The result of a two-operand arithmetic instruction on 64-bit words.
pub open spec fn arith(i: InstrV, x: i64, y: i64) -> i64 {
    match i {
        InstrV::IAdd(_, _) => (x + y) as i64,
        InstrV::ISub(_, _) => (x - y) as i64,
        InstrV::IMul(_, _) => (x * y) as i64,
        InstrV::ISar(_, _) => x >> (y as u64),
        _ => x & y,
    }
}

/// The first position at or after `k` where `is` defines label `l`.
pub open spec fn find_label(is: Seq<InstrV>, l: Seq<char>, k: int) -> Option<int>
    decreases is.len() - k,
{
    if k < 0 || k >= is.len() {
        None
    } else if is[k] == InstrV::ILabel(l) {
        Some(k)
    } else {
        find_label(is, l, k + 1)
    }
}

/// What one instruction does: go on to the next instruction in a new state,
/// jump to a label, or stop on an instruction that the model does not run.
pub enum Step {
    Continue(Machine),
    Jump(Seq<char>, Machine),
    Halt,
}

/// The effect of one instruction on the machine.
pub open spec fn step(i: InstrV, m: Machine) -> Step {
    match i {
        InstrV::ILabel(_) => Step::Continue(m),
        InstrV::IMov(d, s) => match operand(m, s) {
            Some(x) => match store(m, d, x) {
                Some(m2) => Step::Continue(m2),
                None => Step::Halt,
            },
            None => Step::Halt,
        },
        InstrV::IAdd(d, s) | InstrV::ISub(d, s) | InstrV::IMul(d, s) | InstrV::ISar(d, s)
        | InstrV::IAnd(d, s) => match (operand(m, d), operand(m, s)) {
            (Some(x), Some(y)) => match store(m, d, arith(i, x, y)) {
                Some(m2) => Step::Continue(m2),
                None => Step::Halt,
            },
            _ => Step::Halt,
        },
        InstrV::ICmp(a, b) => match (operand(m, a), operand(m, b)) {
            (Some(x), Some(y)) => Step::Continue(
                Machine { regs: m.regs, frame: m.frame, flags: (x as int, y as int) },
            ),
            _ => Step::Halt,
        },
        InstrV::ITest(a, b) => match (operand(m, a), operand(m, b)) {
            (Some(x), Some(y)) => Step::Continue(
                Machine { regs: m.regs, frame: m.frame, flags: ((x & y) as int, 0) },
            ),
            _ => Step::Halt,
        },
        InstrV::IJmp(l) | InstrV::IJe(l) | InstrV::IJne(l) | InstrV::IJg(l) | InstrV::IJge(l)
        | InstrV::IJl(l) | InstrV::IJle(l) => if jump_taken(i, m.flags.0, m.flags.1) {
            Step::Jump(l, m)
        } else {
            Step::Continue(m)
        },
        _ => Step::Halt,
    }
}

/// Runs `is` from position `pc` for at most `fuel` instructions.
pub open spec fn run(is: Seq<InstrV>, pc: int, m: Machine, fuel: nat) -> Outcome
    decreases fuel,
{
    if pc == is.len() {
        Outcome::Done(m)
    } else if fuel == 0 || pc < 0 || pc > is.len() {
        Outcome::Stuck
    } else {
        let f = (fuel - 1) as nat;
        match step(is[pc], m) {
            Step::Continue(m2) => run(is, pc + 1, m2, f),
            Step::Jump(l, m2) => match find_label(is, l, 0) {
                Some(k) => run(is, k, m2, f),
                None => Outcome::Exit(l, m2),
            },
            Step::Halt => Outcome::Stuck,
        }
    }
}

/// The value in `rax` when running ends past the last instruction.
pub open spec fn result_rax(o: Outcome) -> Option<i64> {
    match o {
        Outcome::Done(m) => Some((m.regs)(Reg::RAX)),
        _ => None,
    }
}

/// The encoding of a boolean.
pub open spec fn bool_value(b: bool) -> i64 {
    if b { TRUE_VAL } else { FALSE_VAL }
}

proof fn lemma_number_tag(a: i32)
    ensures
        ((2 * a) as i64) & 1 == 0,
{
    crate::tagging::lemma_tags(a);
}

proof fn lemma_compare(op: BinOp, k: CJump, temp: i32, c: int, a: i32, b: i32, m: Machine)
    requires
        (m.frame)(temp) == 2 * a,
        (m.regs)(Reg::RAX) == 2 * b,
        binop_tail(op, temp, c).0 == check_number_spec(frame(temp)) + check_number_spec(rax())
            + seq![InstrV::IMov(r10(), frame(temp)), InstrV::ICmp(r10(), rax())]
            + bool_result_spec(k, c),
    ensures
        result_rax(run(binop_tail(op, temp, c).0, 0, m, 20)) == Some(
            bool_value(jump_taken(jump_spec(k, Seq::empty()), 2 * a, 2 * b)),
        ),
{
    lemma_number_tag(a);
    lemma_number_tag(b);
    let is = binop_tail(op, temp, c).0;
    let t = crate::text::label_text("bool_true"@, c);
    let e = crate::text::label_text("bool_end"@, c + 1);
    if t == e {
        crate::text::lemma_label_text_injective("bool_true"@, c, "bool_end"@, c + 1);
    }
    assert(is[9] == InstrV::ILabel(t));
    assert(is[6] == jump_spec(k, t));
    assert(jump_taken(jump_spec(k, t), 2 * a, 2 * b) == jump_taken(jump_spec(k, Seq::empty()), 2 * a, 2 * b));
    reveal_with_fuel(run, 14);
    reveal_with_fuel(find_label, 12);
}

proof fn lemma_equal(temp: i32, c: int, a: i32, b: i32, m: Machine)
    requires
        (m.frame)(temp) == 2 * a,
        (m.regs)(Reg::RAX) == 2 * b,
    ensures
        result_rax(run(binop_tail(BinOp::Equal, temp, c).0, 0, m, 20)) == Some(bool_value(a == b)),
{
    lemma_number_tag(a);
    lemma_number_tag(b);
    let is = binop_tail(BinOp::Equal, temp, c).0;
    let t = crate::text::label_text("bool_true"@, c);
    let e = crate::text::label_text("bool_end"@, c + 1);
    if t == e {
        crate::text::lemma_label_text_injective("bool_true"@, c, "bool_end"@, c + 1);
    }
    assert(is[11] == InstrV::ILabel(t));
    assert(is[8] == InstrV::IJe(t));
    reveal_with_fuel(run, 16);
    reveal_with_fuel(find_label, 14);
}

proof fn lemma_plus(temp: i32, c: int, a: i32, b: i32, m: Machine)
    requires
        (m.frame)(temp) == 2 * a,
        (m.regs)(Reg::RAX) == 2 * b,
    ensures
        result_rax(run(binop_tail(BinOp::Plus, temp, c).0, 0, m, 20)) == Some((2 * (a + b)) as i64),
{
    lemma_number_tag(a);
    lemma_number_tag(b);
    let x = (2 * a) as i64;
    let y = (2 * b) as i64;
    assert((x + y) as i64 == (2 * (a + b)) as i64);
    reveal_with_fuel(run, 10);
}

proof fn lemma_minus(temp: i32, c: int, a: i32, b: i32, m: Machine)
    requires
        (m.frame)(temp) == 2 * a,
        (m.regs)(Reg::RAX) == 2 * b,
    ensures
        result_rax(run(binop_tail(BinOp::Minus, temp, c).0, 0, m, 20)) == Some((2 * (a - b)) as i64),
{
    lemma_number_tag(a);
    lemma_number_tag(b);
    let x = (2 * a) as i64;
    let y = (2 * b) as i64;
    assert((x - y) as i64 == (2 * (a - b)) as i64);
    reveal_with_fuel(run, 10);
}

#[verifier::spinoff_prover]
#[verifier::rlimit(40)]
proof fn lemma_times(temp: i32, c: int, a: i32, b: i32, m: Machine)
    requires
        (m.frame)(temp) == 2 * a,
        (m.regs)(Reg::RAX) == 2 * b,
    ensures
        result_rax(run(binop_tail(BinOp::Times, temp, c).0, 0, m, 20)) == Some((2 * (a * b)) as i64),
{
    lemma_number_tag(a);
    lemma_number_tag(b);
    let x = (2 * a) as i64;
    let y = (2 * b) as i64;
    let aa = a as i64;
    assert((x >> 1u64) == aa) by (bit_vector)
        requires
            x == 2 * aa,
            -0x8000_0000 <= aa < 0x8000_0000,
    ;
    assert(aa * y == 2 * (a * b)) by (nonlinear_arith)
        requires
            aa == a,
            y == 2 * b,
    ;
    assert(arith(InstrV::IMul(r10(), rax()), x >> 1u64, y) == (2 * (a * b)) as i64);
    assert(arith(InstrV::ISar(r10(), Val::Imm(1)), x, 1) == aa);
    reveal_with_fuel(run, 11);
}

/// The encoded value of a binary operator applied to the numbers `a` and
/// `b`: their sum, difference or product (wrapping to 64 bits), or whether
/// the comparison holds.
pub open spec fn binop_value(op: BinOp, a: i32, b: i32) -> i64 {
    match op {
        BinOp::Plus => (2 * (a + b)) as i64,
        BinOp::Minus => (2 * (a - b)) as i64,
        BinOp::Times => (2 * (a * b)) as i64,
        BinOp::Less => bool_value(a < b),
        BinOp::Greater => bool_value(a > b),
        BinOp::LessEq => bool_value(a <= b),
        BinOp::GreaterEq => bool_value(a >= b),
        BinOp::Equal => bool_value(a == b),
    }
}

/// Running the code of a binary operator with the number `a` in its frame
/// slot as the left operand and the number `b` in `rax` as the right one
/// leaves the encoded result in `rax`: `a + b`, `a - b` and `a * b` (the
/// product wrapping to 64 bits), or `true` exactly when `a < b`, `a > b`,
/// `a <= b`, `a >= b` or `a == b` holds.
pub proof fn lemma_binop_meaning(op: BinOp, temp: i32, c: int, a: i32, b: i32, m: Machine)
    requires
        (m.frame)(temp) == 2 * a,
        (m.regs)(Reg::RAX) == 2 * b,
    ensures
        result_rax(run(binop_tail(op, temp, c).0, 0, m, 20)) == Some(
            match op {
                BinOp::Plus => (2 * (a + b)) as i64,
                BinOp::Minus => (2 * (a - b)) as i64,
                BinOp::Times => (2 * (a * b)) as i64,
                BinOp::Less => bool_value(a < b),
                BinOp::Greater => bool_value(a > b),
                BinOp::LessEq => bool_value(a <= b),
                BinOp::GreaterEq => bool_value(a >= b),
                BinOp::Equal => bool_value(a == b),
            },
        ),
{
    match op {
        BinOp::Less => lemma_compare(op, CJump::L, temp, c, a, b, m),
        BinOp::Greater => lemma_compare(op, CJump::G, temp, c, a, b, m),
        BinOp::LessEq => lemma_compare(op, CJump::LE, temp, c, a, b, m),
        BinOp::GreaterEq => lemma_compare(op, CJump::GE, temp, c, a, b, m),
        BinOp::Equal => lemma_equal(temp, c, a, b, m),
        BinOp::Plus => lemma_plus(temp, c, a, b, m),
        BinOp::Minus => lemma_minus(temp, c, a, b, m),
        BinOp::Times => lemma_times(temp, c, a, b, m),
    }
}

/// A label that `pre` does not define is found in `pre + is` where it is
/// found in `is`, shifted past `pre`.
proof fn lemma_find_label_shift(pre: Seq<InstrV>, is: Seq<InstrV>, l: Seq<char>, k: int)
    requires
        forall|j: int| 0 <= j < pre.len() ==> !(#[trigger] pre[j] is ILabel),
        0 <= k <= is.len(),
    ensures
        find_label(pre + is, l, k + pre.len()) == match find_label(is, l, k) {
            Some(j) => Some(j + pre.len()),
            None => None::<int>,
        },
    decreases is.len() - k,
{
    if k < is.len() {
        assert((pre + is)[k + pre.len()] == is[k]);
        lemma_find_label_shift(pre, is, l, k + 1);
    }
}

proof fn lemma_find_label_skip(pre: Seq<InstrV>, is: Seq<InstrV>, l: Seq<char>, k: int)
    requires
        forall|j: int| 0 <= j < pre.len() ==> !(#[trigger] pre[j] is ILabel),
        0 <= k <= pre.len(),
    ensures
        find_label(pre + is, l, k) == find_label(pre + is, l, pre.len() as int),
    decreases pre.len() - k,
{
    if k < pre.len() {
        assert((pre + is)[k] == pre[k]);
        lemma_find_label_skip(pre, is, l, k + 1);
    }
}

/// Code after a prefix that defines no label runs as it does on its own.
proof fn lemma_run_shift(pre: Seq<InstrV>, is: Seq<InstrV>, k: int, f: nat)
    requires
        forall|j: int| 0 <= j < pre.len() ==> !(#[trigger] pre[j] is ILabel),
        0 <= k <= is.len(),
    ensures
        forall|m: Machine| run(pre + is, k + pre.len(), m, f) == #[trigger] run(is, k, m, f),
    decreases f,
{
    let all = pre + is;
    let p = pre.len() as int;
    if k < is.len() && f > 0 {
        assert(all[k + p] == is[k]);
        let g = (f - 1) as nat;
        lemma_run_shift(pre, is, k + 1, g);
        assert forall|m: Machine| run(all, k + p, m, f) == #[trigger] run(is, k, m, f) by {
            match step(is[k], m) {
                Step::Continue(m2) => {
                    assert(run(all, k + 1 + p, m2, g) == run(is, k + 1, m2, g));
                    assert(k + p + 1 == k + 1 + p);
                },
                Step::Jump(l, m2) => {
                    lemma_find_label_skip(pre, is, l, 0);
                    lemma_find_label_shift(pre, is, l, 0);
                    match find_label(is, l, 0) {
                        Some(j) => {
                            lemma_find_label_in(is, l, 0);
                            lemma_run_shift(pre, is, j, g);
                            assert(run(all, j + p, m2, g) == run(is, j, m2, g));
                        },
                        None => {},
                    }
                },
                Step::Halt => {},
            }
        }
    }
}

proof fn lemma_find_label_in(is: Seq<InstrV>, l: Seq<char>, k: int)
    ensures
        find_label(is, l, k) matches Some(j) ==> k <= j < is.len(),
    decreases is.len() - k,
{
    if 0 <= k < is.len() && is[k] != InstrV::ILabel(l) {
        lemma_find_label_in(is, l, k + 1);
    }
}

/// Running the code that compiles `(op a b)`, for two number literals `a`
/// and `b`, from any state leaves the encoded result of the operator in
/// `rax`, the left operand first: as `lemma_binop_meaning` states it.
pub proof fn lemma_compiled_binop(
    op: BinOp,
    a: i32,
    b: i32,
    si: int,
    env: Map<Seq<char>, i32>,
    params: Set<Seq<char>>,
    funcs: Map<Seq<char>, (nat, Seq<char>)>,
    c: int,
    brk: Option<Seq<char>>,
    m: Machine,
)
    requires
        0 <= si,
        si + 3 < crate::diamondback::compile::SLOT_LIMIT,
    ensures
        compile_spec(
            ExprV::BinOp(op, Box::new(ExprV::Number(a)), Box::new(ExprV::Number(b))),
            si,
            env,
            params,
            funcs,
            c,
            brk,
        ) is Ok,
        result_rax(
            run(
                compile_spec(
                    ExprV::BinOp(op, Box::new(ExprV::Number(a)), Box::new(ExprV::Number(b))),
                    si,
                    env,
                    params,
                    funcs,
                    c,
                    brk,
                )->Ok_0.0,
                0,
                m,
                23,
            ),
        ) == Some(binop_value(op, a, b)),
{
    let e = ExprV::BinOp(op, Box::new(ExprV::Number(a)), Box::new(ExprV::Number(b)));
    let code = compile_spec(e, si, env, params, funcs, c, brk)->Ok_0.0;
    let temp = slot_off(si);
    let pre = seq![
        InstrV::IMov(rax(), Val::Imm((2 * a) as i64)),
        InstrV::IMov(frame(temp), rax()),
        InstrV::IMov(rax(), Val::Imm((2 * b) as i64)),
    ];
    let tail = binop_tail(op, temp, c).0;
    assert(compile_spec(ExprV::Number(a), si, env, params, funcs, c, brk) == Ok::<
        (Seq<InstrV>, int),
        crate::error::CompileErrorV,
    >((seq![InstrV::IMov(rax(), Val::Imm((2 * a) as i64))], c)));
    assert(compile_spec(ExprV::Number(b), si + 1, env, params, funcs, c, brk) == Ok::<
        (Seq<InstrV>, int),
        crate::error::CompileErrorV,
    >((seq![InstrV::IMov(rax(), Val::Imm((2 * b) as i64))], c)));
    assert(code =~= pre + tail);
    let m1 = store(m, rax(), (2 * a) as i64)->0;
    let m2 = store(m1, frame(temp), (2 * a) as i64)->0;
    let m3 = store(m2, rax(), (2 * b) as i64)->0;
    assert(run(code, 0, m, 23) == run(code, 1, m1, 22));
    assert(run(code, 1, m1, 22) == run(code, 2, m2, 21));
    assert(run(code, 2, m2, 21) == run(code, 3, m3, 20));
    lemma_run_shift(pre, tail, 0, 20);
    assert(run(pre + tail, 0int + pre.len(), m3, 20) == run(tail, 0, m3, 20));
    lemma_binop_meaning(op, temp, c, a, b, m3);
}

/// Running the code of `(if v x y)`, for a boolean literal `v` and number
/// literals `x` and `y`, leaves `x` in `rax` when `v` is true and `y` when it
/// is false.
pub proof fn lemma_compiled_if(
    v: bool,
    x: i32,
    y: i32,
    si: int,
    env: Map<Seq<char>, i32>,
    params: Set<Seq<char>>,
    funcs: Map<Seq<char>, (nat, Seq<char>)>,
    c: int,
    brk: Option<Seq<char>>,
    m: Machine,
)
    ensures
        compile_spec(ExprV::If(Box::new(ExprV::Bool(v)), Box::new(ExprV::Number(x)), Box::new(ExprV::Number(y))), si, env, params, funcs, c, brk) is Ok,
        result_rax(run(compile_spec(ExprV::If(Box::new(ExprV::Bool(v)), Box::new(ExprV::Number(x)), Box::new(ExprV::Number(y))), si, env, params, funcs, c, brk)->Ok_0.0, 0, m, 12)) == Some(
            if v { (2 * x) as i64 } else { (2 * y) as i64 },
        ),
{
    let e = ExprV::If(Box::new(ExprV::Bool(v)), Box::new(ExprV::Number(x)), Box::new(ExprV::Number(y)));
    let code = compile_spec(ExprV::If(Box::new(ExprV::Bool(v)), Box::new(ExprV::Number(x)), Box::new(ExprV::Number(y))), si, env, params, funcs, c, brk)->Ok_0.0;
    let el = crate::text::label_text("if_else"@, c);
    let en = crate::text::label_text("if_end"@, c + 1);
    if el == en {
        crate::text::lemma_label_text_injective("if_else"@, c, "if_end"@, c + 1);
    }
    assert(compile_spec(ExprV::Bool(v), si, env, params, funcs, c + 2, brk) == Ok::<
        (Seq<InstrV>, int),
        crate::error::CompileErrorV,
    >((seq![InstrV::IMov(rax(), Val::Imm(bool_value(v)))], c + 2)));
    assert(compile_spec(ExprV::Number(x), si, env, params, funcs, c + 2, brk) == Ok::<
        (Seq<InstrV>, int),
        crate::error::CompileErrorV,
    >((seq![InstrV::IMov(rax(), Val::Imm((2 * x) as i64))], c + 2)));
    assert(compile_spec(ExprV::Number(y), si, env, params, funcs, c + 2, brk) == Ok::<
        (Seq<InstrV>, int),
        crate::error::CompileErrorV,
    >((seq![InstrV::IMov(rax(), Val::Imm((2 * y) as i64))], c + 2)));
    assert(code =~= seq![
        InstrV::IMov(rax(), Val::Imm(bool_value(v))),
        InstrV::ICmp(rax(), Val::Imm(FALSE_VAL)),
        InstrV::IJe(el),
        InstrV::IMov(rax(), Val::Imm((2 * x) as i64)),
        InstrV::IJmp(en),
        InstrV::ILabel(el),
        InstrV::IMov(rax(), Val::Imm((2 * y) as i64)),
        InstrV::ILabel(en),
    ]);
    reveal_with_fuel(run, 9);
    reveal_with_fuel(find_label, 9);
}

/// Running the code of `(loop (break n))`, for a number literal `n`, leaves
/// `n` in `rax`: the break leaves the loop with its value.
pub proof fn lemma_compiled_loop_break(
    n: i32,
    si: int,
    env: Map<Seq<char>, i32>,
    params: Set<Seq<char>>,
    funcs: Map<Seq<char>, (nat, Seq<char>)>,
    c: int,
    brk: Option<Seq<char>>,
    m: Machine,
)
    ensures
        compile_spec(ExprV::Loop(Box::new(ExprV::Break(Box::new(ExprV::Number(n))))), si, env, params, funcs, c, brk) is Ok,
        result_rax(run(compile_spec(ExprV::Loop(Box::new(ExprV::Break(Box::new(ExprV::Number(n))))), si, env, params, funcs, c, brk)->Ok_0.0, 0, m, 8)) == Some((2 * n) as i64),
{
    let e = ExprV::Loop(Box::new(ExprV::Break(Box::new(ExprV::Number(n)))));
    let code = compile_spec(ExprV::Loop(Box::new(ExprV::Break(Box::new(ExprV::Number(n))))), si, env, params, funcs, c, brk)->Ok_0.0;
    let st = crate::text::label_text("loop_start"@, c);
    let en = crate::text::label_text("loop_end"@, c + 1);
    if st == en {
        crate::text::lemma_label_text_injective("loop_start"@, c, "loop_end"@, c + 1);
    }
    assert(compile_spec(ExprV::Number(n), si, env, params, funcs, c + 2, Some(en)) == Ok::<
        (Seq<InstrV>, int),
        crate::error::CompileErrorV,
    >((seq![InstrV::IMov(rax(), Val::Imm((2 * n) as i64))], c + 2)));
    assert(compile_spec(ExprV::Break(Box::new(ExprV::Number(n))), si, env, params, funcs, c + 2, Some(en)) == Ok::<
        (Seq<InstrV>, int),
        crate::error::CompileErrorV,
    >((seq![InstrV::IMov(rax(), Val::Imm((2 * n) as i64))].push(InstrV::IJmp(en)), c + 2)));
    assert(code =~= seq![
        InstrV::ILabel(st),
        InstrV::IMov(rax(), Val::Imm((2 * n) as i64)),
        InstrV::IJmp(en),
        InstrV::IJmp(st),
        InstrV::ILabel(en),
    ]);
    reveal_with_fuel(run, 6);
    reveal_with_fuel(find_label, 6);
}

/// Running the code of `(let ((x n)) x)`, for a number literal `n`, leaves
/// `n` in `rax`: a variable reads the value that its binding stored.
pub proof fn lemma_compiled_let(
    x: Seq<char>,
    n: i32,
    si: int,
    env: Map<Seq<char>, i32>,
    params: Set<Seq<char>>,
    funcs: Map<Seq<char>, (nat, Seq<char>)>,
    c: int,
    brk: Option<Seq<char>>,
    m: Machine,
)
    requires
        0 <= si < crate::diamondback::compile::SLOT_LIMIT,
        !params.contains(x),
    ensures
        compile_spec(ExprV::Let(seq![(x, ExprV::Number(n))], Box::new(ExprV::Id(x))), si, env, params, funcs, c, brk) is Ok,
        result_rax(run(compile_spec(ExprV::Let(seq![(x, ExprV::Number(n))], Box::new(ExprV::Id(x))), si, env, params, funcs, c, brk)->Ok_0.0, 0, m, 6)) == Some((2 * n) as i64),
{
    let bs = seq![(x, ExprV::Number(n))];
    let code = compile_spec(ExprV::Let(seq![(x, ExprV::Number(n))], Box::new(ExprV::Id(x))), si, env, params, funcs, c, brk)->Ok_0.0;
    let off = slot_off(si);
    assert(!crate::diamondback::compile::bound_before(bs, 0, x));
    assert(bs.len() == 1);
    assert(bs[0] == (x, ExprV::Number(n)));
    let lp0 = crate::diamondback::compile::let_prefix(bs, 0, si, env, params, funcs, c, brk);
    assert(lp0 == Ok::<(Seq<InstrV>, Map<Seq<char>, i32>, int), crate::error::CompileErrorV>(
        (Seq::empty(), env, c),
    ));
    assert(compile_spec(ExprV::Number(n), si, env, params, funcs, c, brk) == Ok::<
        (Seq<InstrV>, int),
        crate::error::CompileErrorV,
    >((seq![InstrV::IMov(rax(), Val::Imm((2 * n) as i64))], c)));
    let env1 = env.insert(x, off);
    let lp1 = crate::diamondback::compile::let_prefix(bs, 1, si, env, params, funcs, c, brk);
    assert(lp1 is Ok);
    assert(lp1->Ok_0.0 =~= seq![
        InstrV::IMov(rax(), Val::Imm((2 * n) as i64)),
        InstrV::IMov(frame(off), rax()),
    ]);
    assert(lp1->Ok_0.1 == env1);
    assert(compile_spec(ExprV::Id(x), si + 1, env1, params, funcs, c, brk) == Ok::<
        (Seq<InstrV>, int),
        crate::error::CompileErrorV,
    >((seq![InstrV::IMov(rax(), frame(off))], c)));
    assert(code =~= seq![
        InstrV::IMov(rax(), Val::Imm((2 * n) as i64)),
        InstrV::IMov(frame(off), rax()),
        InstrV::IMov(rax(), frame(off)),
    ]);
    reveal_with_fuel(run, 4);
}

proof fn lemma_tag_bit(x: i64)
    ensures
        (x & 1 == 0) == (x % 2 == 0),
{
    assert((x & 1 == 0) == (x % 2 == 0)) by (bit_vector);
}

proof fn lemma_not_generated(p: Seq<char>, n: int)
    ensures
        crate::text::label_text(p, n) != error_label(),
{
    reveal_strlit("throw_error_invalid");
    crate::text::lemma_label_ends_in_digit(p, n);
    assert(error_label().last() == 'd');
}

/// Code that first checks that two values are numbers jumps to the handler
/// of invalid arguments when one of them is not.
proof fn lemma_checks_reject(is: Seq<InstrV>, l: Val, r: Val, x: i64, y: i64, m: Machine)
    requires
        is.len() >= 4,
        is[0] == InstrV::ITest(l, Val::Imm(crate::tagging::NUM_TAG_MASK)),
        is[1] == InstrV::IJne(error_label()),
        is[2] == InstrV::ITest(r, Val::Imm(crate::tagging::NUM_TAG_MASK)),
        is[3] == InstrV::IJne(error_label()),
        operand(m, l) == Some(x),
        operand(m, r) == Some(y),
        x % 2 != 0 || y % 2 != 0,
        forall|j: int| 0 <= j < is.len() ==> is[j] != InstrV::ILabel(error_label()),
    ensures
        run(is, 0, m, 20) is Exit,
        run(is, 0, m, 20)->Exit_0 == error_label(),
{
    lemma_tag_bit(x);
    lemma_tag_bit(y);
    lemma_find_label_absent(is, error_label(), 0);
    reveal_with_fuel(run, 5);
}

/// The labels of the code of a binary operator are its own generated ones.
proof fn lemma_no_error_label(is: Seq<InstrV>, c: int)
    requires
        forall|j: int|
            0 <= j < is.len() && is[j] is ILabel ==> is[j] == InstrV::ILabel(
                crate::text::label_text("bool_true"@, c),
            ) || is[j] == InstrV::ILabel(crate::text::label_text("bool_end"@, c + 1)),
    ensures
        forall|j: int| 0 <= j < is.len() ==> is[j] != InstrV::ILabel(error_label()),
{
    lemma_not_generated("bool_true"@, c);
    lemma_not_generated("bool_end"@, c + 1);
}

/// Running the code of a binary operator on two values of which one is not
/// a number (its low bit is set) jumps to the handler of invalid arguments;
/// so does `=` on a number and a boolean.
pub proof fn lemma_binop_rejects(op: BinOp, temp: i32, c: int, x: i64, y: i64, m: Machine)
    requires
        (m.frame)(temp) == x,
        (m.regs)(Reg::RAX) == y,
        if op is Equal {
            (x % 2 == 0) != (y % 2 == 0)
        } else {
            x % 2 != 0 || y % 2 != 0
        },
    ensures
        run(binop_tail(op, temp, c).0, 0, m, 20) is Exit,
        run(binop_tail(op, temp, c).0, 0, m, 20)->Exit_0 == error_label(),
{
    let is = binop_tail(op, temp, c).0;
    lemma_no_error_label(is, c);
    if op is Equal {
        lemma_equal_rejects(temp, c, x, y, m);
    } else {
        lemma_checks_reject(is, frame(temp), rax(), x, y, m);
    }
}

#[verifier::spinoff_prover]
proof fn lemma_equal_rejects(temp: i32, c: int, x: i64, y: i64, m: Machine)
    requires
        (m.frame)(temp) == x,
        (m.regs)(Reg::RAX) == y,
        (x % 2 == 0) != (y % 2 == 0),
    ensures
        run(binop_tail(BinOp::Equal, temp, c).0, 0, m, 20) is Exit,
        run(binop_tail(BinOp::Equal, temp, c).0, 0, m, 20)->Exit_0 == error_label(),
{
    let is = binop_tail(BinOp::Equal, temp, c).0;
    lemma_no_error_label(is, c);
    lemma_find_label_absent(is, error_label(), 0);
    lemma_tag_bit(x);
    lemma_tag_bit(y);
    assert((x & 1) == (x & crate::tagging::BOOL_TAG_MASK));
    reveal_with_fuel(run, 7);
}

proof fn lemma_find_label_absent(is: Seq<InstrV>, l: Seq<char>, k: int)
    requires
        forall|j: int| 0 <= j < is.len() ==> is[j] != InstrV::ILabel(l),
    ensures
        find_label(is, l, k) is None,
    decreases is.len() - k,
{
    if 0 <= k < is.len() {
        lemma_find_label_absent(is, l, k + 1);
    }
}

/// Running the code of a unary operator on the number `n` in `rax` leaves
/// the encoded result in `rax`: `n + 1`, `n - 1`, `-n`, and whether the
/// value is a number (true) or a boolean (false).
pub proof fn lemma_unop_meaning(op: UnOp, c: int, n: i32, m: Machine)
    requires
        !(op is Print),
        (m.regs)(Reg::RAX) == 2 * n,
    ensures
        result_rax(run(unop_tail(op, c).0, 0, m, 20)) == Some(
            match op {
                UnOp::Add1 => (2 * (n + 1)) as i64,
                UnOp::Sub1 => (2 * (n - 1)) as i64,
                UnOp::Negate => (2 * (-n)) as i64,
                UnOp::IsNum => TRUE_VAL,
                _ => FALSE_VAL,
            },
        ),
{
    lemma_number_tag(n);
    let x = (2 * n) as i64;
    assert(arith(InstrV::IAdd(rax(), Val::Imm(2)), x, 2) == (2 * (n + 1)) as i64);
    assert(arith(InstrV::ISub(rax(), Val::Imm(2)), x, 2) == (2 * (n - 1)) as i64);
    assert(arith(InstrV::IMul(rax(), Val::Imm(-1i64)), x, -1i64) == (2 * (-n)) as i64);
    let is = unop_tail(op, c).0;
    match op {
        UnOp::IsNum => {
            let f = crate::text::label_text("isnum_false"@, c);
            let e = crate::text::label_text("isnum_end"@, c + 1);
            if f == e {
                crate::text::lemma_label_text_injective("isnum_false"@, c, "isnum_end"@, c + 1);
            }
            assert(is[4] == InstrV::ILabel(f));
            assert(is[6] == InstrV::ILabel(e));
            reveal_with_fuel(run, 10);
            reveal_with_fuel(find_label, 8);
        },
        UnOp::IsBool => {
            let t = crate::text::label_text("isbool_true"@, c);
            let e = crate::text::label_text("isbool_end"@, c + 1);
            if t == e {
                crate::text::lemma_label_text_injective("isbool_true"@, c, "isbool_end"@, c + 1);
            }
            assert(is[4] == InstrV::ILabel(t));
            assert(is[6] == InstrV::ILabel(e));
            reveal_with_fuel(run, 10);
            reveal_with_fuel(find_label, 8);
        },
        _ => {
            reveal_with_fuel(run, 5);
            reveal_with_fuel(find_label, 4);
        },
    }
}

/// Running the code of a unary operator on a boolean in `rax`: `isnum`
/// gives false and `isbool` true, and the arithmetic operators jump to the
/// handler of invalid arguments.
#[verifier::spinoff_prover]
#[verifier::rlimit(40)]
pub proof fn lemma_unop_on_boolean(op: UnOp, c: int, v: bool, m: Machine)
    requires
        !(op is Print),
        (m.regs)(Reg::RAX) == bool_value(v),
    ensures
        op is IsNum ==> result_rax(run(unop_tail(op, c).0, 0, m, 20)) == Some(FALSE_VAL),
        op is IsBool ==> result_rax(run(unop_tail(op, c).0, 0, m, 20)) == Some(TRUE_VAL),
        op is Add1 || op is Sub1 || op is Negate ==> run(unop_tail(op, c).0, 0, m, 20) is Exit
            && run(unop_tail(op, c).0, 0, m, 20)->Exit_0 == error_label(),
{
    assert(TRUE_VAL & 1 == 1) by (bit_vector);
    assert(FALSE_VAL & 1 == 1) by (bit_vector);
    let is = unop_tail(op, c).0;
    reveal_strlit("throw_error_invalid");
    match op {
        UnOp::IsNum => {
            let f = crate::text::label_text("isnum_false"@, c);
            let e = crate::text::label_text("isnum_end"@, c + 1);
            if f == e {
                crate::text::lemma_label_text_injective("isnum_false"@, c, "isnum_end"@, c + 1);
            }
            assert(is[4] == InstrV::ILabel(f));
            assert(is[6] == InstrV::ILabel(e));
            reveal_with_fuel(run, 10);
            reveal_with_fuel(find_label, 8);
        },
        UnOp::IsBool => {
            let t = crate::text::label_text("isbool_true"@, c);
            let e = crate::text::label_text("isbool_end"@, c + 1);
            if t == e {
                crate::text::lemma_label_text_injective("isbool_true"@, c, "isbool_end"@, c + 1);
            }
            assert(is[4] == InstrV::ILabel(t));
            assert(is[6] == InstrV::ILabel(e));
            reveal_with_fuel(run, 10);
            reveal_with_fuel(find_label, 8);
        },
        _ => {
            reveal_with_fuel(run, 5);
            reveal_with_fuel(find_label, 4);
        },
    }
}

/// The condition that an x86 jump mnemonic tests of a comparison of `x`
/// with `y` (signed); `jmp` jumps always.
pub open spec fn jump_mnemonic_taken(mn: Seq<char>, x: int, y: int) -> Option<bool> {
    if mn == "jmp"@ {
        Some(true)
    } else if mn == "je"@ {
        Some(x == y)
    } else if mn == "jne"@ {
        Some(x != y)
    } else if mn == "jg"@ {
        Some(x > y)
    } else if mn == "jge"@ {
        Some(x >= y)
    } else if mn == "jl"@ {
        Some(x < y)
    } else if mn == "jle"@ {
        Some(x <= y)
    } else {
        None
    }
}

/// The word that an x86 two-operand mnemonic writes to its destination,
/// given the destination's value `x` and the source's value `y`.
pub open spec fn write_mnemonic_value(mn: Seq<char>, x: i64, y: i64) -> Option<i64> {
    if mn == "mov"@ {
        Some(y)
    } else if mn == "add"@ {
        Some((x + y) as i64)
    } else if mn == "sub"@ {
        Some((x - y) as i64)
    } else if mn == "imul"@ {
        Some((x * y) as i64)
    } else if mn == "sar"@ {
        Some(x >> (y as u64))
    } else if mn == "and"@ {
        Some(x & y)
    } else {
        None
    }
}

/// The two values that an x86 mnemonic sets the flags from: `cmp` compares
/// its operands, `test` compares their bitwise and with zero.
pub open spec fn flag_mnemonic_values(mn: Seq<char>, x: i64, y: i64) -> Option<(int, int)> {
    if mn == "cmp"@ {
        Some((x as int, y as int))
    } else if mn == "test"@ {
        Some(((x & y) as int, 0))
    } else {
        None
    }
}

proof fn lemma_mnemonics_differ()
    ensures
        "jmp"@ != "je"@, "jmp"@ != "jne"@, "jmp"@ != "jg"@, "jmp"@ != "jge"@, "jmp"@ != "jl"@,
        "jmp"@ != "jle"@, "je"@ != "jne"@, "je"@ != "jg"@, "je"@ != "jge"@, "je"@ != "jl"@,
        "je"@ != "jle"@, "jne"@ != "jg"@, "jne"@ != "jge"@, "jne"@ != "jl"@, "jne"@ != "jle"@,
        "jg"@ != "jge"@, "jg"@ != "jl"@, "jg"@ != "jle"@, "jge"@ != "jl"@, "jge"@ != "jle"@,
        "jl"@ != "jle"@,
        "mov"@ != "add"@, "mov"@ != "sub"@, "mov"@ != "imul"@, "mov"@ != "sar"@, "mov"@ != "and"@,
        "add"@ != "sub"@, "add"@ != "imul"@, "add"@ != "sar"@, "add"@ != "and"@,
        "sub"@ != "imul"@, "sub"@ != "sar"@, "sub"@ != "and"@, "imul"@ != "sar"@,
        "imul"@ != "and"@, "sar"@ != "and"@, "cmp"@ != "test"@,
{
    reveal_strlit("jmp");
    reveal_strlit("je");
    reveal_strlit("jne");
    reveal_strlit("jg");
    reveal_strlit("jge");
    reveal_strlit("jl");
    reveal_strlit("jle");
    reveal_strlit("mov");
    reveal_strlit("add");
    reveal_strlit("sub");
    reveal_strlit("imul");
    reveal_strlit("sar");
    reveal_strlit("and");
    reveal_strlit("cmp");
    reveal_strlit("test");
    assert("jmp"@[1] != "je"@[1]);
    assert("jmp"@[1] != "jne"@[1]);
    assert("jmp"@[1] != "jge"@[1]);
    assert("jmp"@[1] != "jle"@[1]);
    assert("je"@[1] != "jg"@[1]);
    assert("je"@[1] != "jl"@[1]);
    assert("jne"@[1] != "jge"@[1]);
    assert("jne"@[1] != "jle"@[1]);
    assert("jge"@[1] != "jle"@[1]);
    assert("jg"@[1] != "jl"@[1]);
    assert("jg"@.len() != "jge"@.len());
    assert("jg"@.len() != "jle"@.len());
    assert("jge"@[1] != "jl"@[1]);
    assert("jl"@.len() != "jle"@.len());
    assert("mov"@[0] != "add"@[0]);
    assert("mov"@[0] != "sub"@[0]);
    assert("mov"@[0] != "sar"@[0]);
    assert("mov"@[0] != "and"@[0]);
    assert("add"@[0] != "sub"@[0]);
    assert("add"@[0] != "sar"@[0]);
    assert("add"@[1] != "and"@[1]);
    assert("sub"@[1] != "sar"@[1]);
    assert("sub"@[0] != "and"@[0]);
    assert("sar"@[0] != "and"@[0]);
    assert("cmp"@[0] != "test"@[0]);
}

/// The text of every jump is two spaces, a mnemonic, a space and the target, and
/// the mnemonic's x86 condition is the condition under which the machine
/// takes the jump.  The mnemonic is returned.
pub proof fn lemma_jump_text(i: InstrV, l: Seq<char>) -> (mn: Seq<char>)
    requires
        i == InstrV::IJmp(l) || i == InstrV::IJe(l) || i == InstrV::IJne(l) || i == InstrV::IJg(l)
            || i == InstrV::IJge(l) || i == InstrV::IJl(l) || i == InstrV::IJle(l),
    ensures
        instr_text(i) == "  "@ + mn + " "@ + l,
        forall|x: int, y: int| jump_mnemonic_taken(mn, x, y) == Some(jump_taken(i, x, y)),
{
    lemma_mnemonics_differ();
    reveal_strlit("jmp");
    reveal_strlit("je");
    reveal_strlit("jne");
    reveal_strlit("jg");
    reveal_strlit("jge");
    reveal_strlit("jl");
    reveal_strlit("jle");
    reveal_strlit(" ");
    reveal_strlit("  jmp ");
    reveal_strlit("  je ");
    reveal_strlit("  jne ");
    reveal_strlit("  jg ");
    reveal_strlit("  jge ");
    reveal_strlit("  jl ");
    reveal_strlit("  jle ");
    reveal_strlit("  ");
    let mn = match i {
        InstrV::IJmp(_) => {
            assert("  jmp "@ =~= "  "@ + "jmp"@ + " "@);
            "jmp"@
        },
        InstrV::IJe(_) => {
            assert("  je "@ =~= "  "@ + "je"@ + " "@);
            "je"@
        },
        InstrV::IJne(_) => {
            assert("  jne "@ =~= "  "@ + "jne"@ + " "@);
            "jne"@
        },
        InstrV::IJg(_) => {
            assert("  jg "@ =~= "  "@ + "jg"@ + " "@);
            "jg"@
        },
        InstrV::IJge(_) => {
            assert("  jge "@ =~= "  "@ + "jge"@ + " "@);
            "jge"@
        },
        InstrV::IJl(_) => {
            assert("  jl "@ =~= "  "@ + "jl"@ + " "@);
            "jl"@
        },
        _ => {
            assert("  jle "@ =~= "  "@ + "jle"@ + " "@);
            "jle"@
        },
    };
    reveal_strlit("  jmp ");
    reveal_strlit("  je ");
    reveal_strlit("  jne ");
    reveal_strlit("  jg ");
    reveal_strlit("  jge ");
    reveal_strlit("  jl ");
    reveal_strlit("  jle ");
    reveal_strlit("  ");
    assert(instr_text(i) =~= "  "@ + mn + " "@ + l);
    mn
}

/// The text of every two-operand instruction is two spaces, a mnemonic, a space,
/// the destination, a comma and the source; the mnemonic's x86 meaning is
/// what the machine does: the word it writes to the destination, or the
/// values it sets the flags from.  The mnemonic is returned.
pub proof fn lemma_operation_text(i: InstrV, d: Val, s: Val) -> (mn: Seq<char>)
    requires
        i == InstrV::IMov(d, s) || i == InstrV::IAdd(d, s) || i == InstrV::ISub(d, s)
            || i == InstrV::IMul(d, s) || i == InstrV::ISar(d, s) || i == InstrV::IAnd(d, s)
            || i == InstrV::ICmp(d, s) || i == InstrV::ITest(d, s),
    ensures
        instr_text(i) == "  "@ + mn + " "@ + val_text(d) + ", "@ + val_text(s),
        i is IMov ==> forall|x: i64, y: i64| write_mnemonic_value(mn, x, y) == Some(y),
        i is IAdd || i is ISub || i is IMul || i is ISar || i is IAnd ==> forall|x: i64, y: i64|
            write_mnemonic_value(mn, x, y) == Some(arith(i, x, y)),
        i is ICmp ==> forall|x: i64, y: i64|
            flag_mnemonic_values(mn, x, y) == Some((x as int, y as int)),
        i is ITest ==> forall|x: i64, y: i64|
            flag_mnemonic_values(mn, x, y) == Some(((x & y) as int, 0int)),
{
    lemma_mnemonics_differ();
    reveal_strlit("mov");
    reveal_strlit("add");
    reveal_strlit("sub");
    reveal_strlit("imul");
    reveal_strlit("sar");
    reveal_strlit("and");
    reveal_strlit("cmp");
    reveal_strlit("test");
    reveal_strlit(" ");
    reveal_strlit(", ");
    reveal_strlit("  mov ");
    reveal_strlit("  add ");
    reveal_strlit("  sub ");
    reveal_strlit("  imul ");
    reveal_strlit("  sar ");
    reveal_strlit("  and ");
    reveal_strlit("  cmp ");
    reveal_strlit("  test ");
    reveal_strlit("  ");
    let mn = match i {
        InstrV::IMov(..) => {
            assert("  mov "@ =~= "  "@ + "mov"@ + " "@);
            "mov"@
        },
        InstrV::IAdd(..) => {
            assert("  add "@ =~= "  "@ + "add"@ + " "@);
            "add"@
        },
        InstrV::ISub(..) => {
            assert("  sub "@ =~= "  "@ + "sub"@ + " "@);
            "sub"@
        },
        InstrV::IMul(..) => {
            assert("  imul "@ =~= "  "@ + "imul"@ + " "@);
            "imul"@
        },
        InstrV::ISar(..) => {
            assert("  sar "@ =~= "  "@ + "sar"@ + " "@);
            "sar"@
        },
        InstrV::IAnd(..) => {
            assert("  and "@ =~= "  "@ + "and"@ + " "@);
            "and"@
        },
        InstrV::ICmp(..) => {
            assert("  cmp "@ =~= "  "@ + "cmp"@ + " "@);
            "cmp"@
        },
        _ => {
            assert("  test "@ =~= "  "@ + "test"@ + " "@);
            "test"@
        },
    };
    reveal_strlit("  mov ");
    reveal_strlit("  add ");
    reveal_strlit("  sub ");
    reveal_strlit("  imul ");
    reveal_strlit("  sar ");
    reveal_strlit("  and ");
    reveal_strlit("  cmp ");
    reveal_strlit("  test ");
    reveal_strlit("  ");
    assert(instr_text(i) =~= "  "@ + mn + " "@ + val_text(d) + ", "@ + val_text(s));
    mn
}

} // verus!
