//! Compiling Diamondback programs to instructions: function frames,
//! calls with arguments on the stack, and the main entry point.
use vstd::prelude::*;
use vstd::hash_map::StringHashMap;
use vstd::hash_set::StringHashSet;
use crate::error::{CompileError, CompileErrorV};
use crate::tagging::{encode_num, NUM_TAG_MASK, BOOL_TAG_MASK, TRUE_VAL, FALSE_VAL};
use crate::text::{new_label, label_text, push_char, join};
use crate::diamondback::syntax::{Expr, ExprV, UnOp, BinOp, Definition, DefinitionV, Program,
    ProgramV, expr_view, exprs_view, binds_view, names_view, defns_view, lemma_exprs_view,
    lemma_binds_view};
use crate::diamondback::machine::{Reg, Val, Instr, InstrV, CJump, instrs_view, instr_text,
    instr_to_str, lemma_instrs_view_add, lemma_instrs_view_push};
use crate::diamondback::env::VarEnv;
use vstd::utf8::encode_utf8;

verus! {

broadcast use vstd::std_specs::vec::axiom_vec_decreases_to_view, lemma_exprs_view,
    lemma_binds_view, lemma_instrs_view_add, lemma_instrs_view_push;

/// Stack slots stay below this bound, so that every offset fits in 32 bits.
pub const SLOT_LIMIT: i32 = 0x1000_0000;

/// What the compiler knows of a defined function.
#[derive(Debug)]
pub struct FunctionInfo {
    pub arity: usize,
    pub label: String,
}

/// The model of the table of defined functions: arity and label of each.
pub open spec fn funcs_view(m: Map<Seq<char>, FunctionInfo>) -> Map<Seq<char>, (nat, Seq<char>)> {
    m.map_values(|f: FunctionInfo| (f.arity as nat, f.label@))
}

/// The frame offset of stack slot `slot`.
pub open spec fn slot_off(slot: int) -> i32 {
    (-8 * slot) as i32
}

/// The operand `rax`.
pub open spec fn rax() -> Val {
    Val::Reg(Reg::RAX)
}

/// The operand `r10`.
pub open spec fn r10() -> Val {
    Val::Reg(Reg::R10)
}

/// The frame operand at offset `off` from `rbp`.
pub open spec fn frame(off: i32) -> Val {
    Val::RegOffset(Reg::RBP, off)
}

/// The label of the handler of invalid arguments.
pub open spec fn error_label() -> Seq<char> {
    "throw_error_invalid"@
}

/// A type check that jumps to the error handler unless `v` holds a number.
pub open spec fn check_number_spec(v: Val) -> Seq<InstrV> {
    seq![InstrV::ITest(v, Val::Imm(NUM_TAG_MASK)), InstrV::IJne(error_label())]
}

/// The conditional jump of condition `k` to label `l`.
pub open spec fn jump_spec(k: CJump, l: Seq<char>) -> InstrV {
    match k {
        CJump::E => InstrV::IJe(l),
        CJump::G => InstrV::IJg(l),
        CJump::GE => InstrV::IJge(l),
        CJump::L => InstrV::IJl(l),
        CJump::LE => InstrV::IJle(l),
    }
}

/// Code that sets `rax` to true when condition `k` holds and to false
/// otherwise, using the labels of counter values `c` and `c + 1`.
pub open spec fn bool_result_spec(k: CJump, c: int) -> Seq<InstrV> {
    let t = label_text("bool_true"@, c);
    let end = label_text("bool_end"@, c + 1);
    seq![
        jump_spec(k, t),
        InstrV::IMov(rax(), Val::Imm(FALSE_VAL)),
        InstrV::IJmp(end),
        InstrV::ILabel(t),
        InstrV::IMov(rax(), Val::Imm(TRUE_VAL)),
        InstrV::ILabel(end),
    ]
}

/// The code that applies a unary operator to `rax`, and the counter after it.
pub open spec fn unop_tail(op: UnOp, c: int) -> (Seq<InstrV>, int) {
    match op {
        UnOp::Add1 => (check_number_spec(rax()).push(InstrV::IAdd(rax(), Val::Imm(2))), c),
        UnOp::Sub1 => (check_number_spec(rax()).push(InstrV::ISub(rax(), Val::Imm(2))), c),
        UnOp::Negate => (check_number_spec(rax()).push(InstrV::IMul(rax(), Val::Imm(-1i64))), c),
        UnOp::IsNum => {
            let f = label_text("isnum_false"@, c);
            let end = label_text("isnum_end"@, c + 1);
            (
                seq![
                    InstrV::ITest(rax(), Val::Imm(NUM_TAG_MASK)),
                    InstrV::IJne(f),
                    InstrV::IMov(rax(), Val::Imm(TRUE_VAL)),
                    InstrV::IJmp(end),
                    InstrV::ILabel(f),
                    InstrV::IMov(rax(), Val::Imm(FALSE_VAL)),
                    InstrV::ILabel(end),
                ],
                c + 2,
            )
        },
        UnOp::IsBool => {
            let t = label_text("isbool_true"@, c);
            let end = label_text("isbool_end"@, c + 1);
            (
                seq![
                    InstrV::ITest(rax(), Val::Imm(BOOL_TAG_MASK)),
                    InstrV::IJne(t),
                    InstrV::IMov(rax(), Val::Imm(FALSE_VAL)),
                    InstrV::IJmp(end),
                    InstrV::ILabel(t),
                    InstrV::IMov(rax(), Val::Imm(TRUE_VAL)),
                    InstrV::ILabel(end),
                ],
                c + 2,
            )
        },
        UnOp::Print => (
            seq![InstrV::IMov(Val::Reg(Reg::RDI), rax()), InstrV::ICall("snek_print"@)],
            c,
        ),
    }
}

/// The code that combines the left operand stored at `temp` with the right
/// operand in `rax`, and the counter after it.
pub open spec fn binop_tail(op: BinOp, temp: i32, c: int) -> (Seq<InstrV>, int) {
    let l = frame(temp);
    let checks = check_number_spec(l) + check_number_spec(rax());
    let cmp = checks + seq![InstrV::IMov(r10(), l), InstrV::ICmp(r10(), rax())];
    match op {
        BinOp::Plus => (
            checks + seq![
                InstrV::IMov(r10(), l),
                InstrV::IAdd(r10(), rax()),
                InstrV::IMov(rax(), r10()),
            ],
            c,
        ),
        BinOp::Minus => (
            checks + seq![
                InstrV::IMov(r10(), l),
                InstrV::ISub(r10(), rax()),
                InstrV::IMov(rax(), r10()),
            ],
            c,
        ),
        BinOp::Times => (
            checks + seq![
                InstrV::IMov(r10(), l),
                InstrV::ISar(r10(), Val::Imm(1)),
                InstrV::IMul(r10(), rax()),
                InstrV::IMov(rax(), r10()),
            ],
            c,
        ),
        BinOp::Less => (cmp + bool_result_spec(CJump::L, c), c + 2),
        BinOp::Greater => (cmp + bool_result_spec(CJump::G, c), c + 2),
        BinOp::LessEq => (cmp + bool_result_spec(CJump::LE, c), c + 2),
        BinOp::GreaterEq => (cmp + bool_result_spec(CJump::GE, c), c + 2),
        BinOp::Equal => (
            seq![
                InstrV::IMov(r10(), l),
                InstrV::IAnd(r10(), Val::Imm(BOOL_TAG_MASK)),
                InstrV::IMov(Val::Reg(Reg::R11), rax()),
                InstrV::IAnd(Val::Reg(Reg::R11), Val::Imm(BOOL_TAG_MASK)),
                InstrV::ICmp(r10(), Val::Reg(Reg::R11)),
                InstrV::IJne(error_label()),
                InstrV::IMov(r10(), l),
                InstrV::ICmp(r10(), rax()),
            ] + bool_result_spec(CJump::E, c),
            c + 2,
        ),
    }
}

/// The pushes of stack slots `si .. si + n`, in increasing slot order.
pub open spec fn pushes(si: int, n: nat) -> Seq<InstrV> {
    Seq::new(n, |j: int| InstrV::IPush(frame(slot_off(si + j))))
}

/// The code that calls `label` once `n` arguments are stored in slots
/// `si .. si + n`: padding that keeps the stack aligned, the pushes, the call
/// and the release of the pushed words.
pub open spec fn call_tail(si: int, n: nat, label: Seq<char>) -> Seq<InstrV> {
    let pad: int = if n % 2 == 1 { 8 } else { 0 };
    let cleanup: int = n * 8 + pad;
    (if pad > 0 { seq![InstrV::ISub(Val::Reg(Reg::RSP), Val::Imm(pad as i64))] } else { Seq::empty() })
        + pushes(si, n) + seq![InstrV::ICall(label)] + (if cleanup > 0 {
        seq![InstrV::IAdd(Val::Reg(Reg::RSP), Val::Imm(cleanup as i64))]
    } else {
        Seq::empty()
    })
}

/// The code of an expression compiled with stack index `si`, environment
/// `env`, the enclosing function's parameters `params`, the defined functions
/// `funcs`, label counter `c` and the end label of the innermost loop `brk`:
/// the instructions and the counter after them, or the error that rejects the
/// expression.
pub open spec fn compile_spec(
    e: ExprV,
    si: int,
    env: Map<Seq<char>, i32>,
    params: Set<Seq<char>>,
    funcs: Map<Seq<char>, (nat, Seq<char>)>,
    c: int,
    brk: Option<Seq<char>>,
) -> Result<(Seq<InstrV>, int), CompileErrorV>
    decreases e, 1nat,
{
    match e {
        ExprV::Number(n) => Ok((seq![InstrV::IMov(rax(), Val::Imm((2 * n) as i64))], c)),
        ExprV::Bool(b) => Ok(
            (seq![InstrV::IMov(rax(), Val::Imm(if b { TRUE_VAL } else { FALSE_VAL }))], c),
        ),
        ExprV::Input => Ok((seq![InstrV::IMov(rax(), Val::Reg(Reg::R12))], c)),
        ExprV::Id(name) => if env.contains_key(name) {
            Ok((seq![InstrV::IMov(rax(), frame(env[name]))], c))
        } else {
            Err(CompileErrorV::UnboundVariable(name))
        },
        ExprV::UnOp(op, a) => match compile_spec(*a, si, env, params, funcs, c, brk) {
            Ok((ia, c1)) => Ok((ia + unop_tail(op, c1).0, unop_tail(op, c1).1)),
            Err(x) => Err(x),
        },
        ExprV::BinOp(op, a, b) => match compile_spec(*a, si, env, params, funcs, c, brk) {
            Ok((ia, c1)) => match compile_spec(*b, si + 1, env, params, funcs, c1, brk) {
                Ok((ib, c2)) => {
                    let temp = slot_off(si);
                    let tail = binop_tail(op, temp, c2);
                    Ok((ia.push(InstrV::IMov(frame(temp), rax())) + ib + tail.0, tail.1))
                },
                Err(x) => Err(x),
            },
            Err(x) => Err(x),
        },
        ExprV::Let(bs, body) => match let_prefix(bs, bs.len(), si, env, params, funcs, c, brk) {
            Ok((ib, env1, c1)) => match compile_spec(
                *body,
                si + bs.len(),
                env1,
                params,
                funcs,
                c1,
                brk,
            ) {
                Ok((ie, c2)) => Ok((ib + ie, c2)),
                Err(x) => Err(x),
            },
            Err(x) => Err(x),
        },
        ExprV::If(cond, thn, els) => {
            let else_label = label_text("if_else"@, c);
            let end_label = label_text("if_end"@, c + 1);
            match compile_spec(*cond, si, env, params, funcs, c + 2, brk) {
                Ok((ic, c1)) => match compile_spec(*thn, si, env, params, funcs, c1, brk) {
                    Ok((it, c2)) => match compile_spec(*els, si, env, params, funcs, c2, brk) {
                        Ok((ie, c3)) => Ok(
                            (
                                ic + seq![
                                    InstrV::ICmp(rax(), Val::Imm(FALSE_VAL)),
                                    InstrV::IJe(else_label),
                                ] + it + seq![InstrV::IJmp(end_label), InstrV::ILabel(else_label)]
                                    + ie.push(InstrV::ILabel(end_label)),
                                c3,
                            ),
                        ),
                        Err(x) => Err(x),
                    },
                    Err(x) => Err(x),
                },
                Err(x) => Err(x),
            }
        },
        ExprV::Block(es) => block_prefix(es, es.len(), si, env, params, funcs, c, brk),
        ExprV::Loop(body) => {
            let start_label = label_text("loop_start"@, c);
            let end_label = label_text("loop_end"@, c + 1);
            match compile_spec(*body, si, env, params, funcs, c + 2, Some(end_label)) {
                Ok((ib, c1)) => Ok(
                    (
                        seq![InstrV::ILabel(start_label)] + ib + seq![
                            InstrV::IJmp(start_label),
                            InstrV::ILabel(end_label),
                        ],
                        c1,
                    ),
                ),
                Err(x) => Err(x),
            }
        },
        ExprV::Break(a) => match brk {
            Some(target) => match compile_spec(*a, si, env, params, funcs, c, brk) {
                Ok((ia, c1)) => Ok((ia.push(InstrV::IJmp(target)), c1)),
                Err(x) => Err(x),
            },
            None => Err(CompileErrorV::BreakOutsideLoop),
        },
        ExprV::Assign(name, a) => if env.contains_key(name) {
            match compile_spec(*a, si, env, params, funcs, c, brk) {
                Ok((ia, c1)) => Ok((ia.push(InstrV::IMov(frame(env[name]), rax())), c1)),
                Err(x) => Err(x),
            }
        } else {
            Err(CompileErrorV::UnboundVariable(name))
        },
        ExprV::Call(name, args) => if !funcs.contains_key(name) {
            Err(CompileErrorV::UndefinedFunction(name))
        } else if args.len() != funcs[name].0 {
            Err(CompileErrorV::WrongArity(name, funcs[name].0, args.len()))
        } else {
            match call_args(args, args.len(), si, env, params, funcs, c, brk) {
                Ok((ia, c1)) => Ok((ia + call_tail(si, args.len(), funcs[name].1), c1)),
                Err(x) => Err(x),
            }
        },
    }
}

/// Whether one of the first `k` bindings binds `name`.
pub open spec fn bound_before(bs: Seq<(Seq<char>, ExprV)>, k: int, name: Seq<char>) -> bool {
    exists|j: int| 0 <= j < k && #[trigger] bs[j].0 == name
}

/// The first `k` bindings of a `let`: their code, the environment and the
/// counter after them, or the error that rejects them.  Binding `j` is
/// stored in stack slot `si + j`.
pub open spec fn let_prefix(
    bs: Seq<(Seq<char>, ExprV)>,
    k: nat,
    si: int,
    env: Map<Seq<char>, i32>,
    params: Set<Seq<char>>,
    funcs: Map<Seq<char>, (nat, Seq<char>)>,
    c: int,
    brk: Option<Seq<char>>,
) -> Result<(Seq<InstrV>, Map<Seq<char>, i32>, int), CompileErrorV>
    decreases bs, k,
{
    if k == 0 || k > bs.len() {
        Ok((Seq::empty(), env, c))
    } else {
        match let_prefix(bs, (k - 1) as nat, si, env, params, funcs, c, brk) {
            Ok((is, env1, c1)) => {
                let name = bs[k - 1].0;
                if bound_before(bs, k - 1, name) {
                    Err(CompileErrorV::DuplicateBinding)
                } else if params.contains(name) {
                    Err(CompileErrorV::ShadowParameter(name))
                } else {
                    let slot = si + k - 1;
                    match compile_spec(bs[k - 1].1, slot, env1, params, funcs, c1, brk) {
                        Ok((ie, c2)) => Ok(
                            (
                                is + ie.push(InstrV::IMov(frame(slot_off(slot)), rax())),
                                env1.insert(name, slot_off(slot)),
                                c2,
                            ),
                        ),
                        Err(x) => Err(x),
                    }
                }
            },
            Err(x) => Err(x),
        }
    }
}

/// The first `k` expressions of a block: their code and the counter after
/// them, or the error that rejects them.
pub open spec fn block_prefix(
    es: Seq<ExprV>,
    k: nat,
    si: int,
    env: Map<Seq<char>, i32>,
    params: Set<Seq<char>>,
    funcs: Map<Seq<char>, (nat, Seq<char>)>,
    c: int,
    brk: Option<Seq<char>>,
) -> Result<(Seq<InstrV>, int), CompileErrorV>
    decreases es, k,
{
    if k == 0 || k > es.len() {
        Ok((Seq::empty(), c))
    } else {
        match block_prefix(es, (k - 1) as nat, si, env, params, funcs, c, brk) {
            Ok((is, c1)) => match compile_spec(es[k - 1], si, env, params, funcs, c1, brk) {
                Ok((ie, c2)) => Ok((is + ie, c2)),
                Err(x) => Err(x),
            },
            Err(x) => Err(x),
        }
    }
}

/// The first `k` arguments of a call, taken from the last: their code and the
/// counter after them, or the error that rejects them.  The `j`-th argument
/// from the end is stored in stack slot `si + j`.
pub open spec fn call_args(
    args: Seq<ExprV>,
    k: nat,
    si: int,
    env: Map<Seq<char>, i32>,
    params: Set<Seq<char>>,
    funcs: Map<Seq<char>, (nat, Seq<char>)>,
    c: int,
    brk: Option<Seq<char>>,
) -> Result<(Seq<InstrV>, int), CompileErrorV>
    decreases args, k,
{
    if k == 0 || k > args.len() {
        Ok((Seq::empty(), c))
    } else {
        match call_args(args, (k - 1) as nat, si, env, params, funcs, c, brk) {
            Ok((is, c1)) => {
                let slot = si + k - 1;
                match compile_spec(args[args.len() - k], slot, env, params, funcs, c1, brk) {
                    Ok((ie, c2)) => Ok(
                        (is + ie.push(InstrV::IMov(frame(slot_off(slot)), rax())), c2),
                    ),
                    Err(x) => Err(x),
                }
            },
            Err(x) => Err(x),
        }
    }
}

/// The number of nodes of an expression.
pub open spec fn expr_size(e: ExprV) -> nat
    decreases e, 1nat,
{
    match e {
        ExprV::Number(_) | ExprV::Bool(_) | ExprV::Input | ExprV::Id(_) => 1,
        ExprV::UnOp(_, a) | ExprV::Loop(a) | ExprV::Break(a) | ExprV::Assign(_, a) => 1
            + expr_size(*a),
        ExprV::BinOp(_, a, b) => 1 + expr_size(*a) + expr_size(*b),
        ExprV::Let(bs, body) => 1 + binds_size(bs, bs.len()) + expr_size(*body),
        ExprV::If(c, t, f) => 1 + expr_size(*c) + expr_size(*t) + expr_size(*f),
        ExprV::Block(es) => 1 + exprs_size(es, es.len()),
        ExprV::Call(_, args) => 1 + exprs_size(args, args.len()),
    }
}

/// The number of nodes of the first `k` bindings.
pub open spec fn binds_size(bs: Seq<(Seq<char>, ExprV)>, k: nat) -> nat
    decreases bs, k,
{
    if k == 0 || k > bs.len() {
        0
    } else {
        binds_size(bs, (k - 1) as nat) + expr_size(bs[k - 1].1)
    }
}

/// The number of nodes of the first `k` expressions.
pub open spec fn exprs_size(es: Seq<ExprV>, k: nat) -> nat
    decreases es, k,
{
    if k == 0 || k > es.len() {
        0
    } else {
        exprs_size(es, (k - 1) as nat) + expr_size(es[k - 1])
    }
}

/// The largest of two integers.
pub open spec fn max(a: int, b: int) -> int {
    if a >= b {
        a
    } else {
        b
    }
}

/// The highest stack slot that the code of `e`, compiled with stack index
/// `si`, writes; `si - 1` when it writes none.
pub open spec fn max_slot(e: ExprV, si: int) -> int
    decreases e, 1nat,
{
    match e {
        ExprV::Number(_) | ExprV::Bool(_) | ExprV::Input | ExprV::Id(_) => si - 1,
        ExprV::UnOp(_, a) | ExprV::Loop(a) | ExprV::Break(a) | ExprV::Assign(_, a) => max_slot(
            *a,
            si,
        ),
        ExprV::BinOp(_, a, b) => max(max(si, max_slot(*a, si)), max_slot(*b, si + 1)),
        ExprV::Let(bs, body) => max(
            let_slots(bs, bs.len(), si),
            max_slot(*body, si + bs.len()),
        ),
        ExprV::If(c, t, f) => max(max(max_slot(*c, si), max_slot(*t, si)), max_slot(*f, si)),
        ExprV::Block(es) => block_slots(es, es.len(), si),
        ExprV::Call(_, args) => call_slots(args, args.len(), si),
    }
}

/// The highest slot written by the first `k` bindings of a `let`.
pub open spec fn let_slots(bs: Seq<(Seq<char>, ExprV)>, k: nat, si: int) -> int
    decreases bs, k,
{
    if k == 0 || k > bs.len() {
        si - 1
    } else {
        max(max(let_slots(bs, (k - 1) as nat, si), max_slot(bs[k - 1].1, si + k - 1)), si + k - 1)
    }
}

/// The highest slot written by the first `k` expressions of a block.
pub open spec fn block_slots(es: Seq<ExprV>, k: nat, si: int) -> int
    decreases es, k,
{
    if k == 0 || k > es.len() {
        si - 1
    } else {
        max(block_slots(es, (k - 1) as nat, si), max_slot(es[k - 1], si))
    }
}

/// The highest slot written by the first `k` arguments of a call, taken from
/// the last.
pub open spec fn call_slots(args: Seq<ExprV>, k: nat, si: int) -> int
    decreases args, k,
{
    if k == 0 || k > args.len() {
        si - 1
    } else {
        max(
            max(call_slots(args, (k - 1) as nat, si), max_slot(args[args.len() - k], si + k - 1)),
            si + k - 1,
        )
    }
}


/// Every expression has at least one node.
pub proof fn lemma_size_pos(e: ExprV)
    ensures
        expr_size(e) >= 1,
{
}

/// The sizes of binding prefixes grow with the prefix, by at least one per
/// binding.
pub proof fn lemma_binds_size_mono(bs: Seq<(Seq<char>, ExprV)>, i: nat, k: nat)
    requires
        i <= k <= bs.len(),
    ensures
        binds_size(bs, i) + (k - i) <= binds_size(bs, k),
    decreases k - i,
{
    if i < k {
        lemma_binds_size_mono(bs, i, (k - 1) as nat);
        lemma_size_pos(bs[k - 1].1);
    }
}

/// The sizes of expression prefixes grow with the prefix, by at least one
/// per expression.
pub proof fn lemma_exprs_size_mono(es: Seq<ExprV>, i: nat, k: nat)
    requires
        i <= k <= es.len(),
    ensures
        exprs_size(es, i) + (k - i) <= exprs_size(es, k),
    decreases k - i,
{
    if i < k {
        lemma_exprs_size_mono(es, i, (k - 1) as nat);
        lemma_size_pos(es[k - 1]);
    }
}

/// The number of nodes of the last `k` expressions.
pub open spec fn rev_size(es: Seq<ExprV>, k: nat) -> nat
    decreases k,
{
    if k == 0 || k > es.len() {
        0
    } else {
        rev_size(es, (k - 1) as nat) + expr_size(es[es.len() - k])
    }
}

/// The last `k` expressions and the first `n - k` together are all of them.
pub proof fn lemma_rev_size(es: Seq<ExprV>, k: nat)
    requires
        k <= es.len(),
    ensures
        rev_size(es, k) + exprs_size(es, (es.len() - k) as nat) == exprs_size(es, es.len()),
        rev_size(es, k) >= k,
    decreases k,
{
    if k > 0 {
        lemma_rev_size(es, (k - 1) as nat);
        lemma_size_pos(es[es.len() - k]);
        assert(exprs_size(es, (es.len() - k + 1) as nat) == exprs_size(es, (es.len() - k) as nat)
            + expr_size(es[es.len() - k]));
    }
}

/// Once a prefix of bindings is rejected, every longer prefix is rejected
/// with the same error.
proof fn lemma_let_prefix_err(
    bs: Seq<(Seq<char>, ExprV)>,
    k: nat,
    m: nat,
    si: int,
    env: Map<Seq<char>, i32>,
    params: Set<Seq<char>>,
    funcs: Map<Seq<char>, (nat, Seq<char>)>,
    c: int,
    brk: Option<Seq<char>>,
)
    requires
        0 < k <= m <= bs.len(),
        let_prefix(bs, k, si, env, params, funcs, c, brk) is Err,
    ensures
        let_prefix(bs, m, si, env, params, funcs, c, brk) == let_prefix(
            bs,
            k,
            si,
            env,
            params,
            funcs,
            c,
            brk,
        ),
    decreases m - k,
{
    if k < m {
        lemma_let_prefix_err(bs, k, (m - 1) as nat, si, env, params, funcs, c, brk);
    }
}

/// Once a prefix of a block is rejected, every longer prefix is rejected with
/// the same error.
proof fn lemma_block_prefix_err(
    es: Seq<ExprV>,
    k: nat,
    m: nat,
    si: int,
    env: Map<Seq<char>, i32>,
    params: Set<Seq<char>>,
    funcs: Map<Seq<char>, (nat, Seq<char>)>,
    c: int,
    brk: Option<Seq<char>>,
)
    requires
        0 < k <= m <= es.len(),
        block_prefix(es, k, si, env, params, funcs, c, brk) is Err,
    ensures
        block_prefix(es, m, si, env, params, funcs, c, brk) == block_prefix(
            es,
            k,
            si,
            env,
            params,
            funcs,
            c,
            brk,
        ),
    decreases m - k,
{
    if k < m {
        lemma_block_prefix_err(es, k, (m - 1) as nat, si, env, params, funcs, c, brk);
    }
}

/// Once some of the arguments are rejected, all of them are rejected with
/// the same error.
proof fn lemma_call_args_err(
    args: Seq<ExprV>,
    k: nat,
    m: nat,
    si: int,
    env: Map<Seq<char>, i32>,
    params: Set<Seq<char>>,
    funcs: Map<Seq<char>, (nat, Seq<char>)>,
    c: int,
    brk: Option<Seq<char>>,
)
    requires
        0 < k <= m <= args.len(),
        call_args(args, k, si, env, params, funcs, c, brk) is Err,
    ensures
        call_args(args, m, si, env, params, funcs, c, brk) == call_args(
            args,
            k,
            si,
            env,
            params,
            funcs,
            c,
            brk,
        ),
    decreases m - k,
{
    if k < m {
        lemma_call_args_err(args, k, (m - 1) as nat, si, env, params, funcs, c, brk);
    }
}

/// The model of an optional loop end label.
pub open spec fn opt_str_view(b: Option<&str>) -> Option<Seq<char>> {
    match b {
        Some(s) => Some(s@),
        None => None,
    }
}

/// Whether `r`, with the counter ending at `c_final`, is the outcome `s`
/// that `compile_spec` gives.
pub open spec fn compiled_as(
    r: Result<Vec<Instr>, CompileError>,
    c_final: int,
    s: Result<(Seq<InstrV>, int), CompileErrorV>,
) -> bool {
    match s {
        Ok((is, c2)) => r is Ok && instrs_view(r->Ok_0@) == is && c_final == c2,
        Err(x) => r is Err && r->Err_0@ == x,
    }
}

fn one(i: Instr) -> (v: Vec<Instr>)
    ensures
        instrs_view(v@) == seq![i@],
{
    let mut v = Vec::new();
    v.push(i);
    assert(instrs_view(v@) =~= seq![i@]);
    v
}

/// The frame offset of stack slot `slot`.
pub fn slot_offset(slot: i32) -> (r: i32)
    requires
        -0x1000_0000 < slot < 0x1000_0000,
    ensures
        r == slot_off(slot as int),
        r == -8 * slot,
{
    -8 * slot
}

/// A jump to the handler of invalid arguments when the last test failed.
pub fn invalid_arg_instrs() -> (v: Vec<Instr>)
    ensures
        instrs_view(v@) == seq![InstrV::IJne(error_label())],
{
    one(Instr::IJne("throw_error_invalid".to_owned()))
}

/// A type check that `value` holds a number.
pub fn check_number(value: Val) -> (r: Vec<Instr>)
    ensures
        instrs_view(r@) == check_number_spec(value),
{
    let mut instrs = one(Instr::ITest(value, Val::Imm(NUM_TAG_MASK)));
    let mut j = invalid_arg_instrs();
    instrs.append(&mut j);
    assert(instrs_view(instrs@) =~= check_number_spec(value));
    instrs
}

/// The conditional jump of condition `kind` to `label`.
pub fn make_jump(kind: CJump, label: String) -> (r: Instr)
    ensures
        r@ == jump_spec(kind, label@),
{
    match kind {
        CJump::E => Instr::IJe(label),
        CJump::G => Instr::IJg(label),
        CJump::GE => Instr::IJge(label),
        CJump::L => Instr::IJl(label),
        CJump::LE => Instr::IJle(label),
    }
}

/// Code that materialises condition `kind` as a boolean in `rax`.
pub fn compile_bool_result(kind: CJump, label_counter: &mut i32) -> (r: Vec<Instr>)
    requires
        *old(label_counter) + 2 <= i32::MAX,
    ensures
        instrs_view(r@) == bool_result_spec(kind, *old(label_counter) as int),
        *final(label_counter) == *old(label_counter) + 2,
{
    let true_label = new_label(label_counter, "bool_true");
    let end_label = new_label(label_counter, "bool_end");
    let mut v = Vec::new();
    v.push(make_jump(kind, true_label.clone()));
    v.push(Instr::IMov(Val::Reg(Reg::RAX), Val::Imm(FALSE_VAL)));
    v.push(Instr::IJmp(end_label.clone()));
    v.push(Instr::ILabel(true_label));
    v.push(Instr::IMov(Val::Reg(Reg::RAX), Val::Imm(TRUE_VAL)));
    v.push(Instr::ILabel(end_label));
    assert(instrs_view(v@) =~= bool_result_spec(kind, *old(label_counter) as int));
    v
}

fn compile_unop(op: UnOp, label_counter: &mut i32) -> (r: Vec<Instr>)
    requires
        *old(label_counter) + 2 <= i32::MAX,
    ensures
        instrs_view(r@) == unop_tail(op, *old(label_counter) as int).0,
        *final(label_counter) == unop_tail(op, *old(label_counter) as int).1,
{
    let ghost c = *label_counter as int;
    match op {
        UnOp::Add1 => {
            let mut instrs = check_number(Val::Reg(Reg::RAX));
            instrs.push(Instr::IAdd(Val::Reg(Reg::RAX), Val::Imm(2)));
            instrs
        },
        UnOp::Sub1 => {
            let mut instrs = check_number(Val::Reg(Reg::RAX));
            instrs.push(Instr::ISub(Val::Reg(Reg::RAX), Val::Imm(2)));
            instrs
        },
        UnOp::Negate => {
            let mut instrs = check_number(Val::Reg(Reg::RAX));
            instrs.push(Instr::IMul(Val::Reg(Reg::RAX), Val::Imm(-1)));
            instrs
        },
        UnOp::IsNum => {
            let false_label = new_label(label_counter, "isnum_false");
            let end_label = new_label(label_counter, "isnum_end");
            let mut instrs = Vec::new();
            instrs.push(Instr::ITest(Val::Reg(Reg::RAX), Val::Imm(NUM_TAG_MASK)));
            instrs.push(Instr::IJne(false_label.clone()));
            instrs.push(Instr::IMov(Val::Reg(Reg::RAX), Val::Imm(TRUE_VAL)));
            instrs.push(Instr::IJmp(end_label.clone()));
            instrs.push(Instr::ILabel(false_label));
            instrs.push(Instr::IMov(Val::Reg(Reg::RAX), Val::Imm(FALSE_VAL)));
            instrs.push(Instr::ILabel(end_label));
            assert(instrs_view(instrs@) =~= unop_tail(op, c).0);
            instrs
        },
        UnOp::IsBool => {
            let true_label = new_label(label_counter, "isbool_true");
            let end_label = new_label(label_counter, "isbool_end");
            let mut instrs = Vec::new();
            instrs.push(Instr::ITest(Val::Reg(Reg::RAX), Val::Imm(BOOL_TAG_MASK)));
            instrs.push(Instr::IJne(true_label.clone()));
            instrs.push(Instr::IMov(Val::Reg(Reg::RAX), Val::Imm(FALSE_VAL)));
            instrs.push(Instr::IJmp(end_label.clone()));
            instrs.push(Instr::ILabel(true_label));
            instrs.push(Instr::IMov(Val::Reg(Reg::RAX), Val::Imm(TRUE_VAL)));
            instrs.push(Instr::ILabel(end_label));
            assert(instrs_view(instrs@) =~= unop_tail(op, c).0);
            instrs
        },
        UnOp::Print => {
            let mut instrs = one(Instr::IMov(Val::Reg(Reg::RDI), Val::Reg(Reg::RAX)));
            instrs.push(Instr::ICall("snek_print".to_owned()));
            assert(instrs_view(instrs@) =~= unop_tail(op, c).0);
            instrs
        },
    }
}

fn compile_binop(op: BinOp, temp_offset: i32, label_counter: &mut i32) -> (r: Vec<Instr>)
    requires
        *old(label_counter) + 2 <= i32::MAX,
    ensures
        instrs_view(r@) == binop_tail(op, temp_offset, *old(label_counter) as int).0,
        *final(label_counter) == binop_tail(op, temp_offset, *old(label_counter) as int).1,
{
    let ghost c = *label_counter as int;
    let l = Val::RegOffset(Reg::RBP, temp_offset);
    if let BinOp::Equal = op {
        let mut instrs = Vec::new();
        instrs.push(Instr::IMov(Val::Reg(Reg::R10), l));
        instrs.push(Instr::IAnd(Val::Reg(Reg::R10), Val::Imm(BOOL_TAG_MASK)));
        instrs.push(Instr::IMov(Val::Reg(Reg::R11), Val::Reg(Reg::RAX)));
        instrs.push(Instr::IAnd(Val::Reg(Reg::R11), Val::Imm(BOOL_TAG_MASK)));
        instrs.push(Instr::ICmp(Val::Reg(Reg::R10), Val::Reg(Reg::R11)));
        instrs.push(Instr::IJne("throw_error_invalid".to_owned()));
        instrs.push(Instr::IMov(Val::Reg(Reg::R10), l));
        instrs.push(Instr::ICmp(Val::Reg(Reg::R10), Val::Reg(Reg::RAX)));
        let mut b = compile_bool_result(CJump::E, label_counter);
        instrs.append(&mut b);
        assert(instrs_view(instrs@) =~= binop_tail(op, temp_offset, c).0);
        return instrs;
    }
    let mut instrs = check_number(l);
    let mut cr = check_number(Val::Reg(Reg::RAX));
    instrs.append(&mut cr);
    instrs.push(Instr::IMov(Val::Reg(Reg::R10), l));
    match op {
        BinOp::Plus => {
            instrs.push(Instr::IAdd(Val::Reg(Reg::R10), Val::Reg(Reg::RAX)));
            instrs.push(Instr::IMov(Val::Reg(Reg::RAX), Val::Reg(Reg::R10)));
        },
        BinOp::Minus => {
            instrs.push(Instr::ISub(Val::Reg(Reg::R10), Val::Reg(Reg::RAX)));
            instrs.push(Instr::IMov(Val::Reg(Reg::RAX), Val::Reg(Reg::R10)));
        },
        BinOp::Times => {
            instrs.push(Instr::ISar(Val::Reg(Reg::R10), Val::Imm(1)));
            instrs.push(Instr::IMul(Val::Reg(Reg::R10), Val::Reg(Reg::RAX)));
            instrs.push(Instr::IMov(Val::Reg(Reg::RAX), Val::Reg(Reg::R10)));
        },
        _ => {
            instrs.push(Instr::ICmp(Val::Reg(Reg::R10), Val::Reg(Reg::RAX)));
            let kind = match op {
                BinOp::Less => CJump::L,
                BinOp::Greater => CJump::G,
                BinOp::LessEq => CJump::LE,
                _ => CJump::GE,
            };
            let mut b = compile_bool_result(kind, label_counter);
            instrs.append(&mut b);
        },
    }
    assert(instrs_view(instrs@) =~= binop_tail(op, temp_offset, c).0);
    instrs
}

/// Whether the arguments of `compile_expr` are within the limits that keep
/// its offsets and label numbers in 32 bits.
pub open spec fn compile_bounds(e: ExprV, si: int, c: int) -> bool {
    &&& 0 <= si
    &&& si + expr_size(e) < SLOT_LIMIT
    &&& c + 2 * expr_size(e) <= i32::MAX
}

/// Compiles an expression with stack index `si`, environment `env`, the
/// enclosing function's parameters `params`, the defined functions
/// `functions`, label counter `label_counter` and the end label of the
/// innermost loop `break_target`: the outcome is exactly what `compile_spec`
/// gives.
pub fn compile_expr(
    e: &Expr,
    si: i32,
    env: &VarEnv,
    params: &StringHashSet,
    functions: &StringHashMap<FunctionInfo>,
    label_counter: &mut i32,
    break_target: Option<&str>,
) -> (r: Result<Vec<Instr>, CompileError>)
    requires
        compile_bounds(e@, si as int, *old(label_counter) as int),
    ensures
        compiled_as(
            r,
            *final(label_counter) as int,
            compile_spec(
                e@,
                si as int,
                env@,
                params@,
                funcs_view(functions@),
                *old(label_counter) as int,
                opt_str_view(break_target),
            ),
        ),
        r is Ok ==> *old(label_counter) <= *final(label_counter) <= *old(label_counter) + 2
            * expr_size(e@),
    decreases e, 1nat,
{
    let ghost c = *label_counter as int;
    match e {
        Expr::Number(n) => Ok(one(Instr::IMov(Val::Reg(Reg::RAX), Val::Imm(encode_num(*n))))),
        Expr::Bool(b) => {
            if *b {
                Ok(one(Instr::IMov(Val::Reg(Reg::RAX), Val::Imm(TRUE_VAL))))
            } else {
                Ok(one(Instr::IMov(Val::Reg(Reg::RAX), Val::Imm(FALSE_VAL))))
            }
        },
        Expr::Input => Ok(one(Instr::IMov(Val::Reg(Reg::RAX), Val::Reg(Reg::R12)))),
        Expr::Id(name) => match env.get(name.as_str()) {
            Some(offset) => Ok(one(Instr::IMov(Val::Reg(Reg::RAX), Val::RegOffset(Reg::RBP, offset)))),
            None => Err(CompileError::UnboundVariable(name.clone())),
        },
        Expr::UnOp(op, a) => {
            let mut instrs = compile_expr(a, si, env, params, functions, label_counter, break_target)?;
            let mut tail = compile_unop(*op, label_counter);
            instrs.append(&mut tail);
            Ok(instrs)
        },
        Expr::BinOp(op, a, b) => {
            let temp_offset = slot_offset(si);
            let mut instrs = compile_expr(a, si, env, params, functions, label_counter, break_target)?;
            let ghost ia = instrs_view(instrs@);
            instrs.push(Instr::IMov(Val::RegOffset(Reg::RBP, temp_offset), Val::Reg(Reg::RAX)));
            let mut ib = compile_expr(
                b,
                si + 1,
                env,
                params,
                functions,
                label_counter,
                break_target,
            )?;
            let ghost ibv = instrs_view(ib@);
            let ghost c2 = *label_counter as int;
            instrs.append(&mut ib);
            let mut tail = compile_binop(*op, temp_offset, label_counter);
            instrs.append(&mut tail);
            assert(instrs_view(instrs@) =~= ia.push(InstrV::IMov(frame(temp_offset), rax())) + ibv
                + binop_tail(*op, temp_offset, c2).0);
            Ok(instrs)
        },
        Expr::Let(_, _) => compile_let(e, si, env, params, functions, label_counter, break_target),
        Expr::If(cond, thn, els) => {
            let else_label = new_label(label_counter, "if_else");
            let end_label = new_label(label_counter, "if_end");
            let mut instrs = compile_expr(
                cond,
                si,
                env,
                params,
                functions,
                label_counter,
                break_target,
            )?;
            let ghost icv = instrs_view(instrs@);
            instrs.push(Instr::ICmp(Val::Reg(Reg::RAX), Val::Imm(FALSE_VAL)));
            instrs.push(Instr::IJe(else_label.clone()));
            let mut it = compile_expr(thn, si, env, params, functions, label_counter, break_target)?;
            let ghost itv = instrs_view(it@);
            instrs.append(&mut it);
            instrs.push(Instr::IJmp(end_label.clone()));
            instrs.push(Instr::ILabel(else_label));
            let mut ie = compile_expr(els, si, env, params, functions, label_counter, break_target)?;
            let ghost iev = instrs_view(ie@);
            instrs.append(&mut ie);
            instrs.push(Instr::ILabel(end_label));
            assert(instrs_view(instrs@) =~= icv + seq![
                InstrV::ICmp(rax(), Val::Imm(FALSE_VAL)),
                InstrV::IJe(label_text("if_else"@, c)),
            ] + itv + seq![
                InstrV::IJmp(label_text("if_end"@, c + 1)),
                InstrV::ILabel(label_text("if_else"@, c)),
            ] + iev.push(InstrV::ILabel(label_text("if_end"@, c + 1))));
            Ok(instrs)
        },
        Expr::Block(_) => compile_block(e, si, env, params, functions, label_counter, break_target),
        Expr::Loop(body) => {
            let start_label = new_label(label_counter, "loop_start");
            let end_label = new_label(label_counter, "loop_end");
            let mut instrs = one(Instr::ILabel(start_label.clone()));
            let mut ib = compile_expr(
                body,
                si,
                env,
                params,
                functions,
                label_counter,
                Some(end_label.as_str()),
            )?;
            let ghost ibv = instrs_view(ib@);
            instrs.append(&mut ib);
            instrs.push(Instr::IJmp(start_label));
            instrs.push(Instr::ILabel(end_label));
            assert(instrs_view(instrs@) =~= seq![InstrV::ILabel(label_text("loop_start"@, c))] + ibv
                + seq![
                InstrV::IJmp(label_text("loop_start"@, c)),
                InstrV::ILabel(label_text("loop_end"@, c + 1)),
            ]);
            Ok(instrs)
        },
        Expr::Break(a) => match break_target {
            Some(target) => {
                let mut instrs = compile_expr(
                    a,
                    si,
                    env,
                    params,
                    functions,
                    label_counter,
                    break_target,
                )?;
                instrs.push(Instr::IJmp(target.to_owned()));
                Ok(instrs)
            },
            None => Err(CompileError::BreakOutsideLoop),
        },
        Expr::Assign(name, a) => {
            let offset = match env.get(name.as_str()) {
                Some(offset) => offset,
                None => {
                    return Err(CompileError::UnboundVariable(name.clone()));
                },
            };
            let mut instrs = compile_expr(a, si, env, params, functions, label_counter, break_target)?;
            instrs.push(Instr::IMov(Val::RegOffset(Reg::RBP, offset), Val::Reg(Reg::RAX)));
            Ok(instrs)
        },
        Expr::Call(_, _) => compile_call(e, si, env, params, functions, label_counter, break_target),
    }
}


/// Compiles a `let` expression: each binding in turn into its own stack slot,
/// then the body with the bindings in scope.
#[verifier::loop_isolation(false)]
fn compile_let(
    e: &Expr,
    si: i32,
    env: &VarEnv,
    params: &StringHashSet,
    functions: &StringHashMap<FunctionInfo>,
    label_counter: &mut i32,
    break_target: Option<&str>,
) -> (r: Result<Vec<Instr>, CompileError>)
    requires
        e is Let,
        compile_bounds(e@, si as int, *old(label_counter) as int),
    ensures
        compiled_as(
            r,
            *final(label_counter) as int,
            compile_spec(
                e@,
                si as int,
                env@,
                params@,
                funcs_view(functions@),
                *old(label_counter) as int,
                opt_str_view(break_target),
            ),
        ),
        r is Ok ==> *old(label_counter) <= *final(label_counter) <= *old(label_counter) + 2
            * expr_size(e@),
    decreases e, 0nat,
{
    let ghost c0 = *label_counter as int;
    let ghost envc = env@;
    let ghost fv = funcs_view(functions@);
    let ghost brk = opt_str_view(break_target);
    if let Expr::Let(bindings, body) = e {
        let ghost bsv = binds_view(bindings@);
        let n = bindings.len();
        let mut seen = StringHashSet::new();
        let mut instrs: Vec<Instr> = Vec::new();
        let mut next_si = si;
        let mut new_env = env.duplicate();
        let mut i: usize = 0;
        proof {
            lemma_binds_size_mono(bsv, 0, n as nat);
            assert(seen@ =~= Set::new(|x: Seq<char>| bound_before(bsv, 0, x)));
            assert(instrs_view(instrs@) =~= Seq::<InstrV>::empty());
            assert(e@ == ExprV::Let(bsv, Box::new(expr_view(**body))));
        }
        while i < n
            invariant
                0 <= i <= n,
                n == bindings@.len(),
                bsv.len() == n,
                next_si == si + i,
                let_prefix(bsv, i as nat, si as int, envc, params@, fv, c0, brk) == Ok::<
                    (Seq<InstrV>, Map<Seq<char>, i32>, int),
                    CompileErrorV,
                >((instrs_view(instrs@), new_env@, *label_counter as int)),
                seen@ == Set::new(|x: Seq<char>| bound_before(bsv, i as int, x)),
                c0 <= *label_counter <= c0 + 2 * binds_size(bsv, i as nat),
            decreases n - i,
        {
            let name = &bindings[i].0;
            let expr = &bindings[i].1;
            proof {
                lemma_binds_size_mono(bsv, (i + 1) as nat, n as nat);
                lemma_binds_size_mono(bsv, 0, i as nat);
                assert(bsv[i as int] == (name@, expr@));
                assert(binds_size(bsv, (i + 1) as nat) == binds_size(bsv, i as nat) + expr_size(
                    expr@,
                ));
            }
            if !seen.insert(name.clone()) {
                proof {
                    assert(bound_before(bsv, i as int, name@));
                    lemma_let_prefix_err(bsv, (i + 1) as nat, n as nat, si as int, envc, params@, fv, c0, brk);
                }
                return Err(CompileError::DuplicateBinding);
            }
            if params.contains(name.as_str()) {
                proof {
                    lemma_let_prefix_err(bsv, (i + 1) as nat, n as nat, si as int, envc, params@, fv, c0, brk);
                }
                return Err(CompileError::ShadowParameter(name.clone()));
            }
            let stack_offset = slot_offset(next_si);
            let ghost before = instrs_view(instrs@);
            let ie = compile_expr(expr, next_si, &new_env, params, functions, label_counter, break_target);
            match ie {
                Ok(mut ie) => {
                    let ghost iev = instrs_view(ie@);
                    instrs.append(&mut ie);
                    instrs.push(Instr::IMov(Val::RegOffset(Reg::RBP, stack_offset), Val::Reg(Reg::RAX)));
                    new_env.insert(name.clone(), stack_offset);
                    assert(instrs_view(instrs@) =~= before + iev.push(
                        InstrV::IMov(frame(slot_off(si + i)), rax()),
                    ));
                },
                Err(x) => {
                    proof {
                        lemma_let_prefix_err(bsv, (i + 1) as nat, n as nat, si as int, envc, params@, fv, c0, brk);
                    }
                    return Err(x);
                },
            }
            next_si += 1;
            i += 1;
            proof {
                assert(seen@ =~= Set::new(|x: Seq<char>| bound_before(bsv, i as int, x))) by {
                    assert forall|x: Seq<char>| seen@.contains(x) implies bound_before(
                        bsv,
                        i as int,
                        x,
                    ) by {
                        if x == name@ {
                            assert(bsv[i - 1].0 == x);
                        } else {
                            assert(bound_before(bsv, i - 1, x));
                            let j = choose|j: int| 0 <= j < i - 1 && #[trigger] bsv[j].0 == x;
                            assert(bsv[j].0 == x);
                        }
                    }
                    assert forall|x: Seq<char>| bound_before(bsv, i as int, x) implies seen@.contains(
                        x,
                    ) by {
                        let j = choose|j: int| 0 <= j < i && #[trigger] bsv[j].0 == x;
                        if j < i - 1 {
                            assert(bound_before(bsv, i - 1, x));
                        }
                    }
                }
            }
        }
        let mut ib = compile_expr(body, next_si, &new_env, params, functions, label_counter, break_target)?;
        instrs.append(&mut ib);
        Ok(instrs)
    } else {
        Ok(Vec::new())
    }
}

/// Compiles a block: each expression in turn.
#[verifier::loop_isolation(false)]
fn compile_block(
    e: &Expr,
    si: i32,
    env: &VarEnv,
    params: &StringHashSet,
    functions: &StringHashMap<FunctionInfo>,
    label_counter: &mut i32,
    break_target: Option<&str>,
) -> (r: Result<Vec<Instr>, CompileError>)
    requires
        e is Block,
        compile_bounds(e@, si as int, *old(label_counter) as int),
    ensures
        compiled_as(
            r,
            *final(label_counter) as int,
            compile_spec(
                e@,
                si as int,
                env@,
                params@,
                funcs_view(functions@),
                *old(label_counter) as int,
                opt_str_view(break_target),
            ),
        ),
        r is Ok ==> *old(label_counter) <= *final(label_counter) <= *old(label_counter) + 2
            * expr_size(e@),
    decreases e, 0nat,
{
    let ghost c0 = *label_counter as int;
    let ghost fv = funcs_view(functions@);
    let ghost brk = opt_str_view(break_target);
    if let Expr::Block(exprs) = e {
        let ghost esv = exprs_view(exprs@);
        let n = exprs.len();
        let mut instrs: Vec<Instr> = Vec::new();
        let mut i: usize = 0;
        proof {
            lemma_exprs_size_mono(esv, 0, n as nat);
            assert(instrs_view(instrs@) =~= Seq::<InstrV>::empty());
            assert(e@ == ExprV::Block(esv));
        }
        while i < n
            invariant
                0 <= i <= n,
                n == exprs@.len(),
                esv.len() == n,
                block_prefix(esv, i as nat, si as int, env@, params@, fv, c0, brk) == Ok::<
                    (Seq<InstrV>, int),
                    CompileErrorV,
                >((instrs_view(instrs@), *label_counter as int)),
                c0 <= *label_counter <= c0 + 2 * exprs_size(esv, i as nat),
            decreases n - i,
        {
            proof {
                lemma_exprs_size_mono(esv, (i + 1) as nat, n as nat);
                assert(esv[i as int] == exprs[i as int]@);
                assert(exprs_size(esv, (i + 1) as nat) == exprs_size(esv, i as nat) + expr_size(
                    exprs[i as int]@,
                ));
            }
            let ie = compile_expr(&exprs[i], si, env, params, functions, label_counter, break_target);
            match ie {
                Ok(mut ie) => {
                    instrs.append(&mut ie);
                },
                Err(x) => {
                    proof {
                        lemma_block_prefix_err(esv, (i + 1) as nat, n as nat, si as int, env@, params@, fv, c0, brk);
                    }
                    return Err(x);
                },
            }
            i += 1;
        }
        Ok(instrs)
    } else {
        Ok(Vec::new())
    }
}

/// Compiles a call: the arguments from the last to the first into
/// consecutive stack slots, then the pushes, the call and the release of the
/// stack.
#[verifier::loop_isolation(false)]
fn compile_call(
    e: &Expr,
    si: i32,
    env: &VarEnv,
    params: &StringHashSet,
    functions: &StringHashMap<FunctionInfo>,
    label_counter: &mut i32,
    break_target: Option<&str>,
) -> (r: Result<Vec<Instr>, CompileError>)
    requires
        e is Call,
        compile_bounds(e@, si as int, *old(label_counter) as int),
    ensures
        compiled_as(
            r,
            *final(label_counter) as int,
            compile_spec(
                e@,
                si as int,
                env@,
                params@,
                funcs_view(functions@),
                *old(label_counter) as int,
                opt_str_view(break_target),
            ),
        ),
        r is Ok ==> *old(label_counter) <= *final(label_counter) <= *old(label_counter) + 2
            * expr_size(e@),
    decreases e, 0nat,
{
    let ghost c0 = *label_counter as int;
    let ghost fv = funcs_view(functions@);
    let ghost brk = opt_str_view(break_target);
    if let Expr::Call(name, args) = e {
        let ghost asv = exprs_view(args@);
        let n = args.len();
        proof {
            assert(e@ == ExprV::Call(name@, asv));
            lemma_rev_size(asv, n as nat);
            assert(asv.len() == n);
        }
        let function = match functions.get(name.as_str()) {
            Some(f) => f,
            None => {
                return Err(CompileError::UndefinedFunction(name.clone()));
            },
        };
        if n != function.arity {
            return Err(CompileError::WrongArity(name.clone(), function.arity, n));
        }
        let mut instrs: Vec<Instr> = Vec::new();
        let mut next_si = si;
        let mut j: usize = 0;
        assert(instrs_view(instrs@) =~= Seq::<InstrV>::empty());
        while j < n
            invariant
                0 <= j <= n,
                n == args@.len(),
                asv.len() == n,
                next_si == si + j,
                call_args(asv, j as nat, si as int, env@, params@, fv, c0, brk) == Ok::<
                    (Seq<InstrV>, int),
                    CompileErrorV,
                >((instrs_view(instrs@), *label_counter as int)),
                c0 <= *label_counter <= c0 + 2 * rev_size(asv, j as nat),
            decreases n - j,
        {
            let arg = &args[n - 1 - j];
            proof {
                lemma_rev_size(asv, (j + 1) as nat);
                lemma_rev_size(asv, j as nat);
                lemma_rev_size_mono(asv, (j + 1) as nat, n as nat);
                assert(asv[n - (j + 1)] == arg@);
            }
            let slot = slot_offset(next_si);
            let ghost before = instrs_view(instrs@);
            let ia = compile_expr(arg, next_si, env, params, functions, label_counter, break_target);
            match ia {
                Ok(mut ia) => {
                    let ghost iav = instrs_view(ia@);
                    instrs.append(&mut ia);
                    instrs.push(Instr::IMov(Val::RegOffset(Reg::RBP, slot), Val::Reg(Reg::RAX)));
                    assert(instrs_view(instrs@) =~= before + iav.push(
                        InstrV::IMov(frame(slot_off(si + j)), rax()),
                    ));
                },
                Err(x) => {
                    proof {
                        lemma_call_args_err(asv, (j + 1) as nat, n as nat, si as int, env@, params@, fv, c0, brk);
                    }
                    return Err(x);
                },
            }
            next_si += 1;
            j += 1;
        }
        let ghost body = instrs_view(instrs@);
        let pad: i64 = if n % 2 == 1 {
            8
        } else {
            0
        };
        if pad > 0 {
            instrs.push(Instr::ISub(Val::Reg(Reg::RSP), Val::Imm(pad)));
        }
        let ghost after_pad = instrs_view(instrs@);
        let mut slot_num = si;
        while slot_num < next_si
            invariant
                si <= slot_num <= next_si,
                next_si == si + n,
                instrs_view(instrs@) == after_pad + pushes(si as int, (slot_num - si) as nat),
            decreases next_si - slot_num,
        {
            instrs.push(Instr::IPush(Val::RegOffset(Reg::RBP, slot_offset(slot_num))));
            assert(pushes(si as int, (slot_num + 1 - si) as nat) =~= pushes(
                si as int,
                (slot_num - si) as nat,
            ).push(InstrV::IPush(frame(slot_off(slot_num as int)))));
            slot_num += 1;
        }
        instrs.push(Instr::ICall(function.label.clone()));
        let cleanup: i64 = (n as i64) * 8 + pad;
        if cleanup > 0 {
            instrs.push(Instr::IAdd(Val::Reg(Reg::RSP), Val::Imm(cleanup)));
        }
        assert(instrs_view(instrs@) =~= body + call_tail(si as int, n as nat, function.label@));
        Ok(instrs)
    } else {
        Ok(Vec::new())
    }
}

/// The sizes of the last `k` expressions grow with `k`.
proof fn lemma_rev_size_mono(es: Seq<ExprV>, i: nat, k: nat)
    requires
        i <= k <= es.len(),
    ensures
        rev_size(es, i) <= rev_size(es, k),
    decreases k - i,
{
    if i < k {
        lemma_rev_size_mono(es, i, (k - 1) as nat);
    }
}


/// The highest slot written lies between `si - 1` and `si + size - 1`.
pub proof fn lemma_max_slot_bounds(e: ExprV, si: int)
    ensures
        si - 1 <= max_slot(e, si) <= si + expr_size(e) - 1,
    decreases e, 1nat,
{
    match e {
        ExprV::UnOp(_, a) | ExprV::Loop(a) | ExprV::Break(a) | ExprV::Assign(_, a) => {
            lemma_max_slot_bounds(*a, si);
        },
        ExprV::BinOp(_, a, b) => {
            lemma_max_slot_bounds(*a, si);
            lemma_max_slot_bounds(*b, si + 1);
        },
        ExprV::Let(bs, body) => {
            lemma_let_slots_bounds(bs, bs.len(), si);
            lemma_binds_size_mono(bs, 0, bs.len());
            lemma_max_slot_bounds(*body, si + bs.len());
        },
        ExprV::If(c, t, f) => {
            lemma_max_slot_bounds(*c, si);
            lemma_max_slot_bounds(*t, si);
            lemma_max_slot_bounds(*f, si);
        },
        ExprV::Block(es) => {
            lemma_block_slots_bounds(es, es.len(), si);
        },
        ExprV::Call(_, args) => {
            lemma_call_slots_bounds(args, args.len(), si);
            lemma_rev_size(args, args.len());
        },
        _ => {},
    }
}

/// Bounds of the highest slot written by the first `k` bindings.
pub proof fn lemma_let_slots_bounds(bs: Seq<(Seq<char>, ExprV)>, k: nat, si: int)
    requires
        k <= bs.len(),
    ensures
        si - 1 <= let_slots(bs, k, si) <= si + binds_size(bs, k) - 1,
    decreases bs, k,
{
    if k > 0 {
        lemma_let_slots_bounds(bs, (k - 1) as nat, si);
        lemma_max_slot_bounds(bs[k - 1].1, si + k - 1);
        lemma_binds_size_mono(bs, 0, (k - 1) as nat);
        lemma_size_pos(bs[k - 1].1);
    }
}

/// Bounds of the highest slot written by the first `k` expressions of a
/// block.
pub proof fn lemma_block_slots_bounds(es: Seq<ExprV>, k: nat, si: int)
    requires
        k <= es.len(),
    ensures
        si - 1 <= block_slots(es, k, si) <= si + exprs_size(es, k) - 1,
    decreases es, k,
{
    if k > 0 {
        lemma_block_slots_bounds(es, (k - 1) as nat, si);
        lemma_max_slot_bounds(es[k - 1], si);
    }
}

/// Bounds of the highest slot written by the last `k` arguments of a call.
pub proof fn lemma_call_slots_bounds(args: Seq<ExprV>, k: nat, si: int)
    requires
        k <= args.len(),
    ensures
        si - 1 <= call_slots(args, k, si) <= si + rev_size(args, k) - 1,
    decreases args, k,
{
    if k > 0 {
        lemma_call_slots_bounds(args, (k - 1) as nat, si);
        lemma_max_slot_bounds(args[args.len() - k], si + k - 1);
        lemma_rev_size(args, (k - 1) as nat);
        lemma_size_pos(args[args.len() - k]);
    }
}

/// The highest stack slot that the code of `e`, compiled with stack index
/// `si`, writes; `si - 1` when it writes none.
pub fn max_stack_slot(e: &Expr, si: i32) -> (r: i32)
    requires
        0 <= si,
        si + expr_size(e@) < SLOT_LIMIT,
    ensures
        r == max_slot(e@, si as int),
    decreases e,
{
    proof {
        lemma_max_slot_bounds(e@, si as int);
    }
    match e {
        Expr::Number(_) | Expr::Bool(_) | Expr::Input | Expr::Id(_) => si - 1,
        Expr::UnOp(_, a) | Expr::Loop(a) | Expr::Break(a) | Expr::Assign(_, a) => max_stack_slot(a, si),
        Expr::BinOp(_, left, right) => {
            let left_max = max_stack_slot(left, si);
            let right_max = max_stack_slot(right, si + 1);
            let m = if si >= left_max { si } else { left_max };
            if m >= right_max { m } else { right_max }
        },
        Expr::Let(bindings, body) => {
            let ghost bsv = binds_view(bindings@);
            proof {
                assert(e@ == ExprV::Let(bsv, Box::new(expr_view(**body))));
                lemma_binds_size_mono(bsv, 0, bsv.len());
            }
            let mut max_slot_so_far = si - 1;
            let mut next_si = si;
            let mut i: usize = 0;
            while i < bindings.len()
                invariant
                    0 <= i <= bindings@.len(),
                    bsv == binds_view(bindings@),
                    next_si == si + i,
                    max_slot_so_far == let_slots(bsv, i as nat, si as int),
                    0 <= si,
                    si + expr_size(e@) < SLOT_LIMIT,
                    e@ == ExprV::Let(bsv, Box::new(expr_view(**body))),
                    decreases_to!(*e => *bindings),
                decreases bindings.len() - i,
            {
                assert(decreases_to!(*e => bindings@[i as int].1)) by {
                    assert(decreases_to!(*bindings => bindings@));
                    assert(decreases_to!(bindings@ => bindings@[i as int]));
                    assert(decreases_to!(bindings@[i as int] => bindings@[i as int].1));
                }
                proof {
                    assert(bsv[i as int] == (bindings@[i as int].0@, bindings@[i as int].1@));
                    lemma_binds_size_mono(bsv, (i + 1) as nat, bsv.len());
                    lemma_binds_size_mono(bsv, 0, i as nat);
                    assert(binds_size(bsv, (i + 1) as nat) == binds_size(bsv, i as nat) + expr_size(
                        bindings@[i as int].1@,
                    ));
                    lemma_let_slots_bounds(bsv, i as nat, si as int);
                }
                let m = max_stack_slot(&bindings[i].1, next_si);
                let m1 = if max_slot_so_far >= m { max_slot_so_far } else { m };
                max_slot_so_far = if m1 >= next_si { m1 } else { next_si };
                next_si += 1;
                i += 1;
            }
            proof {
                lemma_let_slots_bounds(bsv, bsv.len(), si as int);
            }
            let b = max_stack_slot(body, next_si);
            if max_slot_so_far >= b { max_slot_so_far } else { b }
        },
        Expr::If(cond, thn, els) => {
            let a = max_stack_slot(cond, si);
            let b = max_stack_slot(thn, si);
            let c = max_stack_slot(els, si);
            let m = if a >= b { a } else { b };
            if m >= c { m } else { c }
        },
        Expr::Block(exprs) => {
            let ghost esv = exprs_view(exprs@);
            proof {
                assert(e@ == ExprV::Block(esv));
            }
            let mut m = si - 1;
            let mut i: usize = 0;
            while i < exprs.len()
                invariant
                    0 <= i <= exprs@.len(),
                    esv == exprs_view(exprs@),
                    m == block_slots(esv, i as nat, si as int),
                    0 <= si,
                    si + expr_size(e@) < SLOT_LIMIT,
                    e@ == ExprV::Block(esv),
                    decreases_to!(*e => *exprs),
                decreases exprs.len() - i,
            {
                assert(decreases_to!(*e => exprs@[i as int])) by {
                    assert(decreases_to!(*exprs => exprs@));
                    assert(decreases_to!(exprs@ => exprs@[i as int]));
                }
                proof {
                    assert(esv[i as int] == exprs@[i as int]@);
                    lemma_exprs_size_mono(esv, (i + 1) as nat, esv.len());
                    assert(exprs_size(esv, (i + 1) as nat) == exprs_size(esv, i as nat) + expr_size(
                        exprs@[i as int]@,
                    ));
                    lemma_block_slots_bounds(esv, i as nat, si as int);
                }
                let k = max_stack_slot(&exprs[i], si);
                m = if m >= k { m } else { k };
                i += 1;
            }
            m
        },
        Expr::Call(_, args) => {
            let ghost asv = exprs_view(args@);
            let n = args.len();
            proof {
                lemma_rev_size(asv, n as nat);
            }
            let mut max_slot_so_far = si - 1;
            let mut next_si = si;
            let mut j: usize = 0;
            while j < n
                invariant
                    0 <= j <= n,
                    n == args@.len(),
                    asv == exprs_view(args@),
                    next_si == si + j,
                    max_slot_so_far == call_slots(asv, j as nat, si as int),
                    0 <= si,
                    si + expr_size(e@) < SLOT_LIMIT,
                    e@ == ExprV::Call(e@->Call_0, asv),
                    rev_size(asv, n as nat) == exprs_size(asv, n as nat),
                    decreases_to!(*e => *args),
                decreases n - j,
            {
                assert(decreases_to!(*e => args@[n - 1 - j])) by {
                    assert(decreases_to!(*args => args@));
                    assert(decreases_to!(args@ => args@[n - 1 - j]));
                }
                proof {
                    assert(asv[n - (j + 1)] == args@[n - 1 - j]@);
                    lemma_rev_size(asv, (j + 1) as nat);
                    lemma_rev_size(asv, j as nat);
                    lemma_rev_size_mono(asv, (j + 1) as nat, n as nat);
                    lemma_call_slots_bounds(asv, j as nat, si as int);
                }
                let m = max_stack_slot(&args[n - 1 - j], next_si);
                let m1 = if max_slot_so_far >= m { max_slot_so_far } else { m };
                max_slot_so_far = if m1 >= next_si { m1 } else { next_si };
                next_si += 1;
                j += 1;
            }
            max_slot_so_far
        },
    }
}

/// The frame size of a function: the bytes of its slots, rounded so that
/// `rsp` stays 16-byte aligned after `push rbp`.
pub open spec fn align_function_spec(b: int) -> int {
    if b % 16 == 0 {
        b
    } else {
        b + 8
    }
}

/// The frame size of the entry point: the bytes of its slots, rounded so
/// that `rsp` stays 16-byte aligned after `push rbp` and `push r12`.
pub open spec fn align_main_spec(b: int) -> int {
    if b % 16 == 0 {
        b + 8
    } else {
        b
    }
}

/// The frame size of a function for `local_bytes` bytes of slots.
pub fn align_function_frame(local_bytes: i32) -> (r: i32)
    requires
        local_bytes % 16 != 0 ==> local_bytes <= i32::MAX - 8,
    ensures
        r == align_function_spec(local_bytes as int),
{
    if local_bytes % 16 == 0 {
        local_bytes
    } else {
        local_bytes + 8
    }
}

/// The frame size of the entry point for `local_bytes` bytes of slots.
pub fn align_main_frame(local_bytes: i32) -> (r: i32)
    requires
        local_bytes % 16 == 0 ==> local_bytes <= i32::MAX - 8,
    ensures
        r == align_main_spec(local_bytes as int),
{
    if local_bytes % 16 == 0 {
        local_bytes + 8
    } else {
        local_bytes
    }
}


/// Whether a byte stands for itself in a function label: an ASCII letter or
/// digit, or `_`.
pub open spec fn is_label_byte(b: u8) -> bool {
    ||| 48 <= b <= 57
    ||| 65 <= b <= 90
    ||| 97 <= b <= 122
    ||| b == 95
}

/// The lowercase hexadecimal digit of `d`.
pub open spec fn hex_char(d: int) -> char {
    if d < 10 {
        (48 + d) as char
    } else {
        (87 + d) as char
    }
}

/// The label characters of a name's bytes: each letter, digit or `_` as
/// itself, every other byte as `_` and two hexadecimal digits.
pub open spec fn label_chars(bs: Seq<u8>) -> Seq<char>
    decreases bs.len(),
{
    if bs.len() == 0 {
        Seq::empty()
    } else {
        label_chars(bs.drop_last()) + if is_label_byte(bs.last()) {
            seq![bs.last() as char]
        } else {
            seq!['_', hex_char((bs.last() / 16) as int), hex_char((bs.last() % 16) as int)]
        }
    }
}

/// The assembly label of the function called `name`.
pub open spec fn function_label_spec(name: Seq<char>) -> Seq<char> {
    "fun_"@ + label_chars(encode_utf8(name))
}

fn hex_digit(d: u8) -> (c: char)
    requires
        d < 16,
    ensures
        c == hex_char(d as int),
{
    if d < 10 {
        (48 + d) as char
    } else {
        (87 + d) as char
    }
}

/// The assembly label of the function called `name`: `fun_` and the name's
/// bytes, with every byte other than a letter, digit or `_` written as `_`
/// and two hexadecimal digits.
pub fn function_label(name: &str) -> (label: String)
    ensures
        label@ == function_label_spec(name@),
{
    let bytes = name.as_bytes();
    let mut label = "fun_".to_owned();
    let mut i: usize = 0;
    assert(bytes@.take(0) =~= Seq::<u8>::empty());
    while i < bytes.len()
        invariant
            0 <= i <= bytes@.len(),
            bytes@ == encode_utf8(name@),
            label@ == "fun_"@ + label_chars(bytes@.take(i as int)),
        decreases bytes.len() - i,
    {
        let byte = bytes[i];
        if (48 <= byte && byte <= 57) || (65 <= byte && byte <= 90) || (97 <= byte && byte <= 122)
            || byte == 95 {
            push_char(&mut label, byte as char);
        } else {
            push_char(&mut label, '_');
            push_char(&mut label, hex_digit(byte / 16));
            push_char(&mut label, hex_digit(byte % 16));
        }
        proof {
            assert(bytes@.take(i + 1).drop_last() =~= bytes@.take(i as int));
            assert(bytes@.take(i + 1).last() == byte);
            assert(label@ =~= "fun_"@ + label_chars(bytes@.take(i + 1)));
        }
        i += 1;
    }
    assert(bytes@.take(bytes@.len() as int) =~= bytes@);
    label
}

/// The first parameter among the first `k` that repeats an earlier one.
pub open spec fn first_dup(ps: Seq<Seq<char>>, k: nat) -> Option<Seq<char>>
    decreases k,
{
    if k == 0 || k > ps.len() {
        None
    } else {
        match first_dup(ps, (k - 1) as nat) {
            Some(p) => Some(p),
            None => if exists|j: int| 0 <= j < k - 1 && #[trigger] ps[j] == ps[k - 1] {
                Some(ps[k - 1])
            } else {
                None
            },
        }
    }
}

/// The table of the first `k` definitions: arity and label of each function,
/// or the error that rejects them.
pub open spec fn collect_prefix(ds: Seq<DefinitionV>, k: nat) -> Result<
    Map<Seq<char>, (nat, Seq<char>)>,
    CompileErrorV,
>
    decreases k,
{
    if k == 0 || k > ds.len() {
        Ok(Map::empty())
    } else {
        match collect_prefix(ds, (k - 1) as nat) {
            Ok(m) => {
                let d = ds[k - 1];
                if m.contains_key(d.name) {
                    Err(CompileErrorV::DuplicateFunction(d.name))
                } else {
                    match first_dup(d.params, d.params.len()) {
                        Some(p) => Err(CompileErrorV::DuplicateParameter(p)),
                        None => Ok(
                            m.insert(d.name, (d.params.len(), function_label_spec(d.name))),
                        ),
                    }
                }
            },
            Err(x) => Err(x),
        }
    }
}

proof fn lemma_collect_prefix_err(ds: Seq<DefinitionV>, k: nat, m: nat)
    requires
        0 < k <= m <= ds.len(),
        collect_prefix(ds, k) is Err,
    ensures
        collect_prefix(ds, m) == collect_prefix(ds, k),
    decreases m - k,
{
    if k < m {
        lemma_collect_prefix_err(ds, k, (m - 1) as nat);
    }
}

proof fn lemma_first_dup_some(ps: Seq<Seq<char>>, k: nat, m: nat)
    requires
        0 < k <= m <= ps.len(),
        first_dup(ps, k) is Some,
    ensures
        first_dup(ps, m) == first_dup(ps, k),
    decreases m - k,
{
    if k < m {
        lemma_first_dup_some(ps, k, (m - 1) as nat);
    }
}

/// The table of defined functions: the arity and label of each, keyed by
/// name; rejects a repeated function name and a repeated parameter.
#[verifier::loop_isolation(false)]
pub fn collect_function_info(prog: &Program) -> (r: Result<StringHashMap<FunctionInfo>, CompileError>)
    ensures
        match collect_prefix(prog@.defns, prog@.defns.len()) {
            Ok(m) => r is Ok && funcs_view(r->Ok_0@) == m,
            Err(x) => r is Err && r->Err_0@ == x,
        },
{
    let ghost dsv = prog@.defns;
    let n = prog.defns.len();
    let mut functions: StringHashMap<FunctionInfo> = StringHashMap::new();
    let mut i: usize = 0;
    assert(funcs_view(functions@) =~= Map::<Seq<char>, (nat, Seq<char>)>::empty());
    while i < n
        invariant
            0 <= i <= n,
            n == prog.defns@.len(),
            dsv == defns_view(prog.defns@),
            collect_prefix(dsv, i as nat) == Ok::<Map<Seq<char>, (nat, Seq<char>)>, CompileErrorV>(
                funcs_view(functions@),
            ),
        decreases n - i,
    {
        let defn = &prog.defns[i];
        let ghost dv = defn@;
        assert(dsv[i as int] == dv);
        if functions.contains_key(defn.name.as_str()) {
            proof {
                lemma_collect_prefix_err(dsv, (i + 1) as nat, n as nat);
            }
            return Err(CompileError::DuplicateFunction(defn.name.clone()));
        }
        let ghost ps = dv.params;
        let mut seen = StringHashSet::new();
        let mut j: usize = 0;
        assert(seen@ =~= ps.take(0).to_set());
        while j < defn.params.len()
            invariant
                0 <= j <= defn.params@.len(),
                ps == names_view(defn.params@),
                seen@ == ps.take(j as int).to_set(),
                first_dup(ps, j as nat) is None,
            decreases defn.params.len() - j,
        {
            let param = &defn.params[j];
            assert(ps[j as int] == param@);
            if !seen.insert(param.clone()) {
                proof {
                    assert(ps.take(j as int).contains(param@));
                    let k = choose|k: int| 0 <= k < j && #[trigger] ps.take(j as int)[k] == param@;
                    assert(ps[k] == ps[j as int]);
                    lemma_first_dup_some(ps, (j + 1) as nat, ps.len());
                    lemma_collect_prefix_err(dsv, (i + 1) as nat, n as nat);
                }
                return Err(CompileError::DuplicateParameter(param.clone()));
            }
            proof {
                assert(ps.take(j + 1) =~= ps.take(j as int).push(param@));
                assert(ps.take(j + 1).to_set() =~= ps.take(j as int).to_set().insert(param@)) by {
                    assert forall|x: Seq<char>| ps.take(j + 1).to_set().contains(x) <==> ps.take(
                        j as int,
                    ).to_set().insert(param@).contains(x) by {
                        assert(ps.take(j + 1)[j as int] == param@);
                        if ps.take(j + 1).contains(x) {
                            let k = choose|k: int| 0 <= k < j + 1 && #[trigger] ps.take(j + 1)[k] == x;
                            if k < j {
                                assert(ps.take(j as int)[k] == x);
                            }
                        }
                        if ps.take(j as int).contains(x) {
                            let k = choose|k: int| 0 <= k < j && #[trigger] ps.take(j as int)[k] == x;
                            assert(ps.take(j + 1)[k] == x);
                        }
                    }
                }
                if exists|k: int| 0 <= k < j && #[trigger] ps[k] == ps[j as int] {
                    let k = choose|k: int| 0 <= k < j && #[trigger] ps[k] == ps[j as int];
                    assert(ps.take(j as int)[k] == param@);
                }
            }
            j += 1;
        }
        assert(ps.len() == defn.params@.len());
        let label = function_label(defn.name.as_str());
        let ghost before = funcs_view(functions@);
        functions.insert(defn.name.clone(), FunctionInfo { arity: defn.params.len(), label });
        assert(funcs_view(functions@) =~= before.insert(
            dv.name,
            (ps.len(), function_label_spec(dv.name)),
        ));
        i += 1;
    }
    Ok(functions)
}


/// The environment of a function's parameters: parameter `i` at offset
/// `16 + 8 i` above the frame pointer; a later parameter of the same name
/// wins.
pub open spec fn param_env(ps: Seq<Seq<char>>, k: nat) -> Map<Seq<char>, i32>
    decreases k,
{
    if k == 0 || k > ps.len() {
        Map::empty()
    } else {
        param_env(ps, (k - 1) as nat).insert(ps[k - 1], (16 + 8 * (k - 1)) as i32)
    }
}

/// `sub rsp, fb` when the frame is not empty.
pub open spec fn rsp_sub(fb: int) -> Seq<InstrV> {
    if fb > 0 {
        seq![InstrV::ISub(Val::Reg(Reg::RSP), Val::Imm(fb as i64))]
    } else {
        Seq::empty()
    }
}

/// `add rsp, fb` when the frame is not empty.
pub open spec fn rsp_add(fb: int) -> Seq<InstrV> {
    if fb > 0 {
        seq![InstrV::IAdd(Val::Reg(Reg::RSP), Val::Imm(fb as i64))]
    } else {
        Seq::empty()
    }
}

/// The frame size of a function body.
pub open spec fn function_frame(body: ExprV) -> int {
    align_function_spec(max_slot(body, 1) * 8)
}

/// The frame size of the main expression.
pub open spec fn main_frame(e: ExprV) -> int {
    align_main_spec(max_slot(e, 1) * 8)
}

/// The code of a function definition: its label, the frame set-up, the body
/// compiled at stack index 1 with the parameters in scope, and the frame
/// tear-down; or the error that rejects the body.
pub open spec fn compile_defn_spec(
    d: DefinitionV,
    funcs: Map<Seq<char>, (nat, Seq<char>)>,
    c: int,
) -> Result<(Seq<InstrV>, int), CompileErrorV> {
    let fb = function_frame(d.body);
    match compile_spec(
        d.body,
        1,
        param_env(d.params, d.params.len()),
        d.params.to_set(),
        funcs,
        c,
        None,
    ) {
        Ok((ib, c1)) => Ok(
            (
                seq![
                    InstrV::ILabel(funcs[d.name].1),
                    InstrV::IPush(Val::Reg(Reg::RBP)),
                    InstrV::IMov(Val::Reg(Reg::RBP), Val::Reg(Reg::RSP)),
                ] + rsp_sub(fb) + ib + rsp_add(fb) + seq![
                    InstrV::IPop(Val::Reg(Reg::RBP)),
                    InstrV::IRet,
                ],
                c1,
            ),
        ),
        Err(x) => Err(x),
    }
}

/// The code of the entry point: the frame set-up, `r12` saved and loaded with
/// the input, the main expression compiled at stack index 1, and the
/// tear-down; or the error that rejects the expression.
pub open spec fn compile_main_spec(
    e: ExprV,
    funcs: Map<Seq<char>, (nat, Seq<char>)>,
    c: int,
) -> Result<(Seq<InstrV>, int), CompileErrorV> {
    let fb = main_frame(e);
    match compile_spec(e, 1, Map::empty(), Set::empty(), funcs, c, None) {
        Ok((ib, c1)) => Ok(
            (
                seq![
                    InstrV::ILabel("our_code_starts_here"@),
                    InstrV::IPush(Val::Reg(Reg::RBP)),
                    InstrV::IMov(Val::Reg(Reg::RBP), Val::Reg(Reg::RSP)),
                ] + rsp_sub(fb) + seq![
                    InstrV::IPush(Val::Reg(Reg::R12)),
                    InstrV::IMov(Val::Reg(Reg::R12), Val::Reg(Reg::RDI)),
                ] + ib + seq![InstrV::IPop(Val::Reg(Reg::R12))] + rsp_add(fb) + seq![
                    InstrV::IPop(Val::Reg(Reg::RBP)),
                    InstrV::IRet,
                ],
                c1,
            ),
        ),
        Err(x) => Err(x),
    }
}

/// Whether a definition is small enough that its offsets and label numbers
/// fit in 32 bits, with the label counter starting at `c`.
pub open spec fn defn_within_limits(d: DefinitionV, c: int) -> bool {
    &&& compile_bounds(d.body, 1, c)
    &&& d.params.len() < 0x0800_0000
}

fn push_all(v: &mut Vec<Instr>, w: Vec<Instr>)
    ensures
        instrs_view(final(v)@) == instrs_view(old(v)@) + instrs_view(w@),
{
    let mut w = w;
    v.append(&mut w);
}

/// Compiles a function definition.
pub fn compile_defn(
    defn: &Definition,
    functions: &StringHashMap<FunctionInfo>,
    label_counter: &mut i32,
) -> (r: Result<Vec<Instr>, CompileError>)
    requires
        functions@.contains_key(defn.name@),
        defn_within_limits(defn@, *old(label_counter) as int),
    ensures
        compiled_as(
            r,
            *final(label_counter) as int,
            compile_defn_spec(defn@, funcs_view(functions@), *old(label_counter) as int),
        ),
        r is Ok ==> *old(label_counter) <= *final(label_counter) <= *old(label_counter) + 2
            * expr_size(defn@.body),
{
    let ghost c = *label_counter as int;
    let ghost ps = names_view(defn.params@);
    proof {
        lemma_max_slot_bounds(defn@.body, 1);
    }
    let stack_slots = max_stack_slot(&defn.body, 1);
    let frame_bytes = align_function_frame(stack_slots * 8);
    let mut env = VarEnv::new();
    let mut params = StringHashSet::new();
    let mut index: usize = 0;
    assert(env@ =~= param_env(ps, 0));
    assert(params@ =~= ps.take(0).to_set());
    while index < defn.params.len()
        invariant
            0 <= index <= defn.params@.len(),
            defn.params@.len() < 0x0800_0000,
            ps == names_view(defn.params@),
            env@ == param_env(ps, index as nat),
            params@ == ps.take(index as int).to_set(),
        decreases defn.params.len() - index,
    {
        let param = &defn.params[index];
        assert(ps[index as int] == param@);
        env.insert(param.clone(), 16 + index as i32 * 8);
        params.insert(param.clone());
        proof {
            assert(ps.take(index + 1).to_set() =~= ps.take(index as int).to_set().insert(param@)) by {
                assert forall|x: Seq<char>| ps.take(index + 1).to_set().contains(x) <==> ps.take(
                    index as int,
                ).to_set().insert(param@).contains(x) by {
                    assert(ps.take(index + 1)[index as int] == param@);
                    if ps.take(index + 1).contains(x) {
                        let k = choose|k: int| 0 <= k < index + 1 && #[trigger] ps.take(index + 1)[k] == x;
                        if k < index {
                            assert(ps.take(index as int)[k] == x);
                        }
                    }
                    if ps.take(index as int).contains(x) {
                        let k = choose|k: int| 0 <= k < index && #[trigger] ps.take(index as int)[k] == x;
                        assert(ps.take(index + 1)[k] == x);
                    }
                }
            }
        }
        index += 1;
    }
    assert(ps.take(ps.len() as int) =~= ps);
    let label = match functions.get(defn.name.as_str()) {
        Some(f) => f.label.clone(),
        None => String::new(),
    };
    let mut instrs = Vec::new();
    instrs.push(Instr::ILabel(label));
    instrs.push(Instr::IPush(Val::Reg(Reg::RBP)));
    instrs.push(Instr::IMov(Val::Reg(Reg::RBP), Val::Reg(Reg::RSP)));
    if frame_bytes > 0 {
        instrs.push(Instr::ISub(Val::Reg(Reg::RSP), Val::Imm(frame_bytes as i64)));
    }
    let ghost head = instrs_view(instrs@);
    assert(head =~= seq![
        InstrV::ILabel(funcs_view(functions@)[defn@.name].1),
        InstrV::IPush(Val::Reg(Reg::RBP)),
        InstrV::IMov(Val::Reg(Reg::RBP), Val::Reg(Reg::RSP)),
    ] + rsp_sub(frame_bytes as int));
    assert(frame_bytes as int == function_frame(defn@.body));
    let body = compile_expr(&defn.body, 1, &env, &params, functions, label_counter, None)?;
    let ghost ib = instrs_view(body@);
    push_all(&mut instrs, body);
    if frame_bytes > 0 {
        instrs.push(Instr::IAdd(Val::Reg(Reg::RSP), Val::Imm(frame_bytes as i64)));
    }
    instrs.push(Instr::IPop(Val::Reg(Reg::RBP)));
    instrs.push(Instr::IRet);
    assert(instrs_view(instrs@) =~= head + ib + rsp_add(frame_bytes as int) + seq![
        InstrV::IPop(Val::Reg(Reg::RBP)),
        InstrV::IRet,
    ]);
    Ok(instrs)
}

/// Compiles the main expression into the entry point.
pub fn compile_main(
    expr: &Expr,
    functions: &StringHashMap<FunctionInfo>,
    label_counter: &mut i32,
) -> (r: Result<Vec<Instr>, CompileError>)
    requires
        compile_bounds(expr@, 1, *old(label_counter) as int),
    ensures
        compiled_as(
            r,
            *final(label_counter) as int,
            compile_main_spec(expr@, funcs_view(functions@), *old(label_counter) as int),
        ),
        r is Ok ==> *old(label_counter) <= *final(label_counter) <= *old(label_counter) + 2
            * expr_size(expr@),
{
    proof {
        lemma_max_slot_bounds(expr@, 1);
    }
    let stack_slots = max_stack_slot(expr, 1);
    let frame_bytes = align_main_frame(stack_slots * 8);
    let env = VarEnv::new();
    let params = StringHashSet::new();
    let mut instrs = Vec::new();
    instrs.push(Instr::ILabel("our_code_starts_here".to_owned()));
    instrs.push(Instr::IPush(Val::Reg(Reg::RBP)));
    instrs.push(Instr::IMov(Val::Reg(Reg::RBP), Val::Reg(Reg::RSP)));
    if frame_bytes > 0 {
        instrs.push(Instr::ISub(Val::Reg(Reg::RSP), Val::Imm(frame_bytes as i64)));
    }
    instrs.push(Instr::IPush(Val::Reg(Reg::R12)));
    instrs.push(Instr::IMov(Val::Reg(Reg::R12), Val::Reg(Reg::RDI)));
    let ghost head = instrs_view(instrs@);
    assert(head =~= seq![
        InstrV::ILabel("our_code_starts_here"@),
        InstrV::IPush(Val::Reg(Reg::RBP)),
        InstrV::IMov(Val::Reg(Reg::RBP), Val::Reg(Reg::RSP)),
    ] + rsp_sub(frame_bytes as int) + seq![
        InstrV::IPush(Val::Reg(Reg::R12)),
        InstrV::IMov(Val::Reg(Reg::R12), Val::Reg(Reg::RDI)),
    ]);
    assert(frame_bytes as int == main_frame(expr@));
    assert(params@ =~= Set::<Seq<char>>::empty());
    let body = compile_expr(expr, 1, &env, &params, functions, label_counter, None)?;
    let ghost ib = instrs_view(body@);
    push_all(&mut instrs, body);
    instrs.push(Instr::IPop(Val::Reg(Reg::R12)));
    if frame_bytes > 0 {
        instrs.push(Instr::IAdd(Val::Reg(Reg::RSP), Val::Imm(frame_bytes as i64)));
    }
    instrs.push(Instr::IPop(Val::Reg(Reg::RBP)));
    instrs.push(Instr::IRet);
    assert(instrs_view(instrs@) =~= head + ib + seq![InstrV::IPop(Val::Reg(Reg::R12))] + rsp_add(
        frame_bytes as int,
    ) + seq![InstrV::IPop(Val::Reg(Reg::RBP)), InstrV::IRet]);
    Ok(instrs)
}


/// The number of nodes of the bodies of the first `k` definitions.
pub open spec fn defns_size(ds: Seq<DefinitionV>, k: nat) -> nat
    decreases k,
{
    if k == 0 || k > ds.len() {
        0
    } else {
        defns_size(ds, (k - 1) as nat) + expr_size(ds[k - 1].body)
    }
}

/// Whether a program is small enough that its offsets and label numbers fit
/// in 32 bits.
pub open spec fn program_within_limits(p: ProgramV) -> bool {
    &&& forall|i: int|
        0 <= i < p.defns.len() ==> 1 + expr_size(#[trigger] p.defns[i].body) < SLOT_LIMIT
            && p.defns[i].params.len() < 0x0800_0000
    &&& 1 + expr_size(p.main) < SLOT_LIMIT
    &&& 2 * (defns_size(p.defns, p.defns.len()) + expr_size(p.main)) <= i32::MAX
}

/// The code of the first `k` definitions and the counter after it, or the
/// error that rejects one of them.
pub open spec fn defns_code(
    ds: Seq<DefinitionV>,
    k: nat,
    funcs: Map<Seq<char>, (nat, Seq<char>)>,
    c: int,
) -> Result<(Seq<InstrV>, int), CompileErrorV>
    decreases k,
{
    if k == 0 || k > ds.len() {
        Ok((Seq::empty(), c))
    } else {
        match defns_code(ds, (k - 1) as nat, funcs, c) {
            Ok((is, c1)) => match compile_defn_spec(ds[k - 1], funcs, c1) {
                Ok((id, c2)) => Ok((is + id, c2)),
                Err(x) => Err(x),
            },
            Err(x) => Err(x),
        }
    }
}

/// The texts of a sequence of instructions.
pub open spec fn instr_texts(is: Seq<InstrV>) -> Seq<Seq<char>> {
    is.map_values(|i: InstrV| instr_text(i))
}

/// The lines that open every assembly file.
pub open spec fn header_lines() -> Seq<Seq<char>> {
    seq![
        "section .text"@,
        "extern snek_error"@,
        "extern snek_print"@,
        "global our_code_starts_here"@,
    ]
}

/// The lines of the handler of invalid arguments, which end every file.
pub open spec fn trailer_lines() -> Seq<Seq<char>> {
    seq!["throw_error_invalid:"@, "  mov rdi, 1"@, "  call snek_error"@]
}

/// The assembly text of a program: the header, each function, the entry
/// point and the error handler, one line each; or the error that rejects the
/// program.
pub open spec fn compile_program_spec(p: ProgramV) -> Result<Seq<char>, CompileErrorV> {
    match collect_prefix(p.defns, p.defns.len()) {
        Ok(funcs) => match defns_code(p.defns, p.defns.len(), funcs, 0) {
            Ok((di, c1)) => match compile_main_spec(p.main, funcs, c1) {
                Ok((mi, _)) => Ok(
                    join(header_lines() + instr_texts(di) + instr_texts(mi) + trailer_lines(), "\n"@),
                ),
                Err(x) => Err(x),
            },
            Err(x) => Err(x),
        },
        Err(x) => Err(x),
    }
}

/// A table built from definitions names each of them.
proof fn lemma_collect_names(ds: Seq<DefinitionV>, k: nat, j: int)
    requires
        k <= ds.len(),
        0 <= j < k,
        collect_prefix(ds, k) is Ok,
    ensures
        collect_prefix(ds, k)->Ok_0.contains_key(ds[j].name),
    decreases k,
{
    if j < k - 1 {
        lemma_collect_names(ds, (k - 1) as nat, j);
    }
}

proof fn lemma_defns_code_err(
    ds: Seq<DefinitionV>,
    k: nat,
    m: nat,
    funcs: Map<Seq<char>, (nat, Seq<char>)>,
    c: int,
)
    requires
        0 < k <= m <= ds.len(),
        defns_code(ds, k, funcs, c) is Err,
    ensures
        defns_code(ds, m, funcs, c) == defns_code(ds, k, funcs, c),
    decreases m - k,
{
    if k < m {
        lemma_defns_code_err(ds, k, (m - 1) as nat, funcs, c);
    }
}

proof fn lemma_defns_size_mono(ds: Seq<DefinitionV>, i: nat, k: nat)
    requires
        i <= k <= ds.len(),
    ensures
        defns_size(ds, i) <= defns_size(ds, k),
    decreases k - i,
{
    if i < k {
        lemma_defns_size_mono(ds, i, (k - 1) as nat);
    }
}

/// Appends the text of each instruction, in order.
fn push_texts(lines: &mut Vec<String>, instrs: Vec<Instr>)
    ensures
        final(lines)@.map_values(|s: String| s@) == old(lines)@.map_values(|s: String| s@)
            + instr_texts(instrs_view(instrs@)),
{
    let ghost start = lines@;
    let ghost iv = instrs_view(instrs@);
    let n = instrs.len();
    let mut rest = instrs;
    let mut texts: Vec<String> = Vec::new();
    while rest.len() > 0
        invariant
            rest@.len() + texts@.len() == n,
            n == iv.len(),
            instrs_view(rest@) == iv.take(rest@.len() as int),
            texts@.map_values(|s: String| s@) == instr_texts(iv.skip(rest@.len() as int)).reverse(),
        decreases rest.len(),
    {
        let ghost before = rest@;
        let last = rest.pop().unwrap();
        proof {
            assert(rest@ =~= before.drop_last());
            assert(instrs_view(before) == instrs_view(rest@).push(last@));
            assert(iv.take(rest@.len() as int) =~= iv.take(before.len() as int).drop_last());
            assert(instrs_view(before)[rest@.len() as int] == last@);
            assert(iv.take(before.len() as int)[rest@.len() as int] == iv[rest@.len() as int]);
        }
        let ghost old_texts = texts@;
        texts.push(instr_to_str(last));
        proof {
            assert(iv.skip(rest@.len() as int) =~= seq![last@] + iv.skip(before.len() as int));
            assert(instr_texts(iv.skip(rest@.len() as int)).reverse() =~= instr_texts(
                iv.skip(before.len() as int),
            ).reverse().push(instr_text(last@)));
            assert(texts@.map_values(|s: String| s@) =~= old_texts.map_values(|s: String| s@).push(
                instr_text(last@),
            ));
        }
    }
    assert(iv.skip(0) =~= iv);
    let ghost rev = texts@.map_values(|s: String| s@);
    assert(rev.take(n as int) =~= rev);
    let mut k = texts.len();
    while k > 0
        invariant
            0 <= k <= n,
            texts@.len() == k,
            rev.len() == n,
            texts@.map_values(|s: String| s@) == rev.take(k as int),
            rev == instr_texts(iv).reverse(),
            lines@.map_values(|s: String| s@) == start.map_values(|s: String| s@) + instr_texts(
                iv,
            ).take((n - k) as int),
        decreases k,
    {
        let ghost tb = texts@;
        let t = texts.pop().unwrap();
        proof {
            assert(tb.map_values(|s: String| s@)[k - 1] == rev.take(k as int)[k - 1]);
            assert(t@ == rev[k - 1]);
            assert(rev[k - 1] == instr_texts(iv)[n - k]);
        }
        let ghost old_lines = lines@;
        lines.push(t);
        proof {
            assert(instr_texts(iv).take((n - k + 1) as int) =~= instr_texts(iv).take(
                (n - k) as int,
            ).push(instr_texts(iv)[n - k]));
            assert(lines@.map_values(|s: String| s@) =~= old_lines.map_values(|s: String| s@).push(
                t@,
            ));
            assert(texts@ =~= tb.drop_last());
            assert(texts@.map_values(|s: String| s@) =~= rev.take(k - 1));
        }
        k -= 1;
    }
    assert(instr_texts(iv).take(n as int) =~= instr_texts(iv));
}

/// Compiles a whole program to the text of its assembly file.
#[verifier::loop_isolation(false)]
pub fn compile_program(prog: &Program) -> (r: Result<String, CompileError>)
    requires
        program_within_limits(prog@),
    ensures
        match compile_program_spec(prog@) {
            Ok(t) => r is Ok && r->Ok_0@ == t,
            Err(x) => r is Err && r->Err_0@ == x,
        },
{
    let ghost pv = prog@;
    let ghost dsv = pv.defns;
    let functions = collect_function_info(prog)?;
    let ghost fv = funcs_view(functions@);
    let mut label_counter: i32 = 0;
    let mut lines: Vec<String> = Vec::new();
    lines.push("section .text".to_owned());
    lines.push("extern snek_error".to_owned());
    lines.push("extern snek_print".to_owned());
    lines.push("global our_code_starts_here".to_owned());
    assert(lines@.map_values(|s: String| s@) =~= header_lines());
    let n = prog.defns.len();
    let mut i: usize = 0;
    let ghost mut code: Seq<InstrV> = Seq::empty();
    while i < n
        invariant
            0 <= i <= n,
            n == dsv.len(),
            dsv == defns_view(prog.defns@),
            defns_code(dsv, i as nat, fv, 0) == Ok::<(Seq<InstrV>, int), CompileErrorV>(
                (code, label_counter as int),
            ),
            lines@.map_values(|s: String| s@) == header_lines() + instr_texts(code),
            0 <= label_counter <= 2 * defns_size(dsv, i as nat),
        decreases n - i,
    {
        let defn = &prog.defns[i];
        proof {
            assert(dsv[i as int] == defn@);
            lemma_collect_names(dsv, n as nat, i as int);
            lemma_defns_size_mono(dsv, (i + 1) as nat, n as nat);
            assert(defns_size(dsv, (i + 1) as nat) == defns_size(dsv, i as nat) + expr_size(
                defn@.body,
            ));
        }
        let instrs = match compile_defn(defn, &functions, &mut label_counter) {
            Ok(v) => v,
            Err(x) => {
                proof {
                    lemma_defns_code_err(dsv, (i + 1) as nat, n as nat, fv, 0);
                }
                return Err(x);
            },
        };
        let ghost id = instrs_view(instrs@);
        push_texts(&mut lines, instrs);
        proof {
            assert(instr_texts(code + id) =~= instr_texts(code) + instr_texts(id));
            code = code + id;
        }
        i += 1;
    }
    let main_instrs = compile_main(&prog.main, &functions, &mut label_counter)?;
    let ghost mi = instrs_view(main_instrs@);
    push_texts(&mut lines, main_instrs);
    lines.push("throw_error_invalid:".to_owned());
    lines.push("  mov rdi, 1".to_owned());
    lines.push("  call snek_error".to_owned());
    let ghost parts = header_lines() + instr_texts(code) + instr_texts(mi) + trailer_lines();
    assert(lines@.map_values(|s: String| s@) =~= parts);
    let mut out = String::new();
    let mut k: usize = 0;
    while k < lines.len()
        invariant
            0 <= k <= lines@.len(),
            parts == lines@.map_values(|s: String| s@),
            out@ == join(parts.take(k as int), "\n"@),
        decreases lines.len() - k,
    {
        if k > 0 {
            out.append("\n");
        }
        out.append(lines[k].as_str());
        proof {
            assert(parts.take(k + 1).drop_last() =~= parts.take(k as int));
            assert(parts[k as int] == lines@[k as int]@);
        }
        k += 1;
    }
    assert(parts.take(parts.len() as int) =~= parts);
    Ok(out)
}


/// The number of nodes of an expression, or `cap` if it has more.
pub fn expr_size_capped(e: &Expr, cap: u64) -> (r: u64)
    ensures
        r == if expr_size(e@) < cap { expr_size(e@) } else { cap as nat },
    decreases e,
{
    if cap == 0 {
        proof { lemma_size_pos(e@); }
        return 0;
    }
    match e {
        Expr::Number(_) | Expr::Bool(_) | Expr::Input | Expr::Id(_) => 1,
        Expr::UnOp(_, a) | Expr::Loop(a) | Expr::Break(a) | Expr::Assign(_, a) => {
            let k = expr_size_capped(a, cap - 1);
            k + 1
        },
        Expr::BinOp(_, a, b) => {
            let ka = expr_size_capped(a, cap - 1);
            let kb = expr_size_capped(b, cap - 1 - ka);
            1 + ka + kb
        },
        Expr::If(c, t, f) => {
            let kc = expr_size_capped(c, cap - 1);
            let kt = expr_size_capped(t, cap - 1 - kc);
            let kf = expr_size_capped(f, cap - 1 - kc - kt);
            1 + kc + kt + kf
        },
        Expr::Let(bs, body) => {
            let ghost bsv = binds_view(bs@);
            let mut total: u64 = 1;
            let mut i: usize = 0;
            while i < bs.len()
                invariant
                    0 <= i <= bs@.len(),
                    bsv == binds_view(bs@),
                    1 <= total <= cap,
                    total == if 1 + binds_size(bsv, i as nat) < cap {
                        1 + binds_size(bsv, i as nat)
                    } else {
                        cap as nat
                    },
                    e@ == ExprV::Let(bsv, Box::new(expr_view(**body))),
                    decreases_to!(*e => *bs),
                decreases bs.len() - i,
            {
                assert(decreases_to!(*e => bs@[i as int].1)) by {
                    assert(decreases_to!(*bs => bs@));
                    assert(decreases_to!(bs@ => bs@[i as int]));
                    assert(decreases_to!(bs@[i as int] => bs@[i as int].1));
                }
                let k = expr_size_capped(&bs[i].1, cap - total);
                total = total + k;
                proof {
                    assert(bsv[i as int] == (bs@[i as int].0@, bs@[i as int].1@));
                    assert(binds_size(bsv, (i + 1) as nat) == binds_size(bsv, i as nat) + expr_size(
                        bs@[i as int].1@,
                    ));
                }
                i += 1;
            }
            let k = expr_size_capped(body, cap - total);
            total + k
        },
        Expr::Block(es) | Expr::Call(_, es) => {
            let ghost esv = exprs_view(es@);
            let mut total: u64 = 1;
            let mut i: usize = 0;
            while i < es.len()
                invariant
                    0 <= i <= es@.len(),
                    esv == exprs_view(es@),
                    1 <= total <= cap,
                    total == if 1 + exprs_size(esv, i as nat) < cap {
                        1 + exprs_size(esv, i as nat)
                    } else {
                        cap as nat
                    },
                    e@ == ExprV::Block(esv) || e@ == ExprV::Call(e@->Call_0, esv),
                    decreases_to!(*e => *es),
                decreases es.len() - i,
            {
                assert(decreases_to!(*e => es@[i as int])) by {
                    assert(decreases_to!(*es => es@));
                    assert(decreases_to!(es@ => es@[i as int]));
                }
                let k = expr_size_capped(&es[i], cap - total);
                total = total + k;
                proof {
                    assert(esv[i as int] == es@[i as int]@);
                    assert(exprs_size(esv, (i + 1) as nat) == exprs_size(esv, i as nat) + expr_size(
                        es@[i as int]@,
                    ));
                }
                i += 1;
            }
            total
        },
    }
}

/// Whether a program is small enough to compile: `program_within_limits`.
pub fn program_fits(prog: &Program) -> (r: bool)
    ensures
        r == program_within_limits(prog@),
{
    let ghost pv = prog@;
    let ghost dsv = pv.defns;
    let n = prog.defns.len();
    let mut total: u64 = 0;
    let mut i: usize = 0;
    while i < n
        invariant
            0 <= i <= n,
            n == dsv.len(),
            pv == prog@,
            dsv == defns_view(prog.defns@),
            total == defns_size(dsv, i as nat),
            2 * total <= i32::MAX,
            forall|j: int|
                0 <= j < i ==> 1 + expr_size(#[trigger] dsv[j].body) < SLOT_LIMIT
                    && dsv[j].params.len() < 0x0800_0000,
        decreases n - i,
    {
        let defn = &prog.defns[i];
        assert(dsv[i as int] == defn@);
        let k = expr_size_capped(&defn.body, 0x1000_0000);
        if k >= 0x0fff_ffff || defn.params.len() >= 0x0800_0000 {
            assert(defn@.params.len() == defn.params@.len());
            assert(!(1 + expr_size(dsv[i as int].body) < SLOT_LIMIT && dsv[i as int].params.len()
                < 0x0800_0000));
            return false;
        }
        if 2 * (total + k) > 0x7fff_ffff {
            proof {
                lemma_defns_size_mono(dsv, (i + 1) as nat, n as nat);
            }
            return false;
        }
        total = total + k;
        i += 1;
    }
    let k = expr_size_capped(&prog.main, 0x1000_0000);
    k < 0x0fff_ffff && 2 * (total + k) <= 0x7fff_ffff
}

} // verus!
