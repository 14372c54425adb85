//! Compiling Cobra expressions to instructions.
use vstd::prelude::*;
use crate::error::{CompileError, CompileErrorV};
use crate::tagging::{encode_num, NUM_TAG_MASK, BOOL_TAG_MASK, TRUE_VAL, FALSE_VAL};
use crate::text::{new_label, label_text, join};
use crate::cobra::syntax::{Expr, ExprV, UnOp, BinOp, expr_view, exprs_view, binds_view,
    lemma_exprs_view, lemma_binds_view};
use crate::cobra::machine::{Reg, Val, Instr, InstrV, instrs_view, lemma_instrs_view_add,
    lemma_instrs_view_push};
use crate::cobra::env::{Env, env_contents, env_get, env_insert, env_clone, env_new};
use crate::cobra::machine::{instr_text, instr_to_str};
use vstd::hash_set::StringHashSet;

verus! {

broadcast use vstd::std_specs::vec::axiom_vec_decreases_to_view, lemma_exprs_view,
    lemma_binds_view, lemma_instrs_view_add, lemma_instrs_view_push;

/// Stack slots stay below this bound, so that every offset fits in 32 bits.
pub const SLOT_LIMIT: i32 = 0x1000_0000;

/// The stack offset of slot `si`.
pub open spec fn slot_offset(si: int) -> i32 {
    (-8 * si) as i32
}

/// The operand `rax`.
pub open spec fn rax() -> Val {
    Val::Reg(Reg::RAX)
}

/// The stack operand at offset `off` from `rsp`.
pub open spec fn stack(off: i32) -> Val {
    Val::RegOffset(Reg::RSP, off)
}

/// The label of the handler of invalid arguments.
pub open spec fn error_label() -> Seq<char> {
    "throw_error_invalid"@
}

/// A type check that jumps to the error handler unless `v` holds a number.
pub open spec fn check_number_spec(v: Val) -> Seq<InstrV> {
    seq![InstrV::ITest(v, Val::Imm(NUM_TAG_MASK)), InstrV::IJne(error_label())]
}

/// Whether an instruction is a conditional jump.
pub open spec fn is_cond_jump(j: InstrV) -> bool {
    ||| j is IJg
    ||| j is IJge
    ||| j is IJl
    ||| j is IJle
    ||| j is IJe
    ||| j is IJne
}

/// The conditional jump `j` retargeted at label `l`.
pub open spec fn with_label(j: InstrV, l: Seq<char>) -> InstrV {
    match j {
        InstrV::IJg(_) => InstrV::IJg(l),
        InstrV::IJge(_) => InstrV::IJge(l),
        InstrV::IJl(_) => InstrV::IJl(l),
        InstrV::IJle(_) => InstrV::IJle(l),
        InstrV::IJe(_) => InstrV::IJe(l),
        InstrV::IJne(_) => InstrV::IJne(l),
        _ => j,
    }
}

/// Code that sets `rax` to true when the jump `j` is taken and to false
/// otherwise, using the labels of counter values `c` and `c + 1`.
pub open spec fn bool_result_spec(j: InstrV, c: int) -> Seq<InstrV> {
    let t = label_text("bool_true"@, c);
    let end = label_text("bool_end"@, c + 1);
    seq![
        with_label(j, t),
        InstrV::IMov(rax(), Val::Imm(FALSE_VAL)),
        InstrV::IJmp(end),
        InstrV::ILabel(t),
        InstrV::IMov(rax(), Val::Imm(TRUE_VAL)),
        InstrV::ILabel(end),
    ]
}

/// The code that applies a unary operator to `rax`, and the counter after it.
pub open spec fn unop_tail(op: UnOp, c: int) -> (Seq<InstrV>, int) {
    match op {
        UnOp::Add1 => (check_number_spec(rax()).push(InstrV::IAdd(rax(), Val::Imm(2))), c),
        UnOp::Sub1 => (check_number_spec(rax()).push(InstrV::ISub(rax(), Val::Imm(2))), c),
        UnOp::Negate => (check_number_spec(rax()).push(InstrV::IMul(rax(), Val::Imm(-1i64))), c),
        UnOp::IsNum => {
            let f = label_text("isnum_false"@, c);
            let end = label_text("isnum_end"@, c + 1);
            (
                seq![
                    InstrV::ITest(rax(), Val::Imm(NUM_TAG_MASK)),
                    InstrV::IJne(f),
                    InstrV::IMov(rax(), Val::Imm(TRUE_VAL)),
                    InstrV::IJmp(end),
                    InstrV::ILabel(f),
                    InstrV::IMov(rax(), Val::Imm(FALSE_VAL)),
                    InstrV::ILabel(end),
                ],
                c + 2,
            )
        },
        UnOp::IsBool => {
            let t = label_text("isbool_true"@, c);
            let end = label_text("isbool_end"@, c + 1);
            (
                seq![
                    InstrV::ITest(rax(), Val::Imm(BOOL_TAG_MASK)),
                    InstrV::IJne(t),
                    InstrV::IMov(rax(), Val::Imm(FALSE_VAL)),
                    InstrV::IJmp(end),
                    InstrV::ILabel(t),
                    InstrV::IMov(rax(), Val::Imm(TRUE_VAL)),
                    InstrV::ILabel(end),
                ],
                c + 2,
            )
        },
    }
}

/// The code that combines the operands stored at `lo` and `ro` into `rax`,
/// and the counter after it.
pub open spec fn binop_tail(op: BinOp, lo: i32, ro: i32, c: int) -> (Seq<InstrV>, int) {
    let l = stack(lo);
    let r = stack(ro);
    let checks = check_number_spec(l) + check_number_spec(r);
    let cmp = checks + seq![InstrV::IMov(rax(), l), InstrV::ICmp(rax(), r)];
    match op {
        BinOp::Plus => (checks + seq![InstrV::IMov(rax(), l), InstrV::IAdd(rax(), r)], c),
        BinOp::Minus => (checks + seq![InstrV::IMov(rax(), l), InstrV::ISub(rax(), r)], c),
        BinOp::Times => (
            checks + seq![
                InstrV::IMov(rax(), l),
                InstrV::ISar(rax(), Val::Imm(1)),
                InstrV::IMul(rax(), r),
            ],
            c,
        ),
        BinOp::Less => (cmp + bool_result_spec(InstrV::IJl(Seq::empty()), c), c + 2),
        BinOp::Greater => (cmp + bool_result_spec(InstrV::IJg(Seq::empty()), c), c + 2),
        BinOp::LessEq => (cmp + bool_result_spec(InstrV::IJle(Seq::empty()), c), c + 2),
        BinOp::GreaterEq => (cmp + bool_result_spec(InstrV::IJge(Seq::empty()), c), c + 2),
        BinOp::Equal => (
            seq![
                InstrV::IMov(Val::Reg(Reg::R10), l),
                InstrV::IAnd(Val::Reg(Reg::R10), Val::Imm(BOOL_TAG_MASK)),
                InstrV::IMov(rax(), r),
                InstrV::IAnd(rax(), Val::Imm(BOOL_TAG_MASK)),
                InstrV::ICmp(Val::Reg(Reg::R10), rax()),
                InstrV::IJne(error_label()),
                InstrV::IMov(rax(), l),
                InstrV::ICmp(rax(), r),
            ] + bool_result_spec(InstrV::IJe(Seq::empty()), c),
            c + 2,
        ),
    }
}

/// The code of an expression compiled with stack index `si`, environment
/// `env`, label counter `c` and the end label of the innermost loop `brk`:
/// the instructions and the counter after them, or the error that rejects the
/// expression.
pub open spec fn compile_spec(
    e: ExprV,
    si: int,
    env: Map<Seq<char>, i32>,
    c: int,
    brk: Option<Seq<char>>,
) -> Result<(Seq<InstrV>, int), CompileErrorV>
    decreases e, 1nat,
{
    match e {
        ExprV::Number(n) => Ok((seq![InstrV::IMov(rax(), Val::Imm((2 * n) as i64))], c)),
        ExprV::Bool(b) => Ok(
            (seq![InstrV::IMov(rax(), Val::Imm(if b { TRUE_VAL } else { FALSE_VAL }))], c),
        ),
        ExprV::Input => Ok((seq![InstrV::IMov(rax(), Val::Reg(Reg::RDI))], c)),
        ExprV::Id(name) => if env.contains_key(name) {
            Ok((seq![InstrV::IMov(rax(), stack(env[name]))], c))
        } else {
            Err(CompileErrorV::UnboundVariable(name))
        },
        ExprV::UnOp(op, a) => match compile_spec(*a, si, env, c, brk) {
            Ok((ia, c1)) => Ok((ia + unop_tail(op, c1).0, unop_tail(op, c1).1)),
            Err(x) => Err(x),
        },
        ExprV::BinOp(op, a, b) => match compile_spec(*a, si, env, c, brk) {
            Ok((ia, c1)) => match compile_spec(*b, si + 1, env, c1, brk) {
                Ok((ib, c2)) => {
                    let lo = slot_offset(si);
                    let ro = slot_offset(si + 1);
                    let tail = binop_tail(op, lo, ro, c2);
                    Ok(
                        (
                            ia.push(InstrV::IMov(stack(lo), rax())) + ib.push(
                                InstrV::IMov(stack(ro), rax()),
                            ) + tail.0,
                            tail.1,
                        ),
                    )
                },
                Err(x) => Err(x),
            },
            Err(x) => Err(x),
        },
        ExprV::Let(bs, body) => match let_prefix(bs, bs.len(), si, env, c, brk) {
            Ok((ib, env1, c1)) => match compile_spec(*body, si + bs.len(), env1, c1, brk) {
                Ok((ie, c2)) => Ok((ib + ie, c2)),
                Err(x) => Err(x),
            },
            Err(x) => Err(x),
        },
        ExprV::If(cond, thn, els) => {
            let else_label = label_text("if_else"@, c);
            let end_label = label_text("if_end"@, c + 1);
            match compile_spec(*cond, si, env, c + 2, brk) {
                Ok((ic, c1)) => match compile_spec(*thn, si, env, c1, brk) {
                    Ok((it, c2)) => match compile_spec(*els, si, env, c2, brk) {
                        Ok((ie, c3)) => Ok(
                            (
                                ic + seq![
                                    InstrV::ICmp(rax(), Val::Imm(FALSE_VAL)),
                                    InstrV::IJe(else_label),
                                ] + it + seq![InstrV::IJmp(end_label), InstrV::ILabel(else_label)]
                                    + ie.push(InstrV::ILabel(end_label)),
                                c3,
                            ),
                        ),
                        Err(x) => Err(x),
                    },
                    Err(x) => Err(x),
                },
                Err(x) => Err(x),
            }
        },
        ExprV::Block(es) => block_prefix(es, es.len(), si, env, c, brk),
        ExprV::Loop(body) => {
            let start_label = label_text("loop_start"@, c);
            let end_label = label_text("loop_end"@, c + 1);
            match compile_spec(*body, si, env, c + 2, Some(end_label)) {
                Ok((ib, c1)) => Ok(
                    (
                        seq![InstrV::ILabel(start_label)] + ib + seq![
                            InstrV::IJmp(start_label),
                            InstrV::ILabel(end_label),
                        ],
                        c1,
                    ),
                ),
                Err(x) => Err(x),
            }
        },
        ExprV::Break(a) => match brk {
            Some(target) => match compile_spec(*a, si, env, c, brk) {
                Ok((ia, c1)) => Ok((ia.push(InstrV::IJmp(target)), c1)),
                Err(x) => Err(x),
            },
            None => Err(CompileErrorV::BreakOutsideLoop),
        },
        ExprV::Assign(name, a) => if env.contains_key(name) {
            match compile_spec(*a, si, env, c, brk) {
                Ok((ia, c1)) => Ok((ia.push(InstrV::IMov(stack(env[name]), rax())), c1)),
                Err(x) => Err(x),
            }
        } else {
            Err(CompileErrorV::UnboundVariable(name))
        },
    }
}

/// Whether one of the first `k` bindings binds `name`.
pub open spec fn bound_before(bs: Seq<(Seq<char>, ExprV)>, k: int, name: Seq<char>) -> bool {
    exists|j: int| 0 <= j < k && #[trigger] bs[j].0 == name
}

/// The first `k` bindings of a `let`: their code, the environment and the
/// counter after them, or the error that rejects them.  Binding `j` is
/// stored in stack slot `si + j`.
pub open spec fn let_prefix(
    bs: Seq<(Seq<char>, ExprV)>,
    k: nat,
    si: int,
    env: Map<Seq<char>, i32>,
    c: int,
    brk: Option<Seq<char>>,
) -> Result<(Seq<InstrV>, Map<Seq<char>, i32>, int), CompileErrorV>
    decreases bs, k,
{
    if k == 0 || k > bs.len() {
        Ok((Seq::empty(), env, c))
    } else {
        match let_prefix(bs, (k - 1) as nat, si, env, c, brk) {
            Ok((is, env1, c1)) => {
                let name = bs[k - 1].0;
                if bound_before(bs, k - 1, name) {
                    Err(CompileErrorV::DuplicateBinding)
                } else {
                    let slot = si + k - 1;
                    match compile_spec(bs[k - 1].1, slot, env1, c1, brk) {
                        Ok((ie, c2)) => Ok(
                            (
                                is + ie.push(InstrV::IMov(stack(slot_offset(slot)), rax())),
                                env1.insert(name, slot_offset(slot)),
                                c2,
                            ),
                        ),
                        Err(x) => Err(x),
                    }
                }
            },
            Err(x) => Err(x),
        }
    }
}

/// The first `k` expressions of a block: their code and the counter after
/// them, or the error that rejects them.
pub open spec fn block_prefix(
    es: Seq<ExprV>,
    k: nat,
    si: int,
    env: Map<Seq<char>, i32>,
    c: int,
    brk: Option<Seq<char>>,
) -> Result<(Seq<InstrV>, int), CompileErrorV>
    decreases es, k,
{
    if k == 0 || k > es.len() {
        Ok((Seq::empty(), c))
    } else {
        match block_prefix(es, (k - 1) as nat, si, env, c, brk) {
            Ok((is, c1)) => match compile_spec(es[k - 1], si, env, c1, brk) {
                Ok((ie, c2)) => Ok((is + ie, c2)),
                Err(x) => Err(x),
            },
            Err(x) => Err(x),
        }
    }
}

/// The number of nodes of an expression.
pub open spec fn expr_size(e: ExprV) -> nat
    decreases e, 1nat,
{
    match e {
        ExprV::Number(_) | ExprV::Bool(_) | ExprV::Input | ExprV::Id(_) => 1,
        ExprV::UnOp(_, a) | ExprV::Loop(a) | ExprV::Break(a) | ExprV::Assign(_, a) => 1
            + expr_size(*a),
        ExprV::BinOp(_, a, b) => 1 + expr_size(*a) + expr_size(*b),
        ExprV::Let(bs, body) => 1 + binds_size(bs, bs.len()) + expr_size(*body),
        ExprV::If(c, t, f) => 1 + expr_size(*c) + expr_size(*t) + expr_size(*f),
        ExprV::Block(es) => 1 + exprs_size(es, es.len()),
    }
}

/// The number of nodes of the first `k` bindings.
pub open spec fn binds_size(bs: Seq<(Seq<char>, ExprV)>, k: nat) -> nat
    decreases bs, k,
{
    if k == 0 || k > bs.len() {
        0
    } else {
        binds_size(bs, (k - 1) as nat) + expr_size(bs[k - 1].1)
    }
}

/// The number of nodes of the first `k` expressions.
pub open spec fn exprs_size(es: Seq<ExprV>, k: nat) -> nat
    decreases es, k,
{
    if k == 0 || k > es.len() {
        0
    } else {
        exprs_size(es, (k - 1) as nat) + expr_size(es[k - 1])
    }
}


/// Every expression has at least one node.
pub proof fn lemma_size_pos(e: ExprV)
    ensures
        expr_size(e) >= 1,
{
}

/// The sizes of binding prefixes grow with the prefix, by at least one per
/// binding.
pub proof fn lemma_binds_size_mono(bs: Seq<(Seq<char>, ExprV)>, i: nat, k: nat)
    requires
        i <= k <= bs.len(),
    ensures
        binds_size(bs, i) + (k - i) <= binds_size(bs, k),
    decreases k - i,
{
    if i < k {
        lemma_binds_size_mono(bs, i, (k - 1) as nat);
        lemma_size_pos(bs[k - 1].1);
    }
}

/// The sizes of expression prefixes grow with the prefix, by at least one
/// per expression.
pub proof fn lemma_exprs_size_mono(es: Seq<ExprV>, i: nat, k: nat)
    requires
        i <= k <= es.len(),
    ensures
        exprs_size(es, i) + (k - i) <= exprs_size(es, k),
    decreases k - i,
{
    if i < k {
        lemma_exprs_size_mono(es, i, (k - 1) as nat);
        lemma_size_pos(es[k - 1]);
    }
}

/// Once a prefix of bindings is rejected, every longer prefix is rejected
/// with the same error.
proof fn lemma_let_prefix_err(
    bs: Seq<(Seq<char>, ExprV)>,
    k: nat,
    m: nat,
    si: int,
    env: Map<Seq<char>, i32>,
    c: int,
    brk: Option<Seq<char>>,
)
    requires
        0 < k <= m <= bs.len(),
        let_prefix(bs, k, si, env, c, brk) is Err,
    ensures
        let_prefix(bs, m, si, env, c, brk) == let_prefix(bs, k, si, env, c, brk),
    decreases m - k,
{
    if k < m {
        lemma_let_prefix_err(bs, k, (m - 1) as nat, si, env, c, brk);
    }
}

/// Once a prefix of a block is rejected, every longer prefix is rejected with
/// the same error.
proof fn lemma_block_prefix_err(
    es: Seq<ExprV>,
    k: nat,
    m: nat,
    si: int,
    env: Map<Seq<char>, i32>,
    c: int,
    brk: Option<Seq<char>>,
)
    requires
        0 < k <= m <= es.len(),
        block_prefix(es, k, si, env, c, brk) is Err,
    ensures
        block_prefix(es, m, si, env, c, brk) == block_prefix(es, k, si, env, c, brk),
    decreases m - k,
{
    if k < m {
        lemma_block_prefix_err(es, k, (m - 1) as nat, si, env, c, brk);
    }
}

/// The model of an optional loop end label.
pub open spec fn opt_str_view(b: Option<&str>) -> Option<Seq<char>> {
    match b {
        Some(s) => Some(s@),
        None => None,
    }
}

/// Whether `r`, with the counter ending at `c_final`, is the outcome `s`
/// that `compile_spec` gives.
pub open spec fn compiled_as(
    r: Result<Vec<Instr>, CompileError>,
    c_final: int,
    s: Result<(Seq<InstrV>, int), CompileErrorV>,
) -> bool {
    match s {
        Ok((is, c2)) => r is Ok && instrs_view(r->Ok_0@) == is && c_final == c2,
        Err(x) => r is Err && r->Err_0@ == x,
    }
}

fn one(i: Instr) -> (v: Vec<Instr>)
    ensures
        instrs_view(v@) == seq![i@],
{
    let mut v = Vec::new();
    v.push(i);
    assert(instrs_view(v@) =~= seq![i@]);
    v
}

/// A jump to the handler of invalid arguments when the last test failed.
pub fn invalid_arg_instrs() -> (v: Vec<Instr>)
    ensures
        instrs_view(v@) == seq![InstrV::IJne(error_label())],
{
    one(Instr::IJne("throw_error_invalid".to_owned()))
}

/// A type check that `v` holds a number.
pub fn check_number(v: Val) -> (r: Vec<Instr>)
    ensures
        instrs_view(r@) == check_number_spec(v),
{
    let mut instrs = one(Instr::ITest(v, Val::Imm(NUM_TAG_MASK)));
    let mut j = invalid_arg_instrs();
    instrs.append(&mut j);
    assert(instrs_view(instrs@) =~= check_number_spec(v));
    instrs
}

/// The conditional jump `instr` retargeted at `label`.
pub fn jump_instr_with_label(instr: Instr, label: String) -> (r: Instr)
    requires
        is_cond_jump(instr@),
    ensures
        r@ == with_label(instr@, label@),
{
    match instr {
        Instr::IJg(_) => Instr::IJg(label),
        Instr::IJge(_) => Instr::IJge(label),
        Instr::IJl(_) => Instr::IJl(label),
        Instr::IJle(_) => Instr::IJle(label),
        Instr::IJe(_) => Instr::IJe(label),
        _ => Instr::IJne(label),
    }
}

/// Code that materialises the outcome of the conditional jump `jump_instr`
/// as a boolean in `rax`.
pub fn compile_bool_result(jump_instr: Instr, label_counter: &mut i32) -> (r: Vec<Instr>)
    requires
        is_cond_jump(jump_instr@),
        *old(label_counter) + 2 <= i32::MAX,
    ensures
        instrs_view(r@) == bool_result_spec(jump_instr@, *old(label_counter) as int),
        *final(label_counter) == *old(label_counter) + 2,
{
    let true_label = new_label(label_counter, "bool_true");
    let end_label = new_label(label_counter, "bool_end");
    let mut v = Vec::new();
    v.push(jump_instr_with_label(jump_instr, true_label.clone()));
    v.push(Instr::IMov(Val::Reg(Reg::RAX), Val::Imm(FALSE_VAL)));
    v.push(Instr::IJmp(end_label.clone()));
    v.push(Instr::ILabel(true_label));
    v.push(Instr::IMov(Val::Reg(Reg::RAX), Val::Imm(TRUE_VAL)));
    v.push(Instr::ILabel(end_label));
    assert(instrs_view(v@) =~= bool_result_spec(jump_instr@, *old(label_counter) as int));
    v
}

fn compile_unop(op: UnOp, label_counter: &mut i32) -> (r: Vec<Instr>)
    requires
        *old(label_counter) + 2 <= i32::MAX,
    ensures
        instrs_view(r@) == unop_tail(op, *old(label_counter) as int).0,
        *final(label_counter) == unop_tail(op, *old(label_counter) as int).1,
{
    let ghost c = *label_counter as int;
    match op {
        UnOp::Add1 => {
            let mut instrs = check_number(Val::Reg(Reg::RAX));
            instrs.push(Instr::IAdd(Val::Reg(Reg::RAX), Val::Imm(2)));
            instrs
        },
        UnOp::Sub1 => {
            let mut instrs = check_number(Val::Reg(Reg::RAX));
            instrs.push(Instr::ISub(Val::Reg(Reg::RAX), Val::Imm(2)));
            instrs
        },
        UnOp::Negate => {
            let mut instrs = check_number(Val::Reg(Reg::RAX));
            instrs.push(Instr::IMul(Val::Reg(Reg::RAX), Val::Imm(-1)));
            instrs
        },
        UnOp::IsNum => {
            let false_label = new_label(label_counter, "isnum_false");
            let end_label = new_label(label_counter, "isnum_end");
            let mut instrs = Vec::new();
            instrs.push(Instr::ITest(Val::Reg(Reg::RAX), Val::Imm(NUM_TAG_MASK)));
            instrs.push(Instr::IJne(false_label.clone()));
            instrs.push(Instr::IMov(Val::Reg(Reg::RAX), Val::Imm(TRUE_VAL)));
            instrs.push(Instr::IJmp(end_label.clone()));
            instrs.push(Instr::ILabel(false_label));
            instrs.push(Instr::IMov(Val::Reg(Reg::RAX), Val::Imm(FALSE_VAL)));
            instrs.push(Instr::ILabel(end_label));
            assert(instrs_view(instrs@) =~= unop_tail(op, c).0);
            instrs
        },
        UnOp::IsBool => {
            let true_label = new_label(label_counter, "isbool_true");
            let end_label = new_label(label_counter, "isbool_end");
            let mut instrs = Vec::new();
            instrs.push(Instr::ITest(Val::Reg(Reg::RAX), Val::Imm(BOOL_TAG_MASK)));
            instrs.push(Instr::IJne(true_label.clone()));
            instrs.push(Instr::IMov(Val::Reg(Reg::RAX), Val::Imm(FALSE_VAL)));
            instrs.push(Instr::IJmp(end_label.clone()));
            instrs.push(Instr::ILabel(true_label));
            instrs.push(Instr::IMov(Val::Reg(Reg::RAX), Val::Imm(TRUE_VAL)));
            instrs.push(Instr::ILabel(end_label));
            assert(instrs_view(instrs@) =~= unop_tail(op, c).0);
            instrs
        },
    }
}

fn compile_binop(op: BinOp, left_offset: i32, right_offset: i32, label_counter: &mut i32) -> (r:
    Vec<Instr>)
    requires
        *old(label_counter) + 2 <= i32::MAX,
    ensures
        instrs_view(r@) == binop_tail(op, left_offset, right_offset, *old(label_counter) as int).0,
        *final(label_counter) == binop_tail(
            op,
            left_offset,
            right_offset,
            *old(label_counter) as int,
        ).1,
{
    let ghost c = *label_counter as int;
    let l = Val::RegOffset(Reg::RSP, left_offset);
    let r = Val::RegOffset(Reg::RSP, right_offset);
    if let BinOp::Equal = op {
        let mut instrs = Vec::new();
        instrs.push(Instr::IMov(Val::Reg(Reg::R10), l));
        instrs.push(Instr::IAnd(Val::Reg(Reg::R10), Val::Imm(BOOL_TAG_MASK)));
        instrs.push(Instr::IMov(Val::Reg(Reg::RAX), r));
        instrs.push(Instr::IAnd(Val::Reg(Reg::RAX), Val::Imm(BOOL_TAG_MASK)));
        instrs.push(Instr::ICmp(Val::Reg(Reg::R10), Val::Reg(Reg::RAX)));
        instrs.push(Instr::IJne("throw_error_invalid".to_owned()));
        instrs.push(Instr::IMov(Val::Reg(Reg::RAX), l));
        instrs.push(Instr::ICmp(Val::Reg(Reg::RAX), r));
        let mut b = compile_bool_result(Instr::IJe(String::new()), label_counter);
        instrs.append(&mut b);
        assert(instrs_view(instrs@) =~= binop_tail(op, left_offset, right_offset, c).0);
        return instrs;
    }
    let mut instrs = check_number(l);
    let mut cr = check_number(r);
    instrs.append(&mut cr);
    instrs.push(Instr::IMov(Val::Reg(Reg::RAX), l));
    match op {
        BinOp::Plus => {
            instrs.push(Instr::IAdd(Val::Reg(Reg::RAX), r));
        },
        BinOp::Minus => {
            instrs.push(Instr::ISub(Val::Reg(Reg::RAX), r));
        },
        BinOp::Times => {
            instrs.push(Instr::ISar(Val::Reg(Reg::RAX), Val::Imm(1)));
            instrs.push(Instr::IMul(Val::Reg(Reg::RAX), r));
        },
        _ => {
            instrs.push(Instr::ICmp(Val::Reg(Reg::RAX), r));
            let jump = match op {
                BinOp::Less => Instr::IJl(String::new()),
                BinOp::Greater => Instr::IJg(String::new()),
                BinOp::LessEq => Instr::IJle(String::new()),
                _ => Instr::IJge(String::new()),
            };
            let mut b = compile_bool_result(jump, label_counter);
            instrs.append(&mut b);
        },
    }
    assert(instrs_view(instrs@) =~= binop_tail(op, left_offset, right_offset, c).0);
    instrs
}

/// Compiles an expression with stack index `si`, environment `env`, label
/// counter `label_counter` and the end label of the innermost loop
/// `break_target`: the outcome is exactly what `compile_spec` gives.
pub fn compile_to_instrs(
    e: &Expr,
    si: i32,
    env: &Env,
    label_counter: &mut i32,
    break_target: Option<&str>,
) -> (r: Result<Vec<Instr>, CompileError>)
    requires
        0 <= si,
        si + expr_size(e@) < SLOT_LIMIT,
        *old(label_counter) + 2 * expr_size(e@) <= i32::MAX,
    ensures
        compiled_as(
            r,
            *final(label_counter) as int,
            compile_spec(
                e@,
                si as int,
                env_contents(*env),
                *old(label_counter) as int,
                opt_str_view(break_target),
            ),
        ),
        r is Ok ==> *old(label_counter) <= *final(label_counter) <= *old(label_counter) + 2
            * expr_size(e@),
    decreases e, 1nat,
{
    let ghost c = *label_counter as int;
    let ghost envc = env_contents(*env);
    let ghost brk = opt_str_view(break_target);
    match e {
        Expr::Number(n) => Ok(one(Instr::IMov(Val::Reg(Reg::RAX), Val::Imm(encode_num(*n))))),
        Expr::Bool(b) => {
            if *b {
                Ok(one(Instr::IMov(Val::Reg(Reg::RAX), Val::Imm(TRUE_VAL))))
            } else {
                Ok(one(Instr::IMov(Val::Reg(Reg::RAX), Val::Imm(FALSE_VAL))))
            }
        },
        Expr::Input => Ok(one(Instr::IMov(Val::Reg(Reg::RAX), Val::Reg(Reg::RDI)))),
        Expr::Id(name) => match env_get(env, name.as_str()) {
            Some(offset) => Ok(one(Instr::IMov(Val::Reg(Reg::RAX), Val::RegOffset(Reg::RSP, offset)))),
            None => Err(CompileError::UnboundVariable(name.clone())),
        },
        Expr::UnOp(op, a) => {
            let mut instrs = compile_to_instrs(a, si, env, label_counter, break_target)?;
            let mut tail = compile_unop(*op, label_counter);
            instrs.append(&mut tail);
            Ok(instrs)
        },
        Expr::BinOp(op, a, b) => {
            let left_offset = -8 * si;
            let right_offset = -8 * (si + 1);
            let mut instrs = compile_to_instrs(a, si, env, label_counter, break_target)?;
            let ghost ia = instrs_view(instrs@);
            let ghost c1 = *label_counter as int;
            instrs.push(Instr::IMov(Val::RegOffset(Reg::RSP, left_offset), Val::Reg(Reg::RAX)));
            let mut ib = compile_to_instrs(b, si + 1, env, label_counter, break_target)?;
            let ghost ibv = instrs_view(ib@);
            let ghost c2 = *label_counter as int;
            instrs.append(&mut ib);
            instrs.push(Instr::IMov(Val::RegOffset(Reg::RSP, right_offset), Val::Reg(Reg::RAX)));
            let mut tail = compile_binop(*op, left_offset, right_offset, label_counter);
            instrs.append(&mut tail);
            assert(instrs_view(instrs@) =~= ia.push(
                InstrV::IMov(stack(slot_offset(si as int)), rax()),
            ) + ibv.push(InstrV::IMov(stack(slot_offset(si + 1)), rax())) + binop_tail(
                *op,
                left_offset,
                right_offset,
                c2,
            ).0);
            Ok(instrs)
        },
        Expr::Let(_, _) => compile_let(e, si, env, label_counter, break_target),
        Expr::If(cond, thn, els) => {
            let else_label = new_label(label_counter, "if_else");
            let end_label = new_label(label_counter, "if_end");
            let mut instrs = compile_to_instrs(cond, si, env, label_counter, break_target)?;
            let ghost icv = instrs_view(instrs@);
            instrs.push(Instr::ICmp(Val::Reg(Reg::RAX), Val::Imm(FALSE_VAL)));
            instrs.push(Instr::IJe(else_label.clone()));
            let mut it = compile_to_instrs(thn, si, env, label_counter, break_target)?;
            let ghost itv = instrs_view(it@);
            instrs.append(&mut it);
            instrs.push(Instr::IJmp(end_label.clone()));
            instrs.push(Instr::ILabel(else_label));
            let mut ie = compile_to_instrs(els, si, env, label_counter, break_target)?;
            let ghost iev = instrs_view(ie@);
            instrs.append(&mut ie);
            instrs.push(Instr::ILabel(end_label));
            assert(instrs_view(instrs@) =~= icv + seq![
                InstrV::ICmp(rax(), Val::Imm(FALSE_VAL)),
                InstrV::IJe(label_text("if_else"@, c)),
            ] + itv + seq![
                InstrV::IJmp(label_text("if_end"@, c + 1)),
                InstrV::ILabel(label_text("if_else"@, c)),
            ] + iev.push(InstrV::ILabel(label_text("if_end"@, c + 1))));
            Ok(instrs)
        },
        Expr::Block(_) => compile_block(e, si, env, label_counter, break_target),
        Expr::Loop(body) => {
            let start_label = new_label(label_counter, "loop_start");
            let end_label = new_label(label_counter, "loop_end");
            let mut instrs = one(Instr::ILabel(start_label.clone()));
            let mut ib = compile_to_instrs(
                body,
                si,
                env,
                label_counter,
                Some(end_label.as_str()),
            )?;
            let ghost ibv = instrs_view(ib@);
            instrs.append(&mut ib);
            instrs.push(Instr::IJmp(start_label));
            instrs.push(Instr::ILabel(end_label));
            assert(instrs_view(instrs@) =~= seq![InstrV::ILabel(label_text("loop_start"@, c))] + ibv
                + seq![
                InstrV::IJmp(label_text("loop_start"@, c)),
                InstrV::ILabel(label_text("loop_end"@, c + 1)),
            ]);
            Ok(instrs)
        },
        Expr::Break(a) => match break_target {
            Some(target) => {
                let mut instrs = compile_to_instrs(a, si, env, label_counter, break_target)?;
                instrs.push(Instr::IJmp(target.to_owned()));
                Ok(instrs)
            },
            None => Err(CompileError::BreakOutsideLoop),
        },
        Expr::Assign(name, a) => {
            let offset = match env_get(env, name.as_str()) {
                Some(offset) => offset,
                None => {
                    return Err(CompileError::UnboundVariable(name.clone()));
                },
            };
            let mut instrs = compile_to_instrs(a, si, env, label_counter, break_target)?;
            instrs.push(Instr::IMov(Val::RegOffset(Reg::RSP, offset), Val::Reg(Reg::RAX)));
            Ok(instrs)
        },
    }
}

/// Compiles a `let` expression: each binding in turn into its own stack slot,
/// then the body with the bindings in scope.
#[verifier::loop_isolation(false)]
fn compile_let(
    e: &Expr,
    si: i32,
    env: &Env,
    label_counter: &mut i32,
    break_target: Option<&str>,
) -> (r: Result<Vec<Instr>, CompileError>)
    requires
        e is Let,
        0 <= si,
        si + expr_size(e@) < SLOT_LIMIT,
        *old(label_counter) + 2 * expr_size(e@) <= i32::MAX,
    ensures
        compiled_as(
            r,
            *final(label_counter) as int,
            compile_spec(
                e@,
                si as int,
                env_contents(*env),
                *old(label_counter) as int,
                opt_str_view(break_target),
            ),
        ),
        r is Ok ==> *old(label_counter) <= *final(label_counter) <= *old(label_counter) + 2
            * expr_size(e@),
    decreases e, 0nat,
{
    let ghost c0 = *label_counter as int;
    let ghost envc = env_contents(*env);
    let ghost brk = opt_str_view(break_target);
    if let Expr::Let(bindings, body) = e {
        let ghost bsv = binds_view(bindings@);
        let n = bindings.len();
        let mut seen = StringHashSet::new();
        let mut instrs: Vec<Instr> = Vec::new();
        let mut next_si = si;
        let mut new_env = env_clone(env);
        let mut i: usize = 0;
        proof {
            lemma_binds_size_mono(bsv, 0, n as nat);
            assert(seen@ =~= Set::new(|x: Seq<char>| bound_before(bsv, 0, x)));
            assert(instrs_view(instrs@) =~= Seq::<InstrV>::empty());
            assert(e@ == ExprV::Let(bsv, Box::new(expr_view(**body))));
        }
        while i < n
            invariant
                0 <= i <= n,
                n == bindings@.len(),
                bsv.len() == n,
                next_si == si + i,
                let_prefix(bsv, i as nat, si as int, envc, c0, brk) == Ok::<
                    (Seq<InstrV>, Map<Seq<char>, i32>, int),
                    CompileErrorV,
                >((instrs_view(instrs@), env_contents(new_env), *label_counter as int)),
                seen@ == Set::new(|x: Seq<char>| bound_before(bsv, i as int, x)),
                c0 <= *label_counter <= c0 + 2 * binds_size(bsv, i as nat),
            decreases n - i,
        {
            let name = &bindings[i].0;
            let expr = &bindings[i].1;
            proof {
                lemma_binds_size_mono(bsv, (i + 1) as nat, n as nat);
                lemma_binds_size_mono(bsv, 0, i as nat);
                assert(bsv[i as int] == (name@, expr@));
                assert(binds_size(bsv, (i + 1) as nat) == binds_size(bsv, i as nat) + expr_size(
                    expr@,
                ));
            }
            if !seen.insert(name.clone()) {
                proof {
                    assert(bound_before(bsv, i as int, name@));
                    lemma_let_prefix_err(bsv, (i + 1) as nat, n as nat, si as int, envc, c0, brk);
                }
                return Err(CompileError::DuplicateBinding);
            }
            let ghost seen_before = seen@;
            let stack_offset = -8 * next_si;
            let ghost before = instrs_view(instrs@);
            let ghost env_before = env_contents(new_env);
            let ie = compile_to_instrs(expr, next_si, &new_env, label_counter, break_target);
            match ie {
                Ok(mut ie) => {
                    let ghost iev = instrs_view(ie@);
                    instrs.append(&mut ie);
                    instrs.push(Instr::IMov(Val::RegOffset(Reg::RSP, stack_offset), Val::Reg(Reg::RAX)));
                    env_insert(&mut new_env, name.clone(), stack_offset);
                    assert(instrs_view(instrs@) =~= before + iev.push(
                        InstrV::IMov(stack(slot_offset(si + i)), rax()),
                    ));
                },
                Err(x) => {
                    proof {
                        lemma_let_prefix_err(bsv, (i + 1) as nat, n as nat, si as int, envc, c0, brk);
                    }
                    return Err(x);
                },
            }
            next_si += 1;
            i += 1;
            proof {
                assert(seen@ =~= Set::new(|x: Seq<char>| bound_before(bsv, i as int, x))) by {
                    assert forall|x: Seq<char>| seen@.contains(x) implies bound_before(
                        bsv,
                        i as int,
                        x,
                    ) by {
                        if x == name@ {
                            assert(bsv[i - 1].0 == x);
                        } else {
                            assert(bound_before(bsv, i - 1, x));
                            let j = choose|j: int| 0 <= j < i - 1 && #[trigger] bsv[j].0 == x;
                            assert(bsv[j].0 == x);
                        }
                    }
                    assert forall|x: Seq<char>| bound_before(bsv, i as int, x) implies seen@.contains(
                        x,
                    ) by {
                        let j = choose|j: int| 0 <= j < i && #[trigger] bsv[j].0 == x;
                        if j < i - 1 {
                            assert(bound_before(bsv, i - 1, x));
                        }
                    }
                }
            }
        }
        let mut ib = compile_to_instrs(body, next_si, &new_env, label_counter, break_target)?;
        instrs.append(&mut ib);
        Ok(instrs)
    } else {
        Ok(Vec::new())
    }
}

/// Compiles a block: each expression in turn.
#[verifier::loop_isolation(false)]
fn compile_block(
    e: &Expr,
    si: i32,
    env: &Env,
    label_counter: &mut i32,
    break_target: Option<&str>,
) -> (r: Result<Vec<Instr>, CompileError>)
    requires
        e is Block,
        0 <= si,
        si + expr_size(e@) < SLOT_LIMIT,
        *old(label_counter) + 2 * expr_size(e@) <= i32::MAX,
    ensures
        compiled_as(
            r,
            *final(label_counter) as int,
            compile_spec(
                e@,
                si as int,
                env_contents(*env),
                *old(label_counter) as int,
                opt_str_view(break_target),
            ),
        ),
        r is Ok ==> *old(label_counter) <= *final(label_counter) <= *old(label_counter) + 2
            * expr_size(e@),
    decreases e, 0nat,
{
    let ghost c0 = *label_counter as int;
    let ghost envc = env_contents(*env);
    let ghost brk = opt_str_view(break_target);
    if let Expr::Block(exprs) = e {
        let ghost esv = exprs_view(exprs@);
        let n = exprs.len();
        let mut instrs: Vec<Instr> = Vec::new();
        let mut i: usize = 0;
        proof {
            lemma_exprs_size_mono(esv, 0, n as nat);
            assert(instrs_view(instrs@) =~= Seq::<InstrV>::empty());
            assert(e@ == ExprV::Block(esv));
        }
        while i < n
            invariant
                0 <= i <= n,
                n == exprs@.len(),
                esv.len() == n,
                block_prefix(esv, i as nat, si as int, envc, c0, brk) == Ok::<
                    (Seq<InstrV>, int),
                    CompileErrorV,
                >((instrs_view(instrs@), *label_counter as int)),
                c0 <= *label_counter <= c0 + 2 * exprs_size(esv, i as nat),
            decreases n - i,
        {
            proof {
                lemma_exprs_size_mono(esv, (i + 1) as nat, n as nat);
                assert(esv[i as int] == exprs[i as int]@);
                assert(exprs_size(esv, (i + 1) as nat) == exprs_size(esv, i as nat) + expr_size(
                    exprs[i as int]@,
                ));
            }
            let ghost before = instrs_view(instrs@);
            let ie = compile_to_instrs(&exprs[i], si, env, label_counter, break_target);
            match ie {
                Ok(mut ie) => {
                    instrs.append(&mut ie);
                },
                Err(x) => {
                    proof {
                        lemma_block_prefix_err(esv, (i + 1) as nat, n as nat, si as int, envc, c0, brk);
                    }
                    return Err(x);
                },
            }
            i += 1;
        }
        Ok(instrs)
    } else {
        Ok(Vec::new())
    }
}


/// The instructions that end every program: the jump past the error handler,
/// and the handler that reports an invalid argument.
pub open spec fn epilogue() -> Seq<InstrV> {
    seq![
        InstrV::IJmp("done"@),
        InstrV::ILabel("throw_error_invalid"@),
        InstrV::IMov(Val::Reg(Reg::RDI), Val::Imm(1)),
        InstrV::ISub(Val::Reg(Reg::RSP), Val::Imm(8)),
        InstrV::ICall("snek_error"@),
        InstrV::ILabel("done"@),
    ]
}

/// The texts of a sequence of instructions.
pub open spec fn instr_texts(is: Seq<InstrV>) -> Seq<Seq<char>> {
    is.map_values(|i: InstrV| instr_text(i))
}

/// The assembly text of a whole expression: its code compiled at stack index
/// 2 in the empty environment with the counter at 0, then the epilogue, one
/// instruction per line.
pub open spec fn compile_text_spec(e: ExprV) -> Result<Seq<char>, CompileErrorV> {
    match compile_spec(e, 2, Map::empty(), 0, None) {
        Ok((is, _)) => Ok(join(instr_texts(is + epilogue()), "\n  "@)),
        Err(x) => Err(x),
    }
}

/// Whether an expression is small enough that its stack offsets and label
/// numbers fit in 32 bits.
pub open spec fn within_limits(e: ExprV) -> bool {
    &&& 2 + expr_size(e) < SLOT_LIMIT
    &&& 2 * expr_size(e) <= i32::MAX
}

/// Compiles a whole expression to the text of its instructions, one per line.
pub fn compile(e: &Expr) -> (r: Result<String, CompileError>)
    requires
        within_limits(e@),
    ensures
        match compile_text_spec(e@) {
            Ok(t) => r is Ok && r->Ok_0@ == t,
            Err(x) => r is Err && r->Err_0@ == x,
        },
{
    let env = env_new();
    let mut label_counter: i32 = 0;
    proof {
        assert(env_contents(env) =~= Map::<Seq<char>, i32>::empty());
    }
    let mut instrs = compile_to_instrs(e, 2, &env, &mut label_counter, None)?;
    let ghost body = instrs_view(instrs@);
    instrs.push(Instr::IJmp("done".to_owned()));
    instrs.push(Instr::ILabel("throw_error_invalid".to_owned()));
    instrs.push(Instr::IMov(Val::Reg(Reg::RDI), Val::Imm(1)));
    instrs.push(Instr::ISub(Val::Reg(Reg::RSP), Val::Imm(8)));
    instrs.push(Instr::ICall("snek_error".to_owned()));
    instrs.push(Instr::ILabel("done".to_owned()));
    assert(instrs_view(instrs@) =~= body + epilogue());
    let ghost texts = instr_texts(instrs_view(instrs@));
    let mut out = String::new();
    let mut i: usize = 0;
    while i < instrs.len()
        invariant
            0 <= i <= instrs@.len(),
            texts == instr_texts(instrs_view(instrs@)),
            texts.len() == instrs@.len(),
            out@ == join(texts.take(i as int), "\n  "@),
        decreases instrs.len() - i,
    {
        let t = instr_to_str(&instrs[i]);
        if i > 0 {
            out.append("\n  ");
        }
        out.append(t.as_str());
        proof {
            assert(texts.take(i + 1).drop_last() =~= texts.take(i as int));
            assert(texts[i as int] == instr_text(instrs@[i as int]@));
        }
        i += 1;
    }
    assert(texts.take(texts.len() as int) =~= texts);
    Ok(out)
}

/// The whole assembly file around the text of a program's instructions.
pub open spec fn program_text_spec(body: Seq<char>) -> Seq<char> {
    "section .text\nextern snek_error\nglobal our_code_starts_here\nour_code_starts_here:\n  "@
        + body + "\n  ret\n"@
}

/// The whole assembly file around the text of a program's instructions.
pub fn program_text(body: &str) -> (r: String)
    ensures
        r@ == program_text_spec(body@),
{
    let mut r = "section .text\nextern snek_error\nglobal our_code_starts_here\nour_code_starts_here:\n  ".to_owned();
    r.append(body);
    r.append("\n  ret\n");
    r
}

/// The number of nodes of an expression, or `cap` if it has more.
pub fn expr_size_capped(e: &Expr, cap: u64) -> (r: u64)
    ensures
        r == if expr_size(e@) < cap { expr_size(e@) } else { cap as nat },
    decreases e,
{
    if cap == 0 {
        proof { lemma_size_pos(e@); }
        return 0;
    }
    match e {
        Expr::Number(_) | Expr::Bool(_) | Expr::Input | Expr::Id(_) => 1,
        Expr::UnOp(_, a) | Expr::Loop(a) | Expr::Break(a) | Expr::Assign(_, a) => {
            let k = expr_size_capped(a, cap - 1);
            k + 1
        },
        Expr::BinOp(_, a, b) => {
            let ka = expr_size_capped(a, cap - 1);
            let kb = expr_size_capped(b, cap - 1 - ka);
            1 + ka + kb
        },
        Expr::If(c, t, f) => {
            let kc = expr_size_capped(c, cap - 1);
            let kt = expr_size_capped(t, cap - 1 - kc);
            let kf = expr_size_capped(f, cap - 1 - kc - kt);
            1 + kc + kt + kf
        },
        Expr::Let(bs, body) => {
            let ghost bsv = binds_view(bs@);
            let mut total: u64 = 1;
            let mut i: usize = 0;
            while i < bs.len()
                invariant
                    0 <= i <= bs@.len(),
                    bsv == binds_view(bs@),
                    1 <= total <= cap,
                    total == if 1 + binds_size(bsv, i as nat) < cap {
                        1 + binds_size(bsv, i as nat)
                    } else {
                        cap as nat
                    },
                    e@ == ExprV::Let(bsv, Box::new(expr_view(**body))),
                    decreases_to!(*e => *bs),
                decreases bs.len() - i,
            {
                assert(decreases_to!(*e => bs@[i as int].1)) by {
                    assert(decreases_to!(*bs => bs@));
                    assert(decreases_to!(bs@ => bs@[i as int]));
                    assert(decreases_to!(bs@[i as int] => bs@[i as int].1));
                }
                let k = expr_size_capped(&bs[i].1, cap - total);
                total = total + k;
                proof {
                    assert(bsv[i as int] == (bs@[i as int].0@, bs@[i as int].1@));
                    assert(binds_size(bsv, (i + 1) as nat) == binds_size(bsv, i as nat) + expr_size(
                        bs@[i as int].1@,
                    ));
                }
                i += 1;
            }
            let k = expr_size_capped(body, cap - total);
            total + k
        },
        Expr::Block(es) => {
            let ghost esv = exprs_view(es@);
            let mut total: u64 = 1;
            let mut i: usize = 0;
            while i < es.len()
                invariant
                    0 <= i <= es@.len(),
                    esv == exprs_view(es@),
                    1 <= total <= cap,
                    total == if 1 + exprs_size(esv, i as nat) < cap {
                        1 + exprs_size(esv, i as nat)
                    } else {
                        cap as nat
                    },
                    e@ == ExprV::Block(esv),
                    decreases_to!(*e => *es),
                decreases es.len() - i,
            {
                assert(decreases_to!(*e => es@[i as int])) by {
                    assert(decreases_to!(*es => es@));
                    assert(decreases_to!(es@ => es@[i as int]));
                }
                let k = expr_size_capped(&es[i], cap - total);
                total = total + k;
                proof {
                    assert(esv[i as int] == es@[i as int]@);
                    assert(exprs_size(esv, (i + 1) as nat) == exprs_size(esv, i as nat) + expr_size(
                        es@[i as int]@,
                    ));
                }
                i += 1;
            }
            total
        },
    }
}

/// Whether an expression is small enough to compile: `within_limits`.
pub fn fits_limits(e: &Expr) -> (r: bool)
    ensures
        r == within_limits(e@),
{
    let k = expr_size_capped(e, 0x1000_0000);
    k < 0x0fff_fffe
}

} // verus!
