//! The stack operands of the generated code: every one of them is a variable
//! of the environment or a slot of the expression being compiled, below the
//! stack pointer.
use vstd::prelude::*;
use crate::cobra::syntax::ExprV;
use crate::cobra::machine::{Reg, Val, InstrV};
use crate::cobra::compile::{compile_spec, let_prefix, block_prefix, unop_tail, binop_tail,
    expr_size, binds_size, exprs_size, slot_offset, stack, rax, epilogue, SLOT_LIMIT,
    lemma_size_pos, lemma_binds_size_mono, lemma_exprs_size_mono};

verus! {

/// The offset from the stack pointer that an operand addresses, if it
/// addresses the stack.
pub open spec fn stack_operand(v: Val) -> Option<i32> {
    match v {
        Val::RegOffset(Reg::RSP, off) => Some(off),
        _ => None,
    }
}

/// The operands of an instruction.
pub open spec fn operands(i: InstrV) -> Seq<Val> {
    match i {
        InstrV::IMov(a, b) | InstrV::IAdd(a, b) | InstrV::ISub(a, b) | InstrV::IMul(a, b)
        | InstrV::ISar(a, b) | InstrV::IAnd(a, b) | InstrV::ITest(a, b) | InstrV::ICmp(a, b) => seq![
            a,
            b,
        ],
        _ => Seq::empty(),
    }
}

/// Whether `off` is the offset of a slot among `lo ..= hi`.
pub open spec fn in_slots(off: int, lo: int, hi: int) -> bool {
    &&& lo * 8 <= -off <= hi * 8
    &&& (-off) % 8 == 0
}

/// Whether `off` is the offset of a variable of `env` or of a slot among
/// `lo ..= hi`.
pub open spec fn ok_offset(off: int, env: Map<Seq<char>, i32>, lo: int, hi: int) -> bool {
    ||| exists|x: Seq<char>| #[trigger] env.contains_key(x) && env[x] == off
    ||| in_slots(off, lo, hi)
}

/// Whether every stack operand of `is` is a variable of `env` or a slot
/// among `lo ..= hi`.
pub open spec fn stack_refs_within(is: Seq<InstrV>, env: Map<Seq<char>, i32>, lo: int, hi: int) -> bool {
    forall|i: int, j: int|
        0 <= i < is.len() && 0 <= j < operands(is[i]).len() && #[trigger] stack_operand(
            operands(is[i])[j],
        ) is Some ==> ok_offset(stack_operand(operands(is[i])[j])->0 as int, env, lo, hi)
}

/// Whether every variable of `env1` is a variable of `env` or a slot among
/// `lo ..= hi`.
pub open spec fn env_within(
    env1: Map<Seq<char>, i32>,
    env: Map<Seq<char>, i32>,
    lo: int,
    hi: int,
) -> bool {
    forall|x: Seq<char>| #[trigger] env1.contains_key(x) ==> ok_offset(env1[x] as int, env, lo, hi)
}

proof fn lemma_refs_concat(a: Seq<InstrV>, b: Seq<InstrV>, env: Map<Seq<char>, i32>, lo: int, hi: int)
    requires
        stack_refs_within(a, env, lo, hi),
        stack_refs_within(b, env, lo, hi),
    ensures
        stack_refs_within(a + b, env, lo, hi),
{
    assert forall|i: int, j: int|
        0 <= i < (a + b).len() && 0 <= j < operands((a + b)[i]).len() && #[trigger] stack_operand(
            operands((a + b)[i])[j],
        ) is Some implies ok_offset(
        stack_operand(operands((a + b)[i])[j])->0 as int,
        env,
        lo,
        hi,
    ) by {
        if i < a.len() {
            assert((a + b)[i] == a[i]);
            assert(stack_operand(operands(a[i])[j]) is Some);
        } else {
            assert((a + b)[i] == b[i - a.len()]);
            assert(stack_operand(operands(b[i - a.len()])[j]) is Some);
        }
    }
}

proof fn lemma_refs_weaken(
    is: Seq<InstrV>,
    env1: Map<Seq<char>, i32>,
    lo1: int,
    hi1: int,
    env: Map<Seq<char>, i32>,
    lo: int,
    hi: int,
)
    requires
        stack_refs_within(is, env1, lo1, hi1),
        env_within(env1, env, lo, hi),
        lo <= lo1,
        hi1 <= hi,
    ensures
        stack_refs_within(is, env, lo, hi),
{
    assert forall|i: int, j: int|
        0 <= i < is.len() && 0 <= j < operands(is[i]).len() && #[trigger] stack_operand(
            operands(is[i])[j],
        ) is Some implies ok_offset(stack_operand(operands(is[i])[j])->0 as int, env, lo, hi) by {
        let off = stack_operand(operands(is[i])[j])->0 as int;
        if !in_slots(off, lo1, hi1) {
            let x = choose|x: Seq<char>| #[trigger] env1.contains_key(x) && env1[x] == off;
            assert(env1.contains_key(x));
        }
    }
}

/// Code whose operands address no stack slot.
proof fn lemma_refs_none(is: Seq<InstrV>, env: Map<Seq<char>, i32>, lo: int, hi: int)
    requires
        forall|i: int, j: int|
            0 <= i < is.len() && 0 <= j < operands(is[i]).len() ==> #[trigger] stack_operand(
                operands(is[i])[j],
            ) is None,
    ensures
        stack_refs_within(is, env, lo, hi),
{
}

proof fn lemma_env_within_refl(env: Map<Seq<char>, i32>, lo: int, hi: int)
    ensures
        env_within(env, env, lo, hi),
{
    assert forall|x: Seq<char>| #[trigger] env.contains_key(x) implies ok_offset(
        env[x] as int,
        env,
        lo,
        hi,
    ) by {
        assert(env.contains_key(x) && env[x] == env[x]);
    }
}

/// A slot's offset is in range for its slot.
proof fn lemma_slot_in(k: int, lo: int, hi: int)
    requires
        0 <= k < SLOT_LIMIT,
        lo <= k <= hi,
    ensures
        in_slots(slot_offset(k) as int, lo, hi),
{
}

/// Storing `rax` into slot `k`, and reading or writing variables of `env`,
/// stays within the slots `lo ..= hi` when `k` is among them.
proof fn lemma_store_slot(k: int, env: Map<Seq<char>, i32>, lo: int, hi: int)
    requires
        0 <= k < SLOT_LIMIT,
        lo <= k <= hi,
    ensures
        stack_refs_within(seq![InstrV::IMov(stack(slot_offset(k)), rax())], env, lo, hi),
{
    lemma_slot_in(k, lo, hi);
}

/// The code of an expression compiled with stack index `si` addresses only
/// the variables of its environment and the slots from `si` up to, but not
/// including, `si + expr_size(e)`.
pub proof fn lemma_stack_refs(
    e: ExprV,
    si: int,
    env: Map<Seq<char>, i32>,
    c: int,
    brk: Option<Seq<char>>,
)
    requires
        compile_spec(e, si, env, c, brk) is Ok,
        0 <= si,
        si + expr_size(e) < SLOT_LIMIT,
    ensures
        stack_refs_within(
            compile_spec(e, si, env, c, brk)->Ok_0.0,
            env,
            si,
            si + expr_size(e) - 1,
        ),
    decreases e, 1nat,
{
    let code = compile_spec(e, si, env, c, brk)->Ok_0.0;
    let hi = si + expr_size(e) - 1;
    lemma_env_within_refl(env, si, hi);
    match e {
        ExprV::Id(name) => {
            assert(env.contains_key(name) && env[name] == env[name]);
        },
        ExprV::Assign(name, a) => {
            let (ia, c1) = compile_spec(*a, si, env, c, brk)->Ok_0;
            lemma_stack_refs(*a, si, env, c, brk);
            lemma_refs_weaken(ia, env, si, si + expr_size(*a) - 1, env, si, hi);
            assert(env.contains_key(name) && env[name] == env[name]);
            let tail = seq![InstrV::IMov(stack(env[name]), rax())];
            assert(stack_refs_within(tail, env, si, hi));
            lemma_refs_concat(ia, tail, env, si, hi);
            assert(code =~= ia + tail);
        },
        ExprV::UnOp(op, a) => {
            let (ia, c1) = compile_spec(*a, si, env, c, brk)->Ok_0;
            lemma_stack_refs(*a, si, env, c, brk);
            lemma_refs_weaken(ia, env, si, si + expr_size(*a) - 1, env, si, hi);
            lemma_refs_none(unop_tail(op, c1).0, env, si, hi);
            lemma_refs_concat(ia, unop_tail(op, c1).0, env, si, hi);
        },
        ExprV::Break(a) => {
            let (ia, c1) = compile_spec(*a, si, env, c, brk)->Ok_0;
            lemma_stack_refs(*a, si, env, c, brk);
            lemma_refs_weaken(ia, env, si, si + expr_size(*a) - 1, env, si, hi);
            let tail = seq![InstrV::IJmp(brk->0)];
            lemma_refs_none(tail, env, si, hi);
            lemma_refs_concat(ia, tail, env, si, hi);
            assert(code =~= ia + tail);
        },
        ExprV::Loop(body) => {
            let end_label = crate::text::label_text("loop_end"@, c + 1);
            let (ib, c1) = compile_spec(*body, si, env, c + 2, Some(end_label))->Ok_0;
            lemma_stack_refs(*body, si, env, c + 2, Some(end_label));
            lemma_refs_weaken(ib, env, si, si + expr_size(*body) - 1, env, si, hi);
            let start = seq![InstrV::ILabel(crate::text::label_text("loop_start"@, c))];
            let end = seq![
                InstrV::IJmp(crate::text::label_text("loop_start"@, c)),
                InstrV::ILabel(end_label),
            ];
            lemma_refs_none(start, env, si, hi);
            lemma_refs_none(end, env, si, hi);
            lemma_refs_concat(start, ib, env, si, hi);
            lemma_refs_concat(start + ib, end, env, si, hi);
        },
        ExprV::BinOp(..) => {
            lemma_stack_refs_binop(e, si, env, c, brk);
        },
        ExprV::If(..) => {
            lemma_stack_refs_if(e, si, env, c, brk);
        },
        ExprV::Let(..) => {
            lemma_stack_refs_let(e, si, env, c, brk);
        },
        ExprV::Block(es) => {
            lemma_block_stack_refs(es, es.len(), si, env, c, brk);
        },
        _ => {},
    }
}

proof fn lemma_stack_refs_binop(
    e: ExprV,
    si: int,
    env: Map<Seq<char>, i32>,
    c: int,
    brk: Option<Seq<char>>,
)
    requires
        e is BinOp,
        compile_spec(e, si, env, c, brk) is Ok,
        0 <= si,
        si + expr_size(e) < SLOT_LIMIT,
    ensures
        stack_refs_within(
            compile_spec(e, si, env, c, brk)->Ok_0.0,
            env,
            si,
            si + expr_size(e) - 1,
        ),
    decreases e, 0nat,
{
    let code = compile_spec(e, si, env, c, brk)->Ok_0.0;
    let hi = si + expr_size(e) - 1;
    if let ExprV::BinOp(op, a, b) = e {
        let (ia, c1) = compile_spec(*a, si, env, c, brk)->Ok_0;
        let (ib, c2) = compile_spec(*b, si + 1, env, c1, brk)->Ok_0;
        lemma_size_pos(*a);
        lemma_size_pos(*b);
        lemma_stack_refs(*a, si, env, c, brk);
        lemma_stack_refs(*b, si + 1, env, c1, brk);
        lemma_env_within_refl(env, si, hi);
        lemma_refs_weaken(ia, env, si, si + expr_size(*a) - 1, env, si, hi);
        lemma_refs_weaken(ib, env, si + 1, si + 1 + expr_size(*b) - 1, env, si, hi);
        let lo_off = slot_offset(si);
        let ro_off = slot_offset(si + 1);
        let sl = seq![InstrV::IMov(stack(lo_off), rax())];
        let sr = seq![InstrV::IMov(stack(ro_off), rax())];
        lemma_store_slot(si, env, si, hi);
        lemma_store_slot(si + 1, env, si, hi);
        lemma_slot_in(si, si, hi);
        lemma_slot_in(si + 1, si, hi);
        let tail = binop_tail(op, lo_off, ro_off, c2).0;
        assert(stack_refs_within(tail, env, si, hi)) by {
            assert forall|i: int, j: int|
                0 <= i < tail.len() && 0 <= j < operands(tail[i]).len() && #[trigger] stack_operand(
                    operands(tail[i])[j],
                ) is Some implies ok_offset(
                stack_operand(operands(tail[i])[j])->0 as int,
                env,
                si,
                hi,
            ) by {
                let off = stack_operand(operands(tail[i])[j])->0;
                assert(off == lo_off || off == ro_off);
            }
        }
        lemma_refs_concat(ia, sl, env, si, hi);
        lemma_refs_concat(ia + sl, ib, env, si, hi);
        lemma_refs_concat(ia + sl + ib, sr, env, si, hi);
        lemma_refs_concat(ia + sl + ib + sr, tail, env, si, hi);
        assert(code =~= ia + sl + ib + sr + tail);
    }
}

proof fn lemma_stack_refs_if(
    e: ExprV,
    si: int,
    env: Map<Seq<char>, i32>,
    c: int,
    brk: Option<Seq<char>>,
)
    requires
        e is If,
        compile_spec(e, si, env, c, brk) is Ok,
        0 <= si,
        si + expr_size(e) < SLOT_LIMIT,
    ensures
        stack_refs_within(
            compile_spec(e, si, env, c, brk)->Ok_0.0,
            env,
            si,
            si + expr_size(e) - 1,
        ),
    decreases e, 0nat,
{
    let code = compile_spec(e, si, env, c, brk)->Ok_0.0;
    let hi = si + expr_size(e) - 1;
    if let ExprV::If(cond, thn, els) = e {
        let else_label = crate::text::label_text("if_else"@, c);
        let end_label = crate::text::label_text("if_end"@, c + 1);
        let (ic, c1) = compile_spec(*cond, si, env, c + 2, brk)->Ok_0;
        let (it, c2) = compile_spec(*thn, si, env, c1, brk)->Ok_0;
        let (ie, c3) = compile_spec(*els, si, env, c2, brk)->Ok_0;
        lemma_stack_refs(*cond, si, env, c + 2, brk);
        lemma_stack_refs(*thn, si, env, c1, brk);
        lemma_stack_refs(*els, si, env, c2, brk);
        lemma_env_within_refl(env, si, hi);
        lemma_refs_weaken(ic, env, si, si + expr_size(*cond) - 1, env, si, hi);
        lemma_refs_weaken(it, env, si, si + expr_size(*thn) - 1, env, si, hi);
        lemma_refs_weaken(ie, env, si, si + expr_size(*els) - 1, env, si, hi);
        let p1 = seq![
            InstrV::ICmp(rax(), Val::Imm(crate::tagging::FALSE_VAL)),
            InstrV::IJe(else_label),
        ];
        let p2 = seq![InstrV::IJmp(end_label), InstrV::ILabel(else_label)];
        let p3 = seq![InstrV::ILabel(end_label)];
        lemma_refs_none(p1, env, si, hi);
        lemma_refs_none(p2, env, si, hi);
        lemma_refs_none(p3, env, si, hi);
        lemma_refs_concat(ic, p1, env, si, hi);
        lemma_refs_concat(ic + p1, it, env, si, hi);
        lemma_refs_concat(ic + p1 + it, p2, env, si, hi);
        lemma_refs_concat(ic + p1 + it + p2, ie, env, si, hi);
        lemma_refs_concat(ic + p1 + it + p2 + ie, p3, env, si, hi);
        assert(code =~= ic + p1 + it + p2 + ie + p3);
    }
}

proof fn lemma_stack_refs_let(
    e: ExprV,
    si: int,
    env: Map<Seq<char>, i32>,
    c: int,
    brk: Option<Seq<char>>,
)
    requires
        e is Let,
        compile_spec(e, si, env, c, brk) is Ok,
        0 <= si,
        si + expr_size(e) < SLOT_LIMIT,
    ensures
        stack_refs_within(
            compile_spec(e, si, env, c, brk)->Ok_0.0,
            env,
            si,
            si + expr_size(e) - 1,
        ),
    decreases e, 0nat,
{
    let hi = si + expr_size(e) - 1;
    if let ExprV::Let(bs, body) = e {
        let n = bs.len();
        let (ib, env1, c1) = let_prefix(bs, n, si, env, c, brk)->Ok_0;
        let nb = binds_size(bs, n);
        lemma_binds_size_mono(bs, 0, n);
        lemma_size_pos(*body);
        lemma_let_stack_refs(bs, n, si, env, c, brk);
        lemma_stack_refs(*body, si + n, env1, c1, brk);
        let ie = compile_spec(*body, si + n, env1, c1, brk)->Ok_0.0;
        lemma_refs_weaken(ib, env, si, si + nb - 1, env, si, hi);
        assert(env_within(env1, env, si, hi));
        lemma_refs_weaken(ie, env1, si + n, si + n + expr_size(*body) - 1, env, si, hi);
        lemma_refs_concat(ib, ie, env, si, hi);
    }
}

/// The code of the first `k` bindings of a `let` addresses only the
/// variables of the environment and slots from `si` up to, but not
/// including, `si + binds_size(bs, k)`; each binding it adds is such a slot.
pub proof fn lemma_let_stack_refs(
    bs: Seq<(Seq<char>, ExprV)>,
    k: nat,
    si: int,
    env: Map<Seq<char>, i32>,
    c: int,
    brk: Option<Seq<char>>,
)
    requires
        k <= bs.len(),
        let_prefix(bs, k, si, env, c, brk) is Ok,
        0 <= si,
        si + binds_size(bs, k) < SLOT_LIMIT,
    ensures
        stack_refs_within(
            let_prefix(bs, k, si, env, c, brk)->Ok_0.0,
            env,
            si,
            si + binds_size(bs, k) - 1,
        ),
        env_within(let_prefix(bs, k, si, env, c, brk)->Ok_0.1, env, si, si + binds_size(bs, k) - 1),
    decreases bs, k,
{
    if k == 0 {
        lemma_env_within_refl(env, si, si - 1);
    } else {
        let (is, env1, c1) = let_prefix(bs, (k - 1) as nat, si, env, c, brk)->Ok_0;
        lemma_binds_size_mono(bs, (k - 1) as nat, k);
        lemma_binds_size_mono(bs, 0, (k - 1) as nat);
        lemma_size_pos(bs[k - 1].1);
        lemma_let_stack_refs(bs, (k - 1) as nat, si, env, c, brk);
        let slot = si + k - 1;
        let hi = si + binds_size(bs, k) - 1;
        let hi1 = si + binds_size(bs, (k - 1) as nat) - 1;
        assert(binds_size(bs, k) == binds_size(bs, (k - 1) as nat) + expr_size(bs[k - 1].1));
        lemma_stack_refs(bs[k - 1].1, slot, env1, c1, brk);
        let ie = compile_spec(bs[k - 1].1, slot, env1, c1, brk)->Ok_0.0;
        assert(env_within(env1, env, si, hi));
        lemma_refs_weaken(is, env, si, hi1, env, si, hi);
        lemma_refs_weaken(ie, env1, slot, slot + expr_size(bs[k - 1].1) - 1, env, si, hi);
        lemma_store_slot(slot, env, si, hi);
        let store = seq![InstrV::IMov(stack(slot_offset(slot)), rax())];
        lemma_refs_concat(is, ie, env, si, hi);
        lemma_refs_concat(is + ie, store, env, si, hi);
        assert(is + ie.push(InstrV::IMov(stack(slot_offset(slot)), rax())) =~= is + ie + store);
        let env2 = env1.insert(bs[k - 1].0, slot_offset(slot));
        lemma_slot_in(slot, si, hi);
        assert(env_within(env2, env, si, hi)) by {
            assert forall|x: Seq<char>| #[trigger] env2.contains_key(x) implies ok_offset(
                env2[x] as int,
                env,
                si,
                hi,
            ) by {
                if x != bs[k - 1].0 {
                    assert(env1.contains_key(x));
                }
            }
        }
    }
}

/// The code of the first `k` expressions of a block addresses only the
/// variables of the environment and slots from `si` up to, but not
/// including, `si + exprs_size(es, k)`.
pub proof fn lemma_block_stack_refs(
    es: Seq<ExprV>,
    k: nat,
    si: int,
    env: Map<Seq<char>, i32>,
    c: int,
    brk: Option<Seq<char>>,
)
    requires
        k <= es.len(),
        block_prefix(es, k, si, env, c, brk) is Ok,
        0 <= si,
        si + exprs_size(es, k) < SLOT_LIMIT,
    ensures
        stack_refs_within(
            block_prefix(es, k, si, env, c, brk)->Ok_0.0,
            env,
            si,
            si + exprs_size(es, k) - 1,
        ),
    decreases es, k,
{
    if k > 0 {
        let (is, c1) = block_prefix(es, (k - 1) as nat, si, env, c, brk)->Ok_0;
        lemma_exprs_size_mono(es, (k - 1) as nat, k);
        assert(exprs_size(es, k) == exprs_size(es, (k - 1) as nat) + expr_size(es[k - 1]));
        lemma_block_stack_refs(es, (k - 1) as nat, si, env, c, brk);
        lemma_stack_refs(es[k - 1], si, env, c1, brk);
        let hi = si + exprs_size(es, k) - 1;
        lemma_env_within_refl(env, si, hi);
        lemma_refs_weaken(is, env, si, si + exprs_size(es, (k - 1) as nat) - 1, env, si, hi);
        let ie = compile_spec(es[k - 1], si, env, c1, brk)->Ok_0.0;
        lemma_refs_weaken(ie, env, si, si + expr_size(es[k - 1]) - 1, env, si, hi);
        lemma_refs_concat(is, ie, env, si, hi);
    }
}

/// Every stack operand of a whole program's code lies below the stack
/// pointer, at a multiple of 8 bytes, within `8 * (1 + expr_size(e))`
/// bytes of it; the return address at the stack pointer is never touched.
pub proof fn lemma_program_stack(e: ExprV, i: int, j: int)
    requires
        compile_spec(e, 2, Map::empty(), 0, None) is Ok,
        2 + expr_size(e) < SLOT_LIMIT,
        0 <= i < (compile_spec(e, 2, Map::empty(), 0, None)->Ok_0.0 + epilogue()).len(),
        0 <= j < operands((compile_spec(e, 2, Map::empty(), 0, None)->Ok_0.0 + epilogue())[i]).len(),
        stack_operand(
            operands((compile_spec(e, 2, Map::empty(), 0, None)->Ok_0.0 + epilogue())[i])[j],
        ) is Some,
    ensures
        ({
            let off = stack_operand(
                operands((compile_spec(e, 2, Map::empty(), 0, None)->Ok_0.0 + epilogue())[i])[j],
            )->0 as int;
            &&& -8 * (1 + expr_size(e)) <= off <= -16
            &&& off % 8 == 0
        }),
{
    let env = Map::<Seq<char>, i32>::empty();
    let body = compile_spec(e, 2, env, 0, None)->Ok_0.0;
    lemma_stack_refs(e, 2, env, 0, None);
    lemma_refs_none(epilogue(), env, 2, 2 + expr_size(e) - 1);
    lemma_refs_concat(body, epilogue(), env, 2, 2 + expr_size(e) - 1);
    let code = body + epilogue();
    let off = stack_operand(operands(code[i])[j])->0 as int;
    assert(ok_offset(off, env, 2, 2 + expr_size(e) - 1));
}

} // verus!
