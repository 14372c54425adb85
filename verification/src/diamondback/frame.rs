//! The frame of every function holds all of its variables and temporaries:
//! each frame operand of the code is a parameter above the frame pointer or a
//! stack slot inside the frame that the prologue reserves.
use vstd::prelude::*;
use crate::diamondback::syntax::ExprV;
use crate::diamondback::machine::{Reg, Val, InstrV};
use crate::diamondback::compile::{compile_spec, let_prefix, block_prefix, call_args, call_tail,
    pushes, binop_tail, unop_tail, max_slot, let_slots, block_slots, call_slots, expr_size,
    binds_size, exprs_size, rev_size, slot_off, frame, rax, SLOT_LIMIT, lemma_max_slot_bounds,
    lemma_binds_size_mono, lemma_exprs_size_mono, lemma_rev_size, compile_defn_spec,
    compile_main_spec, param_env, function_frame, main_frame, align_function_spec, align_main_spec,
    rsp_sub, rsp_add, compile_bounds};
use crate::diamondback::syntax::DefinitionV;

verus! {

/// The frame offset that an operand addresses, if it addresses one.
pub open spec fn frame_offset(v: Val) -> Option<i32> {
    match v {
        Val::RegOffset(Reg::RBP, off) => Some(off),
        _ => None,
    }
}

/// The operands of an instruction.
pub open spec fn operands(i: InstrV) -> Seq<Val> {
    match i {
        InstrV::IMov(a, b) | InstrV::IAdd(a, b) | InstrV::ISub(a, b) | InstrV::IMul(a, b)
        | InstrV::ISar(a, b) | InstrV::IAnd(a, b) | InstrV::ITest(a, b) | InstrV::ICmp(a, b) => seq![
            a,
            b,
        ],
        InstrV::IPush(v) | InstrV::IPop(v) => seq![v],
        _ => Seq::empty(),
    }
}

/// Whether `off` is the offset of a slot among `lo ..= hi`.
pub open spec fn in_slots(off: int, lo: int, hi: int) -> bool {
    &&& lo * 8 <= -off <= hi * 8
    &&& (-off) % 8 == 0
}

/// Whether `off` is the offset of a variable of `env` or of a slot among
/// `lo ..= hi`.
pub open spec fn ok_offset(off: int, env: Map<Seq<char>, i32>, lo: int, hi: int) -> bool {
    ||| exists|x: Seq<char>| #[trigger] env.contains_key(x) && env[x] == off
    ||| in_slots(off, lo, hi)
}

/// Whether every frame operand of `is` is a variable of `env` or a slot
/// among `lo ..= hi`.
pub open spec fn frame_refs_within(is: Seq<InstrV>, env: Map<Seq<char>, i32>, lo: int, hi: int) -> bool {
    forall|i: int, j: int|
        0 <= i < is.len() && 0 <= j < operands(is[i]).len() && #[trigger] frame_offset(
            operands(is[i])[j],
        ) is Some ==> ok_offset(frame_offset(operands(is[i])[j])->0 as int, env, lo, hi)
}

/// Whether every variable of `env1` is a variable of `env` or a slot among
/// `lo ..= hi`.
pub open spec fn env_within(
    env1: Map<Seq<char>, i32>,
    env: Map<Seq<char>, i32>,
    lo: int,
    hi: int,
) -> bool {
    forall|x: Seq<char>| #[trigger] env1.contains_key(x) ==> ok_offset(env1[x] as int, env, lo, hi)
}

proof fn lemma_refs_concat(a: Seq<InstrV>, b: Seq<InstrV>, env: Map<Seq<char>, i32>, lo: int, hi: int)
    requires
        frame_refs_within(a, env, lo, hi),
        frame_refs_within(b, env, lo, hi),
    ensures
        frame_refs_within(a + b, env, lo, hi),
{
    assert forall|i: int, j: int|
        0 <= i < (a + b).len() && 0 <= j < operands((a + b)[i]).len() && #[trigger] frame_offset(
            operands((a + b)[i])[j],
        ) is Some implies ok_offset(
        frame_offset(operands((a + b)[i])[j])->0 as int,
        env,
        lo,
        hi,
    ) by {
        if i < a.len() {
            assert((a + b)[i] == a[i]);
            assert(frame_offset(operands(a[i])[j]) is Some);
        } else {
            assert((a + b)[i] == b[i - a.len()]);
            assert(frame_offset(operands(b[i - a.len()])[j]) is Some);
        }
    }
}

proof fn lemma_refs_weaken(
    is: Seq<InstrV>,
    env1: Map<Seq<char>, i32>,
    lo1: int,
    hi1: int,
    env: Map<Seq<char>, i32>,
    lo: int,
    hi: int,
)
    requires
        frame_refs_within(is, env1, lo1, hi1),
        env_within(env1, env, lo, hi),
        lo <= lo1,
        hi1 <= hi,
    ensures
        frame_refs_within(is, env, lo, hi),
{
    assert forall|i: int, j: int|
        0 <= i < is.len() && 0 <= j < operands(is[i]).len() && #[trigger] frame_offset(
            operands(is[i])[j],
        ) is Some implies ok_offset(frame_offset(operands(is[i])[j])->0 as int, env, lo, hi) by {
        let off = frame_offset(operands(is[i])[j])->0 as int;
        if !in_slots(off, lo1, hi1) {
            let x = choose|x: Seq<char>| #[trigger] env1.contains_key(x) && env1[x] == off;
            assert(env1.contains_key(x));
        }
    }
}

/// Code whose operands address no frame slot.
proof fn lemma_refs_none(is: Seq<InstrV>, env: Map<Seq<char>, i32>, lo: int, hi: int)
    requires
        forall|i: int, j: int|
            0 <= i < is.len() && 0 <= j < operands(is[i]).len() ==> #[trigger] frame_offset(
                operands(is[i])[j],
            ) is None,
    ensures
        frame_refs_within(is, env, lo, hi),
{
}

proof fn lemma_env_within_refl(env: Map<Seq<char>, i32>, lo: int, hi: int)
    ensures
        env_within(env, env, lo, hi),
{
    assert forall|x: Seq<char>| #[trigger] env.contains_key(x) implies ok_offset(
        env[x] as int,
        env,
        lo,
        hi,
    ) by {
        assert(env.contains_key(x) && env[x] == env[x]);
    }
}

proof fn lemma_env_within_weaken(
    env2: Map<Seq<char>, i32>,
    env: Map<Seq<char>, i32>,
    lo: int,
    hi: int,
    hi2: int,
)
    requires
        env_within(env2, env, lo, hi),
        hi <= hi2,
    ensures
        env_within(env2, env, lo, hi2),
{
}

/// A slot's offset is in range for its slot.
proof fn lemma_slot_in(k: int, lo: int, hi: int)
    requires
        0 <= k < SLOT_LIMIT,
        lo <= k <= hi,
    ensures
        in_slots(slot_off(k) as int, lo, hi),
{
}

/// The code of an expression addresses only the variables of its
/// environment and the slots from its stack index up to `max_slot`.
pub proof fn lemma_frame_refs(
    e: ExprV,
    si: int,
    env: Map<Seq<char>, i32>,
    params: Set<Seq<char>>,
    funcs: Map<Seq<char>, (nat, Seq<char>)>,
    c: int,
    brk: Option<Seq<char>>,
)
    requires
        compile_spec(e, si, env, params, funcs, c, brk) is Ok,
        0 <= si,
        si + expr_size(e) < SLOT_LIMIT,
    ensures
        frame_refs_within(
            compile_spec(e, si, env, params, funcs, c, brk)->Ok_0.0,
            env,
            si,
            max_slot(e, si),
        ),
    decreases e, 1nat,
{
    let code = compile_spec(e, si, env, params, funcs, c, brk)->Ok_0.0;
    lemma_max_slot_bounds(e, si);
    match e {
        ExprV::Id(name) => {
            assert(env.contains_key(name) && env[name] == env[name]);
        },
        ExprV::Assign(name, a) => {
            let (ia, c1) = compile_spec(*a, si, env, params, funcs, c, brk)->Ok_0;
            lemma_frame_refs(*a, si, env, params, funcs, c, brk);
            assert(env.contains_key(name) && env[name] == env[name]);
            let tail = seq![InstrV::IMov(frame(env[name]), rax())];
            assert(frame_refs_within(tail, env, si, max_slot(e, si)));
            lemma_refs_concat(ia, tail, env, si, max_slot(e, si));
            assert(code =~= ia + tail);
        },
        ExprV::UnOp(op, a) => {
            let (ia, c1) = compile_spec(*a, si, env, params, funcs, c, brk)->Ok_0;
            lemma_frame_refs(*a, si, env, params, funcs, c, brk);
            lemma_refs_none(unop_tail(op, c1).0, env, si, max_slot(e, si));
            lemma_refs_concat(ia, unop_tail(op, c1).0, env, si, max_slot(e, si));
        },
        ExprV::Break(a) => {
            let (ia, c1) = compile_spec(*a, si, env, params, funcs, c, brk)->Ok_0;
            lemma_frame_refs(*a, si, env, params, funcs, c, brk);
            let tail = seq![InstrV::IJmp(brk->0)];
            lemma_refs_none(tail, env, si, max_slot(e, si));
            lemma_refs_concat(ia, tail, env, si, max_slot(e, si));
            assert(code =~= ia + tail);
        },
        ExprV::Loop(body) => {
            let end_label = crate::text::label_text("loop_end"@, c + 1);
            let (ib, c1) = compile_spec(*body, si, env, params, funcs, c + 2, Some(end_label))->Ok_0;
            lemma_frame_refs(*body, si, env, params, funcs, c + 2, Some(end_label));
            let start = seq![InstrV::ILabel(crate::text::label_text("loop_start"@, c))];
            let end = seq![
                InstrV::IJmp(crate::text::label_text("loop_start"@, c)),
                InstrV::ILabel(end_label),
            ];
            lemma_refs_none(start, env, si, max_slot(e, si));
            lemma_refs_none(end, env, si, max_slot(e, si));
            lemma_refs_concat(start, ib, env, si, max_slot(e, si));
            lemma_refs_concat(start + ib, end, env, si, max_slot(e, si));
        },
        ExprV::BinOp(..) => {
            lemma_frame_refs_binop(e, si, env, params, funcs, c, brk);
        },
        ExprV::If(..) => {
            lemma_frame_refs_if(e, si, env, params, funcs, c, brk);
        },
        ExprV::Let(..) => {
            lemma_frame_refs_let(e, si, env, params, funcs, c, brk);
        },
        ExprV::Block(es) => {
            lemma_block_frame_refs(es, es.len(), si, env, params, funcs, c, brk);
        },
        ExprV::Call(..) => {
            lemma_frame_refs_call(e, si, env, params, funcs, c, brk);
        },
        _ => {},
    }
}

proof fn lemma_frame_refs_binop(
    e: ExprV,
    si: int,
    env: Map<Seq<char>, i32>,
    params: Set<Seq<char>>,
    funcs: Map<Seq<char>, (nat, Seq<char>)>,
    c: int,
    brk: Option<Seq<char>>,
)
    requires
        e is BinOp,
        compile_spec(e, si, env, params, funcs, c, brk) is Ok,
        0 <= si,
        si + expr_size(e) < SLOT_LIMIT,
    ensures
        frame_refs_within(
            compile_spec(e, si, env, params, funcs, c, brk)->Ok_0.0,
            env,
            si,
            max_slot(e, si),
        ),
    decreases e, 0nat,
{
    let code = compile_spec(e, si, env, params, funcs, c, brk)->Ok_0.0;
    lemma_max_slot_bounds(e, si);
    if let ExprV::BinOp(op, a, b) = e {
        let (ia, c1) = compile_spec(*a, si, env, params, funcs, c, brk)->Ok_0;
        let (ib, c2) = compile_spec(*b, si + 1, env, params, funcs, c1, brk)->Ok_0;
        let hi = max_slot(e, si);
        lemma_frame_refs(*a, si, env, params, funcs, c, brk);
        lemma_frame_refs(*b, si + 1, env, params, funcs, c1, brk);
        lemma_env_within_refl(env, si, hi);
        lemma_refs_weaken(ib, env, si + 1, max_slot(*b, si + 1), env, si, hi);
        lemma_slot_in(si, si, hi);
        let temp = slot_off(si);
        let store = seq![InstrV::IMov(frame(temp), rax())];
        assert(frame_refs_within(store, env, si, hi));
        let tail = binop_tail(op, temp, c2).0;
        assert(frame_refs_within(tail, env, si, hi)) by {
            assert forall|i: int, j: int|
                0 <= i < tail.len() && 0 <= j < operands(tail[i]).len() && #[trigger] frame_offset(
                    operands(tail[i])[j],
                ) is Some implies ok_offset(
                frame_offset(operands(tail[i])[j])->0 as int,
                env,
                si,
                hi,
            ) by {
                assert(frame_offset(operands(tail[i])[j]) == Some(temp));
            }
        }
        lemma_refs_concat(ia, store, env, si, hi);
        lemma_refs_concat(ia + store, ib, env, si, hi);
        lemma_refs_concat(ia + store + ib, tail, env, si, hi);
        assert(code =~= ia + store + ib + tail);
    }
}

proof fn lemma_frame_refs_if(
    e: ExprV,
    si: int,
    env: Map<Seq<char>, i32>,
    params: Set<Seq<char>>,
    funcs: Map<Seq<char>, (nat, Seq<char>)>,
    c: int,
    brk: Option<Seq<char>>,
)
    requires
        e is If,
        compile_spec(e, si, env, params, funcs, c, brk) is Ok,
        0 <= si,
        si + expr_size(e) < SLOT_LIMIT,
    ensures
        frame_refs_within(
            compile_spec(e, si, env, params, funcs, c, brk)->Ok_0.0,
            env,
            si,
            max_slot(e, si),
        ),
    decreases e, 0nat,
{
    let code = compile_spec(e, si, env, params, funcs, c, brk)->Ok_0.0;
    lemma_max_slot_bounds(e, si);
    if let ExprV::If(cond, thn, els) = e {
        let else_label = crate::text::label_text("if_else"@, c);
        let end_label = crate::text::label_text("if_end"@, c + 1);
        let (ic, c1) = compile_spec(*cond, si, env, params, funcs, c + 2, brk)->Ok_0;
        let (it, c2) = compile_spec(*thn, si, env, params, funcs, c1, brk)->Ok_0;
        let (ie, c3) = compile_spec(*els, si, env, params, funcs, c2, brk)->Ok_0;
        let hi = max_slot(e, si);
        lemma_frame_refs(*cond, si, env, params, funcs, c + 2, brk);
        lemma_frame_refs(*thn, si, env, params, funcs, c1, brk);
        lemma_frame_refs(*els, si, env, params, funcs, c2, brk);
        lemma_env_within_refl(env, si, hi);
        lemma_refs_weaken(ic, env, si, max_slot(*cond, si), env, si, hi);
        lemma_refs_weaken(it, env, si, max_slot(*thn, si), env, si, hi);
        lemma_refs_weaken(ie, env, si, max_slot(*els, si), env, si, hi);
        let p1 = seq![InstrV::ICmp(rax(), Val::Imm(crate::tagging::FALSE_VAL)), InstrV::IJe(else_label)];
        let p2 = seq![InstrV::IJmp(end_label), InstrV::ILabel(else_label)];
        let p3 = seq![InstrV::ILabel(end_label)];
        lemma_refs_none(p1, env, si, hi);
        lemma_refs_none(p2, env, si, hi);
        lemma_refs_none(p3, env, si, hi);
        lemma_refs_concat(ic, p1, env, si, hi);
        lemma_refs_concat(ic + p1, it, env, si, hi);
        lemma_refs_concat(ic + p1 + it, p2, env, si, hi);
        lemma_refs_concat(ic + p1 + it + p2, ie, env, si, hi);
        lemma_refs_concat(ic + p1 + it + p2 + ie, p3, env, si, hi);
        assert(code =~= ic + p1 + it + p2 + ie + p3);
    }
}

proof fn lemma_frame_refs_let(
    e: ExprV,
    si: int,
    env: Map<Seq<char>, i32>,
    params: Set<Seq<char>>,
    funcs: Map<Seq<char>, (nat, Seq<char>)>,
    c: int,
    brk: Option<Seq<char>>,
)
    requires
        e is Let,
        compile_spec(e, si, env, params, funcs, c, brk) is Ok,
        0 <= si,
        si + expr_size(e) < SLOT_LIMIT,
    ensures
        frame_refs_within(
            compile_spec(e, si, env, params, funcs, c, brk)->Ok_0.0,
            env,
            si,
            max_slot(e, si),
        ),
    decreases e, 0nat,
{
    let code = compile_spec(e, si, env, params, funcs, c, brk)->Ok_0.0;
    lemma_max_slot_bounds(e, si);
    if let ExprV::Let(bs, body) = e {
        let n = bs.len();
        let (ib, env1, c1) = let_prefix(bs, n, si, env, params, funcs, c, brk)->Ok_0;
        let hi = max_slot(e, si);
        lemma_let_frame_refs(bs, n, si, env, params, funcs, c, brk);
        lemma_binds_size_mono(bs, 0, n);
        lemma_frame_refs(*body, si + n, env1, params, funcs, c1, brk);
        lemma_refs_weaken(ib, env, si, let_slots(bs, n, si), env, si, hi);
        lemma_env_within_weaken(env1, env, si, let_slots(bs, n, si), hi);
        lemma_refs_weaken(
            compile_spec(*body, si + n, env1, params, funcs, c1, brk)->Ok_0.0,
            env1,
            si + n,
            max_slot(*body, si + n),
            env,
            si,
            hi,
        );
        lemma_refs_concat(
            ib,
            compile_spec(*body, si + n, env1, params, funcs, c1, brk)->Ok_0.0,
            env,
            si,
            hi,
        );
    }
}

proof fn lemma_frame_refs_call(
    e: ExprV,
    si: int,
    env: Map<Seq<char>, i32>,
    params: Set<Seq<char>>,
    funcs: Map<Seq<char>, (nat, Seq<char>)>,
    c: int,
    brk: Option<Seq<char>>,
)
    requires
        e is Call,
        compile_spec(e, si, env, params, funcs, c, brk) is Ok,
        0 <= si,
        si + expr_size(e) < SLOT_LIMIT,
    ensures
        frame_refs_within(
            compile_spec(e, si, env, params, funcs, c, brk)->Ok_0.0,
            env,
            si,
            max_slot(e, si),
        ),
    decreases e, 0nat,
{
    let code = compile_spec(e, si, env, params, funcs, c, brk)->Ok_0.0;
    lemma_max_slot_bounds(e, si);
    if let ExprV::Call(name, args) = e {
        let n = args.len();
        let (ia, c1) = call_args(args, n, si, env, params, funcs, c, brk)->Ok_0;
        let hi = max_slot(e, si);
        lemma_rev_size(args, n);
        lemma_call_frame_refs(args, n, si, env, params, funcs, c, brk);
        let tail = call_tail(si, n, funcs[name].1);
        assert(frame_refs_within(tail, env, si, hi)) by {
            assert forall|i: int, j: int|
                0 <= i < tail.len() && 0 <= j < operands(tail[i]).len() && #[trigger] frame_offset(
                    operands(tail[i])[j],
                ) is Some implies ok_offset(
                frame_offset(operands(tail[i])[j])->0 as int,
                env,
                si,
                hi,
            ) by {
                let pad: int = if n % 2 == 1 { 8 } else { 0 };
                let pre: int = if pad > 0 { 1 } else { 0 };
                let k = i - pre;
                assert(0 <= k < n);
                assert(tail[i] == pushes(si, n)[k]);
                lemma_call_slots_high(args, n, si);
                lemma_slot_in(si + k, si, hi);
            }
        }
        lemma_refs_concat(ia, tail, env, si, hi);
    }
}

/// The highest slot of a call is at least that of its last argument.
proof fn lemma_call_slots_high(args: Seq<ExprV>, k: nat, si: int)
    requires
        0 < k <= args.len(),
    ensures
        call_slots(args, k, si) >= si + k - 1,
{
}

/// The code of the first `k` bindings of a `let` addresses only the
/// variables of the outer environment and slots from `si` up to
/// `let_slots`; the environment after them adds only such slots.
pub proof fn lemma_let_frame_refs(
    bs: Seq<(Seq<char>, ExprV)>,
    k: nat,
    si: int,
    env: Map<Seq<char>, i32>,
    params: Set<Seq<char>>,
    funcs: Map<Seq<char>, (nat, Seq<char>)>,
    c: int,
    brk: Option<Seq<char>>,
)
    requires
        k <= bs.len(),
        let_prefix(bs, k, si, env, params, funcs, c, brk) is Ok,
        0 <= si,
        si + binds_size(bs, k) < SLOT_LIMIT,
    ensures
        frame_refs_within(
            let_prefix(bs, k, si, env, params, funcs, c, brk)->Ok_0.0,
            env,
            si,
            let_slots(bs, k, si),
        ),
        env_within(let_prefix(bs, k, si, env, params, funcs, c, brk)->Ok_0.1, env, si, let_slots(bs, k, si)),
    decreases bs, k,
{
    if k == 0 {
        lemma_env_within_refl(env, si, si - 1);
    } else {
        let (is, env1, c1) = let_prefix(bs, (k - 1) as nat, si, env, params, funcs, c, brk)->Ok_0;
        lemma_binds_size_mono(bs, (k - 1) as nat, k);
        lemma_binds_size_mono(bs, 0, (k - 1) as nat);
        lemma_let_frame_refs(bs, (k - 1) as nat, si, env, params, funcs, c, brk);
        let slot = si + k - 1;
        let hi = let_slots(bs, k, si);
        let hi1 = let_slots(bs, (k - 1) as nat, si);
        assert(binds_size(bs, k) == binds_size(bs, (k - 1) as nat) + expr_size(bs[k - 1].1));
        lemma_frame_refs(bs[k - 1].1, slot, env1, params, funcs, c1, brk);
        let ie = compile_spec(bs[k - 1].1, slot, env1, params, funcs, c1, brk)->Ok_0.0;
        lemma_env_within_weaken(env1, env, si, hi1, hi);
        lemma_refs_weaken(is, env, si, hi1, env, si, hi);
        lemma_refs_weaken(ie, env1, slot, max_slot(bs[k - 1].1, slot), env, si, hi);
        lemma_slot_in(slot, si, hi);
        let store = seq![InstrV::IMov(frame(slot_off(slot)), rax())];
        assert(frame_refs_within(store, env, si, hi));
        lemma_refs_concat(is, ie, env, si, hi);
        lemma_refs_concat(is + ie, store, env, si, hi);
        assert(is + ie.push(InstrV::IMov(frame(slot_off(slot)), rax())) =~= is + ie + store);
        let env2 = env1.insert(bs[k - 1].0, slot_off(slot));
        assert(env_within(env2, env, si, hi)) by {
            assert forall|x: Seq<char>| #[trigger] env2.contains_key(x) implies ok_offset(
                env2[x] as int,
                env,
                si,
                hi,
            ) by {
                if x != bs[k - 1].0 {
                    assert(env1.contains_key(x));
                }
            }
        }
    }
}

/// The code of the first `k` expressions of a block addresses only the
/// variables of the environment and slots from `si` up to `block_slots`.
pub proof fn lemma_block_frame_refs(
    es: Seq<ExprV>,
    k: nat,
    si: int,
    env: Map<Seq<char>, i32>,
    params: Set<Seq<char>>,
    funcs: Map<Seq<char>, (nat, Seq<char>)>,
    c: int,
    brk: Option<Seq<char>>,
)
    requires
        k <= es.len(),
        block_prefix(es, k, si, env, params, funcs, c, brk) is Ok,
        0 <= si,
        si + exprs_size(es, k) < SLOT_LIMIT,
    ensures
        frame_refs_within(
            block_prefix(es, k, si, env, params, funcs, c, brk)->Ok_0.0,
            env,
            si,
            block_slots(es, k, si),
        ),
    decreases es, k,
{
    if k > 0 {
        let (is, c1) = block_prefix(es, (k - 1) as nat, si, env, params, funcs, c, brk)->Ok_0;
        lemma_exprs_size_mono(es, (k - 1) as nat, k);
        assert(exprs_size(es, k) == exprs_size(es, (k - 1) as nat) + expr_size(es[k - 1]));
        lemma_block_frame_refs(es, (k - 1) as nat, si, env, params, funcs, c, brk);
        lemma_frame_refs(es[k - 1], si, env, params, funcs, c1, brk);
        let hi = block_slots(es, k, si);
        lemma_env_within_refl(env, si, hi);
        lemma_refs_weaken(is, env, si, block_slots(es, (k - 1) as nat, si), env, si, hi);
        lemma_refs_weaken(
            compile_spec(es[k - 1], si, env, params, funcs, c1, brk)->Ok_0.0,
            env,
            si,
            max_slot(es[k - 1], si),
            env,
            si,
            hi,
        );
        lemma_refs_concat(is, compile_spec(es[k - 1], si, env, params, funcs, c1, brk)->Ok_0.0, env, si, hi);
    }
}

/// The code of the last `k` arguments of a call addresses only the
/// variables of the environment and slots from `si` up to `call_slots`.
pub proof fn lemma_call_frame_refs(
    args: Seq<ExprV>,
    k: nat,
    si: int,
    env: Map<Seq<char>, i32>,
    params: Set<Seq<char>>,
    funcs: Map<Seq<char>, (nat, Seq<char>)>,
    c: int,
    brk: Option<Seq<char>>,
)
    requires
        k <= args.len(),
        call_args(args, k, si, env, params, funcs, c, brk) is Ok,
        0 <= si,
        si + rev_size(args, k) < SLOT_LIMIT,
    ensures
        frame_refs_within(
            call_args(args, k, si, env, params, funcs, c, brk)->Ok_0.0,
            env,
            si,
            call_slots(args, k, si),
        ),
    decreases args, k,
{
    if k > 0 {
        let (is, c1) = call_args(args, (k - 1) as nat, si, env, params, funcs, c, brk)->Ok_0;
        lemma_rev_size(args, (k - 1) as nat);
        lemma_call_frame_refs(args, (k - 1) as nat, si, env, params, funcs, c, brk);
        let slot = si + k - 1;
        let a = args[args.len() - k];
        lemma_frame_refs(a, slot, env, params, funcs, c1, brk);
        let ie = compile_spec(a, slot, env, params, funcs, c1, brk)->Ok_0.0;
        let hi = call_slots(args, k, si);
        lemma_env_within_refl(env, si, hi);
        lemma_refs_weaken(is, env, si, call_slots(args, (k - 1) as nat, si), env, si, hi);
        lemma_refs_weaken(ie, env, slot, max_slot(a, slot), env, si, hi);
        lemma_slot_in(slot, si, hi);
        let store = seq![InstrV::IMov(frame(slot_off(slot)), rax())];
        assert(frame_refs_within(store, env, si, hi));
        lemma_refs_concat(is, ie, env, si, hi);
        lemma_refs_concat(is + ie, store, env, si, hi);
        assert(is + ie.push(InstrV::IMov(frame(slot_off(slot)), rax())) =~= is + ie + store);
    }
}


/// Whether `off` is the offset of one of the first `n` parameters: the
/// parameter of index `j` lies `16 + 8 j` bytes above the frame pointer.
pub open spec fn param_slot(off: int, n: nat) -> bool {
    &&& off >= 16
    &&& (off - 16) % 8 == 0
    &&& (off - 16) / 8 < n
}

proof fn lemma_param_env_values(ps: Seq<Seq<char>>, k: nat, x: Seq<char>)
    requires
        k <= ps.len(),
        ps.len() < 0x0800_0000,
        param_env(ps, k).contains_key(x),
    ensures
        param_slot(param_env(ps, k)[x] as int, k),
    decreases k,
{
    if k > 0 && x != ps[k - 1] {
        lemma_param_env_values(ps, (k - 1) as nat, x);
    }
}

proof fn lemma_code_frame_refs(code: Seq<InstrV>, pre: Seq<InstrV>, body: Seq<InstrV>, post: Seq<InstrV>, env: Map<Seq<char>, i32>, lo: int, hi: int)
    requires
        code == pre + body + post,
        frame_refs_within(body, env, lo, hi),
        forall|i: int, j: int|
            0 <= i < pre.len() && 0 <= j < operands(pre[i]).len() ==> #[trigger] frame_offset(
                operands(pre[i])[j],
            ) is None,
        forall|i: int, j: int|
            0 <= i < post.len() && 0 <= j < operands(post[i]).len() ==> #[trigger] frame_offset(
                operands(post[i])[j],
            ) is None,
    ensures
        frame_refs_within(code, env, lo, hi),
{
    lemma_refs_none(pre, env, lo, hi);
    lemma_refs_none(post, env, lo, hi);
    lemma_refs_concat(pre, body, env, lo, hi);
    lemma_refs_concat(pre + body, post, env, lo, hi);
}

/// Every frame operand of a compiled function is one of its parameters,
/// above the frame pointer, or a slot inside the frame that its prologue
/// reserves below the frame pointer.
pub proof fn lemma_defn_frame_sound(
    d: DefinitionV,
    funcs: Map<Seq<char>, (nat, Seq<char>)>,
    c: int,
    i: int,
    j: int,
)
    requires
        compile_defn_spec(d, funcs, c) is Ok,
        compile_bounds(d.body, 1, c),
        d.params.len() < 0x0800_0000,
        0 <= i < compile_defn_spec(d, funcs, c)->Ok_0.0.len(),
        0 <= j < operands(compile_defn_spec(d, funcs, c)->Ok_0.0[i]).len(),
        frame_offset(operands(compile_defn_spec(d, funcs, c)->Ok_0.0[i])[j]) is Some,
    ensures
        ({
            let off = frame_offset(operands(compile_defn_spec(d, funcs, c)->Ok_0.0[i])[j])->0 as int;
            param_slot(off, d.params.len()) || (-function_frame(d.body) <= off <= -8)
        }),
{
    let penv = param_env(d.params, d.params.len());
    let body = compile_spec(d.body, 1, penv, d.params.to_set(), funcs, c, None)->Ok_0.0;
    let fb = function_frame(d.body);
    let code = compile_defn_spec(d, funcs, c)->Ok_0.0;
    lemma_frame_refs(d.body, 1, penv, d.params.to_set(), funcs, c, None);
    let pre = seq![
        InstrV::ILabel(funcs[d.name].1),
        InstrV::IPush(Val::Reg(Reg::RBP)),
        InstrV::IMov(Val::Reg(Reg::RBP), Val::Reg(Reg::RSP)),
    ] + rsp_sub(fb);
    let post = rsp_add(fb) + seq![InstrV::IPop(Val::Reg(Reg::RBP)), InstrV::IRet];
    assert(code =~= pre + body + post);
    lemma_code_frame_refs(code, pre, body, post, penv, 1, max_slot(d.body, 1));
    let off = frame_offset(operands(code[i])[j])->0 as int;
    assert(ok_offset(off, penv, 1, max_slot(d.body, 1)));
    if !in_slots(off, 1, max_slot(d.body, 1)) {
        let x = choose|x: Seq<char>| #[trigger] penv.contains_key(x) && penv[x] == off;
        lemma_param_env_values(d.params, d.params.len(), x);
    }
}

/// Every frame operand of the entry point is a slot inside the frame that
/// its prologue reserves below the frame pointer, above the saved `r12`.
pub proof fn lemma_main_frame_sound(
    e: ExprV,
    funcs: Map<Seq<char>, (nat, Seq<char>)>,
    c: int,
    i: int,
    j: int,
)
    requires
        compile_main_spec(e, funcs, c) is Ok,
        compile_bounds(e, 1, c),
        0 <= i < compile_main_spec(e, funcs, c)->Ok_0.0.len(),
        0 <= j < operands(compile_main_spec(e, funcs, c)->Ok_0.0[i]).len(),
        frame_offset(operands(compile_main_spec(e, funcs, c)->Ok_0.0[i])[j]) is Some,
    ensures
        ({
            let off = frame_offset(operands(compile_main_spec(e, funcs, c)->Ok_0.0[i])[j])->0 as int;
            -main_frame(e) <= off <= -8
        }),
{
    let env = Map::<Seq<char>, i32>::empty();
    let body = compile_spec(e, 1, env, Set::empty(), funcs, c, None)->Ok_0.0;
    let fb = main_frame(e);
    let code = compile_main_spec(e, funcs, c)->Ok_0.0;
    lemma_frame_refs(e, 1, env, Set::empty(), funcs, c, None);
    let pre = seq![
        InstrV::ILabel("our_code_starts_here"@),
        InstrV::IPush(Val::Reg(Reg::RBP)),
        InstrV::IMov(Val::Reg(Reg::RBP), Val::Reg(Reg::RSP)),
    ] + rsp_sub(fb) + seq![
        InstrV::IPush(Val::Reg(Reg::R12)),
        InstrV::IMov(Val::Reg(Reg::R12), Val::Reg(Reg::RDI)),
    ];
    let post = seq![InstrV::IPop(Val::Reg(Reg::R12))] + rsp_add(fb) + seq![
        InstrV::IPop(Val::Reg(Reg::RBP)),
        InstrV::IRet,
    ];
    assert(code =~= pre + body + post);
    lemma_code_frame_refs(code, pre, body, post, env, 1, max_slot(e, 1));
    let off = frame_offset(operands(code[i])[j])->0 as int;
    assert(ok_offset(off, env, 1, max_slot(e, 1)));
}

/// Frames keep the stack 16-byte aligned and hold all slots: a function's
/// frame is a multiple of 16, the entry point's is 8 more than a multiple of
/// 16 (it also saves `r12`), and both cover `8 * slots` bytes.
pub proof fn lemma_frame_alignment(slots: int)
    requires
        slots >= 0,
    ensures
        align_function_spec(8 * slots) % 16 == 0,
        align_function_spec(8 * slots) >= 8 * slots,
        align_main_spec(8 * slots) % 16 == 8,
        align_main_spec(8 * slots) >= 8 * slots,
{
}

/// The words that a call pushes, with its padding, keep the stack 16-byte
/// aligned.
pub proof fn lemma_call_alignment(n: nat)
    ensures
        (n * 8 + if n % 2 == 1 { 8int } else { 0int }) % 16 == 0,
{
}

} // verus!
