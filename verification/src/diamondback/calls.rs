//! The calling convention of the generated code: a call stores each
//! argument in its own slot and pushes the slots so that argument `i` lies
//! `i` words above the stack pointer at the call, and a function finds its
//! parameter `i` at `16 + 8 * i` above its frame pointer, past the saved
//! frame pointer and the return address.
use vstd::prelude::*;
use crate::diamondback::syntax::ExprV;
use crate::diamondback::machine::{Val, InstrV};
use crate::diamondback::compile::{compile_spec, call_args, call_tail, pushes, param_env, first_dup,
    slot_off, frame, rax};

verus! {

/// The words that a sequence of instructions pushes, the last pushed first.
pub open spec fn pushed_words(is: Seq<InstrV>) -> Seq<Val>
    decreases is.len(),
{
    if is.len() == 0 {
        Seq::empty()
    } else {
        match is.last() {
            InstrV::IPush(v) => seq![v] + pushed_words(is.drop_last()),
            _ => pushed_words(is.drop_last()),
        }
    }
}

/// The stack slot where a call with `n` arguments, compiled with stack index
/// `si`, stores its argument `i`.
pub open spec fn argument_slot(si: int, n: int, i: int) -> int {
    si + n - 1 - i
}

proof fn lemma_pushed_concat(a: Seq<InstrV>, b: Seq<InstrV>)
    ensures
        pushed_words(a + b) == pushed_words(b) + pushed_words(a),
    decreases b.len(),
{
    if b.len() == 0 {
        assert(a + b =~= a);
        assert(pushed_words(b) + pushed_words(a) =~= pushed_words(a));
    } else {
        lemma_pushed_concat(a, b.drop_last());
        assert((a + b).drop_last() =~= a + b.drop_last());
        assert((a + b).last() == b.last());
        match b.last() {
            InstrV::IPush(v) => {
                assert(pushed_words(a + b) =~= pushed_words(b) + pushed_words(a));
            },
            _ => {},
        }
    }
}

proof fn lemma_pushed_none(is: Seq<InstrV>)
    requires
        forall|k: int| 0 <= k < is.len() ==> !(#[trigger] is[k] is IPush),
    ensures
        pushed_words(is) == Seq::<Val>::empty(),
    decreases is.len(),
{
    if is.len() > 0 {
        assert forall|k: int| 0 <= k < is.drop_last().len() implies !(#[trigger] is.drop_last()[k] is IPush) by {
            assert(is.drop_last()[k] == is[k]);
        }
        lemma_pushed_none(is.drop_last());
        assert(!(is[is.len() - 1] is IPush));
    }
}

/// After the pushes of slots `si .. si + n`, the slot `si + n - 1 - m` is
/// `m` words from the top.
proof fn lemma_pushes_order(si: int, n: nat)
    ensures
        pushed_words(pushes(si, n)).len() == n,
        forall|m: int|
            0 <= m < n ==> #[trigger] pushed_words(pushes(si, n))[m] == frame(
                slot_off(si + n - 1 - m),
            ),
    decreases n,
{
    if n > 0 {
        lemma_pushes_order(si, (n - 1) as nat);
        let p = pushes(si, n);
        assert(p.drop_last() =~= pushes(si, (n - 1) as nat));
        assert(p.last() == InstrV::IPush(frame(slot_off(si + n - 1))));
        let w = pushed_words(p);
        assert(w == seq![frame(slot_off(si + n - 1))] + pushed_words(pushes(si, (n - 1) as nat)));
        assert forall|m: int| 0 <= m < n implies #[trigger] w[m] == frame(slot_off(si + n - 1 - m)) by {
            if m > 0 {
                assert(w[m] == pushed_words(pushes(si, (n - 1) as nat))[m - 1]);
            }
        }
    }
}

/// The code of the last `k` arguments of a call, seen from argument
/// `args.len() - j` for `j <= k`: the code of the arguments after it, its own
/// code, the store into its slot, and the code of the arguments before it.
proof fn lemma_call_args_split(
    args: Seq<ExprV>,
    k: nat,
    j: nat,
    si: int,
    env: Map<Seq<char>, i32>,
    params: Set<Seq<char>>,
    funcs: Map<Seq<char>, (nat, Seq<char>)>,
    c: int,
    brk: Option<Seq<char>>,
) -> (post: Seq<InstrV>)
    requires
        1 <= j <= k <= args.len(),
        call_args(args, k, si, env, params, funcs, c, brk) is Ok,
    ensures
        call_args(args, (j - 1) as nat, si, env, params, funcs, c, brk) is Ok,
        compile_spec(
            args[args.len() - j],
            si + j - 1,
            env,
            params,
            funcs,
            call_args(args, (j - 1) as nat, si, env, params, funcs, c, brk)->Ok_0.1,
            brk,
        ) is Ok,
        call_args(args, k, si, env, params, funcs, c, brk)->Ok_0.0 == call_args(
                args,
                (j - 1) as nat,
                si,
                env,
                params,
                funcs,
                c,
                brk,
            )->Ok_0.0 + compile_spec(
                args[args.len() - j],
                si + j - 1,
                env,
                params,
                funcs,
                call_args(args, (j - 1) as nat, si, env, params, funcs, c, brk)->Ok_0.1,
                brk,
            )->Ok_0.0 + seq![InstrV::IMov(frame(slot_off(si + j - 1)), rax())] + post,
    decreases k,
{
    let (is, c1) = call_args(args, (k - 1) as nat, si, env, params, funcs, c, brk)->Ok_0;
    let slot = si + k - 1;
    let (ie, c2) = compile_spec(args[args.len() - k], slot, env, params, funcs, c1, brk)->Ok_0;
    let code = call_args(args, k, si, env, params, funcs, c, brk)->Ok_0.0;
    let st = seq![InstrV::IMov(frame(slot_off(slot)), rax())];
    assert(code == is + ie.push(InstrV::IMov(frame(slot_off(slot)), rax())));
    if j == k {
        assert(code =~= is + ie + st + Seq::<InstrV>::empty());
        Seq::empty()
    } else {
        let post = lemma_call_args_split(args, (k - 1) as nat, j, si, env, params, funcs, c, brk);
        let (pj, cj) = call_args(args, (j - 1) as nat, si, env, params, funcs, c, brk)->Ok_0;
        let ij = compile_spec(args[args.len() - j], si + j - 1, env, params, funcs, cj, brk)->Ok_0.0;
        let sj = seq![InstrV::IMov(frame(slot_off(si + j - 1)), rax())];
        assert(code =~= pj + ij + sj + (post + ie + st));
        post + ie + st
    }
}

/// A call stores its argument `i` in `argument_slot(si, n, i)`: the code of
/// its arguments is some code, then the code of argument `i` (compiled with
/// some label counter), then the store of `rax` into that slot, then the
/// rest; the three are returned.  The words that the call then pushes put
/// that slot `i` words above the stack pointer at the call instruction.
pub proof fn lemma_call_argument_order(
    args: Seq<ExprV>,
    si: int,
    env: Map<Seq<char>, i32>,
    params: Set<Seq<char>>,
    funcs: Map<Seq<char>, (nat, Seq<char>)>,
    c: int,
    brk: Option<Seq<char>>,
    label: Seq<char>,
    i: int,
) -> (parts: (Seq<InstrV>, int, Seq<InstrV>))
    requires
        call_args(args, args.len(), si, env, params, funcs, c, brk) is Ok,
        0 <= i < args.len(),
    ensures
        compile_spec(
            args[i],
            argument_slot(si, args.len() as int, i),
            env,
            params,
            funcs,
            parts.1,
            brk,
        ) is Ok,
        call_args(args, args.len(), si, env, params, funcs, c, brk)->Ok_0.0 == parts.0
            + compile_spec(
            args[i],
            argument_slot(si, args.len() as int, i),
            env,
            params,
            funcs,
            parts.1,
            brk,
        )->Ok_0.0 + seq![
            InstrV::IMov(frame(slot_off(argument_slot(si, args.len() as int, i))), rax()),
        ] + parts.2,
        pushed_words(call_tail(si, args.len(), label)).len() == args.len(),
        pushed_words(call_tail(si, args.len(), label))[i] == frame(
            slot_off(argument_slot(si, args.len() as int, i)),
        ),
{
    let n = args.len();
    let j = (n - i) as nat;
    let post = lemma_call_args_split(args, n, j, si, env, params, funcs, c, brk);
    assert(args.len() - j == i);
    let (pj, cj) = call_args(args, (j - 1) as nat, si, env, params, funcs, c, brk)->Ok_0;
    assert(argument_slot(si, n as int, i) == si + j - 1);
    let pad: int = if n % 2 == 1 { 8 } else { 0 };
    let cleanup: int = n * 8 + pad;
    let a: Seq<InstrV> = if pad > 0 {
        seq![InstrV::ISub(Val::Reg(crate::diamondback::machine::Reg::RSP), Val::Imm(pad as i64))]
    } else {
        Seq::empty()
    };
    let d: Seq<InstrV> = if cleanup > 0 {
        seq![InstrV::IAdd(Val::Reg(crate::diamondback::machine::Reg::RSP), Val::Imm(cleanup as i64))]
    } else {
        Seq::empty()
    };
    let call = seq![InstrV::ICall(label)];
    let p = pushes(si, n);
    assert(call_tail(si, n, label) == a + p + call + d);
    lemma_pushed_none(a);
    lemma_pushed_none(call);
    lemma_pushed_none(d);
    lemma_pushed_concat(a, p);
    lemma_pushed_concat(a + p, call);
    lemma_pushed_concat(a + p + call, d);
    lemma_pushes_order(si, n);
    assert(pushed_words(call_tail(si, n, label)) =~= pushed_words(p));
    assert(pushed_words(p)[i] == frame(slot_off(si + n - 1 - i)));
    (pj, cj, post)
}

/// A function whose parameters are distinct, and few enough that their
/// offsets fit in 32 bits, finds its parameter `i` at
/// `16 + 8 * i` above its frame pointer: past the saved frame pointer, the
/// return address and the `i` argument words above them.
pub proof fn lemma_parameter_offsets(ps: Seq<Seq<char>>, i: int)
    requires
        first_dup(ps, ps.len()) is None,
        ps.len() < 0x0800_0000,
        0 <= i < ps.len(),
    ensures
        param_env(ps, ps.len()).contains_key(ps[i]),
        param_env(ps, ps.len())[ps[i]] == 16 + 8 * i,
{
    lemma_params_distinct(ps, ps.len());
    lemma_param_env_at(ps, ps.len(), i);
}

/// No parameter among the first `k` repeats an earlier one when `first_dup`
/// finds none.
proof fn lemma_params_distinct(ps: Seq<Seq<char>>, k: nat)
    requires
        k <= ps.len(),
        first_dup(ps, k) is None,
    ensures
        forall|a: int, b: int| 0 <= a < b < k ==> #[trigger] ps[a] != #[trigger] ps[b],
    decreases k,
{
    if k > 0 {
        lemma_params_distinct(ps, (k - 1) as nat);
        assert forall|a: int, b: int| 0 <= a < b < k implies #[trigger] ps[a] != #[trigger] ps[b] by {
            if b == k - 1 {
                if ps[a] == ps[b] {
                    assert(exists|j: int| 0 <= j < k - 1 && #[trigger] ps[j] == ps[k - 1]);
                }
            }
        }
    }
}

proof fn lemma_param_env_at(ps: Seq<Seq<char>>, k: nat, i: int)
    requires
        k <= ps.len(),
        k < 0x0800_0000,
        0 <= i < k,
        forall|a: int, b: int| 0 <= a < b < k ==> #[trigger] ps[a] != #[trigger] ps[b],
    ensures
        param_env(ps, k).contains_key(ps[i]),
        param_env(ps, k)[ps[i]] == 16 + 8 * i,
    decreases k,
{
    if i < k - 1 {
        lemma_param_env_at(ps, (k - 1) as nat, i);
        assert(ps[i] != ps[k - 1]);
    }
}

} // verus!
