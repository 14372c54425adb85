//! Labels of the generated code: each label is defined once, and each jump
//! lands on a label that the code defines.
use vstd::prelude::*;
use crate::text::{label_text, lemma_label_text_injective, lemma_label_ends_in_digit};
use crate::cobra::machine::InstrV;
use crate::cobra::syntax::{ExprV, UnOp, BinOp};
use crate::cobra::compile::{error_label, compile_spec, let_prefix, block_prefix, unop_tail,
    binop_tail, bool_result_spec, check_number_spec, with_label, is_cond_jump, slot_offset, stack,
    rax, epilogue};
use crate::cobra::machine::{Val, Reg};
use crate::tagging::FALSE_VAL;

verus! {

/// The name that an instruction defines, if it is a label.
pub open spec fn defined_label(i: InstrV) -> Option<Seq<char>> {
    match i {
        InstrV::ILabel(l) => Some(l),
        _ => None,
    }
}

/// The label that an instruction jumps to, if it is a jump.
pub open spec fn jump_target(i: InstrV) -> Option<Seq<char>> {
    match i {
        InstrV::IJmp(l) | InstrV::IJe(l) | InstrV::IJne(l) | InstrV::IJg(l) | InstrV::IJge(l)
        | InstrV::IJl(l) | InstrV::IJle(l) => Some(l),
        _ => None,
    }
}

/// The names held by an optional name.
pub open spec fn opt_names(o: Option<Seq<char>>) -> Set<Seq<char>> {
    match o {
        Some(l) => set![l],
        None => Set::empty(),
    }
}

/// The labels that a sequence of instructions defines.
pub open spec fn labels(is: Seq<InstrV>) -> Set<Seq<char>>
    decreases is.len(),
{
    if is.len() == 0 {
        Set::empty()
    } else {
        labels(is.drop_last()) + opt_names(defined_label(is.last()))
    }
}

/// The labels that a sequence of instructions jumps to.
pub open spec fn targets(is: Seq<InstrV>) -> Set<Seq<char>>
    decreases is.len(),
{
    if is.len() == 0 {
        Set::empty()
    } else {
        targets(is.drop_last()) + opt_names(jump_target(is.last()))
    }
}

/// Whether no label is defined twice.
pub open spec fn labels_unique(is: Seq<InstrV>) -> bool
    decreases is.len(),
{
    if is.len() == 0 {
        true
    } else {
        &&& labels_unique(is.drop_last())
        &&& match defined_label(is.last()) {
            Some(l) => !labels(is.drop_last()).contains(l),
            None => true,
        }
    }
}

/// The generated label names whose counter value lies in `ns`.
pub open spec fn numbered(ns: Set<int>) -> Set<Seq<char>> {
    Set::new(|l: Seq<char>| exists|p: Seq<char>, n: int| ns.contains(n) && l == label_text(p, n))
}

/// The counter values from `lo` up to, but not including, `hi`.
pub open spec fn counter_range(lo: int, hi: int) -> Set<int> {
    Set::new(|n: int| lo <= n < hi)
}

/// The labels outside an expression's code where it may jump: the handler of
/// invalid arguments and the end of the loop that it breaks out of.
pub open spec fn exits(brk: Option<Seq<char>>) -> Set<Seq<char>> {
    set![error_label()] + opt_names(brk)
}

/// Whether `is` defines each of its labels once, names them with counter
/// values from `ns`, and jumps only to its own labels or to labels in
/// `outside`.
pub open spec fn well_labelled(is: Seq<InstrV>, ns: Set<int>, outside: Set<Seq<char>>) -> bool {
    &&& labels_unique(is)
    &&& labels(is).subset_of(numbered(ns))
    &&& targets(is).subset_of(labels(is) + outside)
}

/// Labels, jump targets and uniqueness of a concatenation.
pub proof fn lemma_labels_concat(a: Seq<InstrV>, b: Seq<InstrV>)
    ensures
        labels(a + b) == labels(a) + labels(b),
        targets(a + b) == targets(a) + targets(b),
        labels_unique(a + b) == (labels_unique(a) && labels_unique(b) && labels(a).disjoint(
            labels(b),
        )),
    decreases b.len(),
{
    if b.len() == 0 {
        assert(a + b =~= a);
        assert(labels(b) =~= Set::empty());
        assert(targets(b) =~= Set::empty());
        assert(labels(a) + labels(b) =~= labels(a));
        assert(targets(a) + targets(b) =~= targets(a));
    } else {
        let b1 = b.drop_last();
        lemma_labels_concat(a, b1);
        assert((a + b).drop_last() =~= a + b1);
        assert((a + b).last() == b.last());
        assert(labels(a + b) =~= labels(a) + labels(b));
        assert(targets(a + b) =~= targets(a) + targets(b));
    }
}

/// Labels numbered from disjoint sets of counter values differ.
pub proof fn lemma_numbered_disjoint(n1: Set<int>, n2: Set<int>)
    requires
        n1.disjoint(n2),
    ensures
        numbered(n1).disjoint(numbered(n2)),
{
    assert forall|l: Seq<char>| numbered(n1).contains(l) implies !numbered(n2).contains(l) by {
        let (p, n) = choose|p: Seq<char>, n: int| n1.contains(n) && l == label_text(p, n);
        if numbered(n2).contains(l) {
            let (q, m) = choose|q: Seq<char>, m: int| n2.contains(m) && l == label_text(q, m);
            lemma_label_text_injective(p, n, q, m);
        }
    }
}

/// `numbered` grows with its set of counter values.
pub proof fn lemma_numbered_mono(n1: Set<int>, n2: Set<int>)
    requires
        n1.subset_of(n2),
    ensures
        numbered(n1).subset_of(numbered(n2)),
{
    assert forall|l: Seq<char>| numbered(n1).contains(l) implies numbered(n2).contains(l) by {
        let (p, n) = choose|p: Seq<char>, n: int| n1.contains(n) && l == label_text(p, n);
        assert(n2.contains(n) && l == label_text(p, n));
    }
}

/// Joining two well-labelled pieces whose counter values differ.
pub proof fn lemma_join(
    a: Seq<InstrV>,
    na: Set<int>,
    b: Seq<InstrV>,
    nb: Set<int>,
    outside: Set<Seq<char>>,
)
    requires
        well_labelled(a, na, outside),
        well_labelled(b, nb, outside),
        na.disjoint(nb),
    ensures
        well_labelled(a + b, na + nb, outside),
{
    lemma_labels_concat(a, b);
    lemma_numbered_disjoint(na, nb);
    lemma_numbered_mono(na, na + nb);
    lemma_numbered_mono(nb, na + nb);
}

/// A well-labelled piece stays so with more counter values and more labels
/// outside.
pub proof fn lemma_weaken(
    is: Seq<InstrV>,
    n1: Set<int>,
    o1: Set<Seq<char>>,
    n2: Set<int>,
    o2: Set<Seq<char>>,
)
    requires
        well_labelled(is, n1, o1),
        n1.subset_of(n2),
        o1.subset_of(o2),
    ensures
        well_labelled(is, n2, o2),
{
    lemma_numbered_mono(n1, n2);
}

/// Code that defines no label and jumps only to labels in `outside`.
pub proof fn lemma_plain(is: Seq<InstrV>, outside: Set<Seq<char>>)
    requires
        forall|k: int| 0 <= k < is.len() ==> (#[trigger] defined_label(is[k])) is None,
        forall|k: int|
            0 <= k < is.len() && (#[trigger] jump_target(is[k])) is Some ==> outside.contains(
                jump_target(is[k])->0,
            ),
    ensures
        labels(is) == Set::<Seq<char>>::empty(),
        well_labelled(is, Set::empty(), outside),
    decreases is.len(),
{
    if is.len() > 0 {
        let is1 = is.drop_last();
        assert forall|k: int| 0 <= k < is1.len() implies (#[trigger] defined_label(is1[k])) is None by {
            assert(is1[k] == is[k]);
        }
        assert forall|k: int|
            0 <= k < is1.len() && (#[trigger] jump_target(is1[k])) is Some implies outside.contains(
            jump_target(is1[k])->0,
        ) by {
            assert(is1[k] == is[k]);
        }
        lemma_plain(is1, outside);
        assert(defined_label(is[is.len() - 1]) is None);
        if jump_target(is[is.len() - 1]) is Some {
            assert(outside.contains(jump_target(is[is.len() - 1])->0));
        }
        assert(labels(is) =~= Set::<Seq<char>>::empty());
    } else {
        assert(labels(is) =~= Set::<Seq<char>>::empty());
    }
}

/// The labels, targets and uniqueness of a single label.
pub proof fn lemma_single_label(l: Seq<char>)
    ensures
        labels(seq![InstrV::ILabel(l)]) == set![l],
        targets(seq![InstrV::ILabel(l)]) == Set::<Seq<char>>::empty(),
        labels_unique(seq![InstrV::ILabel(l)]),
{
    let is = seq![InstrV::ILabel(l)];
    assert(is.drop_last() =~= Seq::<InstrV>::empty());
    assert(labels(is.drop_last()) == Set::<Seq<char>>::empty());
    assert(targets(is.drop_last()) == Set::<Seq<char>>::empty());
    assert(is.last() == InstrV::ILabel(l));
    assert(labels(is) =~= set![l]);
    assert(targets(is) =~= Set::<Seq<char>>::empty());
    assert(labels_unique(is.drop_last()));
}

/// A single label made from counter value `n`.
pub proof fn lemma_one_label(p: Seq<char>, n: int, outside: Set<Seq<char>>)
    ensures
        labels(seq![InstrV::ILabel(label_text(p, n))]) == set![label_text(p, n)],
        well_labelled(seq![InstrV::ILabel(label_text(p, n))], set![n], outside),
{
    lemma_single_label(label_text(p, n));
    assert(numbered(set![n]).contains(label_text(p, n))) by {
        assert(set![n].contains(n) && label_text(p, n) == label_text(p, n));
    }
}

/// Joining two well-labelled pieces numbered from consecutive ranges.
pub proof fn lemma_join_ranges(
    a: Seq<InstrV>,
    lo: int,
    mid: int,
    b: Seq<InstrV>,
    hi: int,
    outside: Set<Seq<char>>,
)
    requires
        well_labelled(a, counter_range(lo, mid), outside),
        well_labelled(b, counter_range(mid, hi), outside),
        lo <= mid <= hi,
    ensures
        well_labelled(a + b, counter_range(lo, hi), outside),
{
    lemma_join(a, counter_range(lo, mid), b, counter_range(mid, hi), outside);
    assert(counter_range(lo, mid) + counter_range(mid, hi) =~= counter_range(lo, hi));
}

/// Code that jumps to labels that it defines itself needs no label outside
/// for them.
pub proof fn lemma_close(is: Seq<InstrV>, ns: Set<int>, outside: Set<Seq<char>>, own: Set<Seq<char>>)
    requires
        well_labelled(is, ns, outside + own),
        own.subset_of(labels(is)),
    ensures
        well_labelled(is, ns, outside),
{
}

/// Plain code, then a label made from `c`, plain code, and a label made from
/// `c + 1`, where the plain code jumps only to those two labels or outside.
pub proof fn lemma_two_labels(
    p1: Seq<InstrV>,
    pa: Seq<char>,
    p2: Seq<InstrV>,
    pb: Seq<char>,
    c: int,
    outside: Set<Seq<char>>,
)
    requires
        forall|k: int| 0 <= k < p1.len() ==> (#[trigger] defined_label(p1[k])) is None,
        forall|k: int| 0 <= k < p2.len() ==> (#[trigger] defined_label(p2[k])) is None,
        forall|k: int|
            0 <= k < p1.len() && (#[trigger] jump_target(p1[k])) is Some ==> (outside + set![
                label_text(pa, c),
                label_text(pb, c + 1),
            ]).contains(jump_target(p1[k])->0),
        forall|k: int|
            0 <= k < p2.len() && (#[trigger] jump_target(p2[k])) is Some ==> (outside + set![
                label_text(pa, c),
                label_text(pb, c + 1),
            ]).contains(jump_target(p2[k])->0),
    ensures
        well_labelled(
            p1 + seq![InstrV::ILabel(label_text(pa, c))] + p2 + seq![
                InstrV::ILabel(label_text(pb, c + 1)),
            ],
            counter_range(c, c + 2),
            outside,
        ),
{
    let own = set![label_text(pa, c), label_text(pb, c + 1)];
    let o = outside + own;
    let la = seq![InstrV::ILabel(label_text(pa, c))];
    let lb = seq![InstrV::ILabel(label_text(pb, c + 1))];
    lemma_plain(p1, o);
    lemma_plain(p2, o);
    lemma_one_label(pa, c, o);
    lemma_one_label(pb, c + 1, o);
    lemma_join(p1, Set::empty(), la, set![c], o);
    assert(Set::<int>::empty() + set![c] =~= set![c]);
    lemma_join(p1 + la, set![c], p2, Set::empty(), o);
    assert(set![c] + Set::<int>::empty() =~= set![c]);
    lemma_join(p1 + la + p2, set![c], lb, set![c + 1], o);
    let all = p1 + la + p2 + lb;
    lemma_labels_concat(p1 + la + p2, lb);
    lemma_labels_concat(p1 + la, p2);
    lemma_labels_concat(p1, la);
    assert(own.subset_of(labels(all)));
    lemma_close(all, set![c] + set![c + 1], outside, own);
    lemma_weaken(all, set![c] + set![c + 1], outside, counter_range(c, c + 2), outside);
}

/// The code that sets `rax` from a conditional jump is well labelled.
pub proof fn lemma_bool_result(j: InstrV, c: int, outside: Set<Seq<char>>)
    requires
        is_cond_jump(j),
    ensures
        well_labelled(bool_result_spec(j, c), counter_range(c, c + 2), outside),
{
    let t = label_text("bool_true"@, c);
    let end = label_text("bool_end"@, c + 1);
    let p1 = seq![with_label(j, t), InstrV::IMov(rax(), Val::Imm(crate::tagging::FALSE_VAL)), InstrV::IJmp(end)];
    let p2 = seq![InstrV::IMov(rax(), Val::Imm(crate::tagging::TRUE_VAL))];
    assert(jump_target(p1[0]) == Some(t));
    lemma_two_labels(p1, "bool_true"@, p2, "bool_end"@, c, outside);
    assert(bool_result_spec(j, c) =~= p1 + seq![InstrV::ILabel(t)] + p2 + seq![InstrV::ILabel(end)]);
}

/// The code of a unary operator is well labelled, and moves the counter
/// forward.
pub proof fn lemma_unop_tail(op: UnOp, c: int, brk: Option<Seq<char>>)
    ensures
        c <= unop_tail(op, c).1,
        well_labelled(unop_tail(op, c).0, counter_range(c, unop_tail(op, c).1), exits(brk)),
{
    let x = exits(brk);
    let tail = unop_tail(op, c).0;
    match op {
        UnOp::IsNum => {
            let f = label_text("isnum_false"@, c);
            let end = label_text("isnum_end"@, c + 1);
            let p1 = seq![
                InstrV::ITest(rax(), Val::Imm(crate::tagging::NUM_TAG_MASK)),
                InstrV::IJne(f),
                InstrV::IMov(rax(), Val::Imm(crate::tagging::TRUE_VAL)),
                InstrV::IJmp(end),
            ];
            let p2 = seq![InstrV::IMov(rax(), Val::Imm(FALSE_VAL))];
            assert(jump_target(p1[1]) == Some(f));
            assert(jump_target(p1[3]) == Some(end));
            lemma_two_labels(p1, "isnum_false"@, p2, "isnum_end"@, c, x);
            assert(tail =~= p1 + seq![InstrV::ILabel(f)] + p2 + seq![InstrV::ILabel(end)]);
        },
        UnOp::IsBool => {
            let t = label_text("isbool_true"@, c);
            let end = label_text("isbool_end"@, c + 1);
            let p1 = seq![
                InstrV::ITest(rax(), Val::Imm(crate::tagging::BOOL_TAG_MASK)),
                InstrV::IJne(t),
                InstrV::IMov(rax(), Val::Imm(FALSE_VAL)),
                InstrV::IJmp(end),
            ];
            let p2 = seq![InstrV::IMov(rax(), Val::Imm(crate::tagging::TRUE_VAL))];
            assert(jump_target(p1[1]) == Some(t));
            assert(jump_target(p1[3]) == Some(end));
            lemma_two_labels(p1, "isbool_true"@, p2, "isbool_end"@, c, x);
            assert(tail =~= p1 + seq![InstrV::ILabel(t)] + p2 + seq![InstrV::ILabel(end)]);
        },
        _ => {
            assert(jump_target(tail[1]) == Some(error_label()));
            lemma_plain(tail, x);
            lemma_weaken(tail, Set::empty(), x, counter_range(c, c), x);
        },
    }
}

/// The code of a binary operator is well labelled, and moves the counter
/// forward.
pub proof fn lemma_binop_tail(
    op: BinOp,
    lo: i32,
    ro: i32,
    c: int,
    brk: Option<Seq<char>>,
)
    ensures
        c <= binop_tail(op, lo, ro, c).1,
        well_labelled(
            binop_tail(op, lo, ro, c).0,
            counter_range(c, binop_tail(op, lo, ro, c).1),
            exits(brk),
        ),
{
    let x = exits(brk);
    let l = stack(lo);
    let r = stack(ro);
    let checks = check_number_spec(l) + check_number_spec(r);
    let tail = binop_tail(op, lo, ro, c).0;
    let empty = Set::<int>::empty();
    match op {
        BinOp::Plus | BinOp::Minus | BinOp::Times => {
            assert(jump_target(tail[1]) == Some(error_label()));
            assert(jump_target(tail[3]) == Some(error_label()));
            lemma_plain(tail, x);
            lemma_weaken(tail, empty, x, counter_range(c, c), x);
        },
        BinOp::Equal => {
            let pre = seq![
                InstrV::IMov(Val::Reg(Reg::R10), l),
                InstrV::IAnd(
                    Val::Reg(Reg::R10),
                    Val::Imm(crate::tagging::BOOL_TAG_MASK),
                ),
                InstrV::IMov(rax(), r),
                InstrV::IAnd(rax(), Val::Imm(crate::tagging::BOOL_TAG_MASK)),
                InstrV::ICmp(Val::Reg(Reg::R10), rax()),
                InstrV::IJne(error_label()),
                InstrV::IMov(rax(), l),
                InstrV::ICmp(rax(), r),
            ];
            assert(jump_target(pre[5]) == Some(error_label()));
            lemma_plain(pre, x);
            lemma_weaken(pre, empty, x, counter_range(c, c), x);
            lemma_bool_result(InstrV::IJe(Seq::empty()), c, x);
            lemma_join_ranges(pre, c, c, bool_result_spec(InstrV::IJe(Seq::empty()), c), c + 2, x);
        },
        _ => {
            let pre = checks + seq![InstrV::IMov(rax(), l), InstrV::ICmp(rax(), r)];
            assert(jump_target(pre[1]) == Some(error_label()));
            assert(jump_target(pre[3]) == Some(error_label()));
            lemma_plain(pre, x);
            lemma_weaken(pre, empty, x, counter_range(c, c), x);
            let j = match op {
                BinOp::Less => InstrV::IJl(Seq::empty()),
                BinOp::Greater => InstrV::IJg(Seq::empty()),
                BinOp::LessEq => InstrV::IJle(Seq::empty()),
                _ => InstrV::IJge(Seq::empty()),
            };
            lemma_bool_result(j, c, x);
            lemma_join_ranges(pre, c, c, bool_result_spec(j, c), c + 2, x);
        },
    }
}

/// The code of an expression defines each of its labels once, names them
/// with the counter values that its compilation used, and jumps only to its
/// own labels, to the handler of invalid arguments, or to the end of the loop
/// that it breaks out of.
pub proof fn lemma_code_labels(
    e: ExprV,
    si: int,
    env: Map<Seq<char>, i32>,
    c: int,
    brk: Option<Seq<char>>,
)
    requires
        compile_spec(e, si, env, c, brk) is Ok,
    ensures
        c <= compile_spec(e, si, env, c, brk)->Ok_0.1,
        well_labelled(
            compile_spec(e, si, env, c, brk)->Ok_0.0,
            counter_range(c, compile_spec(e, si, env, c, brk)->Ok_0.1),
            exits(brk),
        ),
    decreases e, 1nat,
{
    let x = exits(brk);
    let code = compile_spec(e, si, env, c, brk)->Ok_0.0;
    let empty = Set::<int>::empty();
    match e {
        ExprV::UnOp(op, a) => {
            let (ia, c1) = compile_spec(*a, si, env, c, brk)->Ok_0;
            lemma_code_labels(*a, si, env, c, brk);
            lemma_unop_tail(op, c1, brk);
            lemma_join_ranges(ia, c, c1, unop_tail(op, c1).0, unop_tail(op, c1).1, x);
        },
        ExprV::BinOp(..) => {
            lemma_code_labels_binop(e, si, env, c, brk);
        },
        ExprV::If(..) => {
            lemma_code_labels_if(e, si, env, c, brk);
        },
        ExprV::Loop(..) => {
            lemma_code_labels_loop(e, si, env, c, brk);
        },
        ExprV::Let(bs, body) => {
            let (ib, env1, c1) = let_prefix(bs, bs.len(), si, env, c, brk)->Ok_0;
            lemma_let_labels(bs, bs.len(), si, env, c, brk);
            let (ie, c2) = compile_spec(*body, si + bs.len(), env1, c1, brk)->Ok_0;
            lemma_code_labels(*body, si + bs.len(), env1, c1, brk);
            lemma_join_ranges(ib, c, c1, ie, c2, x);
        },
        ExprV::Block(es) => {
            lemma_block_labels(es, es.len(), si, env, c, brk);
        },
        ExprV::Break(a) => {
            let (ia, c1) = compile_spec(*a, si, env, c, brk)->Ok_0;
            lemma_code_labels(*a, si, env, c, brk);
            let tail = seq![InstrV::IJmp(brk->0)];
            assert(jump_target(tail[0]) == Some(brk->0));
            lemma_plain(tail, x);
            lemma_weaken(tail, empty, x, counter_range(c1, c1), x);
            lemma_join_ranges(ia, c, c1, tail, c1, x);
            assert(code =~= ia + tail);
        },
        ExprV::Assign(name, a) => {
            let (ia, c1) = compile_spec(*a, si, env, c, brk)->Ok_0;
            lemma_code_labels(*a, si, env, c, brk);
            let tail = seq![InstrV::IMov(stack(env[name]), rax())];
            lemma_plain(tail, x);
            lemma_weaken(tail, empty, x, counter_range(c1, c1), x);
            lemma_join_ranges(ia, c, c1, tail, c1, x);
            assert(code =~= ia + tail);
        },
        _ => {
            lemma_plain(code, x);
            lemma_weaken(code, empty, x, counter_range(c, c), x);
        },
    }
}

/// A store of `rax` is well labelled.
proof fn lemma_store(v: Val, c: int, x: Set<Seq<char>>)
    ensures
        well_labelled(seq![InstrV::IMov(v, rax())], counter_range(c, c), x),
{
    lemma_plain(seq![InstrV::IMov(v, rax())], x);
    lemma_weaken(seq![InstrV::IMov(v, rax())], Set::empty(), x, counter_range(c, c), x);
}

proof fn lemma_code_labels_binop(
    e: ExprV,
    si: int,
    env: Map<Seq<char>, i32>,
    c: int,
    brk: Option<Seq<char>>,
)
    requires
        e is BinOp,
        compile_spec(e, si, env, c, brk) is Ok,
    ensures
        c <= compile_spec(e, si, env, c, brk)->Ok_0.1,
        well_labelled(
            compile_spec(e, si, env, c, brk)->Ok_0.0,
            counter_range(c, compile_spec(e, si, env, c, brk)->Ok_0.1),
            exits(brk),
        ),
    decreases e, 0nat,
{
    let x = exits(brk);
    let code = compile_spec(e, si, env, c, brk)->Ok_0.0;
    if let ExprV::BinOp(op, a, b) = e {
        let (ia, c1) = compile_spec(*a, si, env, c, brk)->Ok_0;
        let (ib, c2) = compile_spec(*b, si + 1, env, c1, brk)->Ok_0;
        lemma_code_labels(*a, si, env, c, brk);
        lemma_code_labels(*b, si + 1, env, c1, brk);
        let lo = slot_offset(si);
        let ro = slot_offset(si + 1);
        let sl = seq![InstrV::IMov(stack(lo), rax())];
        let sr = seq![InstrV::IMov(stack(ro), rax())];
        let tail = binop_tail(op, lo, ro, c2);
        lemma_store(stack(lo), c1, x);
        lemma_store(stack(ro), c2, x);
        lemma_binop_tail(op, lo, ro, c2, brk);
        lemma_join_ranges(ia, c, c1, sl, c1, x);
        lemma_join_ranges(ia + sl, c, c1, ib, c2, x);
        lemma_join_ranges(ia + sl + ib, c, c2, sr, c2, x);
        lemma_join_ranges(ia + sl + ib + sr, c, c2, tail.0, tail.1, x);
        assert(code =~= ia + sl + ib + sr + tail.0);
    }
}

proof fn lemma_code_labels_if(
    e: ExprV,
    si: int,
    env: Map<Seq<char>, i32>,
    c: int,
    brk: Option<Seq<char>>,
)
    requires
        e is If,
        compile_spec(e, si, env, c, brk) is Ok,
    ensures
        c <= compile_spec(e, si, env, c, brk)->Ok_0.1,
        well_labelled(
            compile_spec(e, si, env, c, brk)->Ok_0.0,
            counter_range(c, compile_spec(e, si, env, c, brk)->Ok_0.1),
            exits(brk),
        ),
    decreases e, 0nat,
{
    let code = compile_spec(e, si, env, c, brk)->Ok_0.0;
    if let ExprV::If(cond, thn, els) = e {
        let else_label = label_text("if_else"@, c);
        let end_label = label_text("if_end"@, c + 1);
        let own = set![else_label, end_label];
        let x = exits(brk);
        let o = x + own;
        let (ic, c1) = compile_spec(*cond, si, env, c + 2, brk)->Ok_0;
        let (it, c2) = compile_spec(*thn, si, env, c1, brk)->Ok_0;
        let (ie, c3) = compile_spec(*els, si, env, c2, brk)->Ok_0;
        lemma_code_labels(*cond, si, env, c + 2, brk);
        lemma_code_labels(*thn, si, env, c1, brk);
        lemma_code_labels(*els, si, env, c2, brk);
        lemma_weaken(ic, counter_range(c + 2, c1), x, counter_range(c + 2, c1), o);
        lemma_weaken(it, counter_range(c1, c2), x, counter_range(c1, c2), o);
        lemma_weaken(ie, counter_range(c2, c3), x, counter_range(c2, c3), o);
        let test = seq![InstrV::ICmp(rax(), Val::Imm(FALSE_VAL)), InstrV::IJe(else_label)];
        assert(jump_target(test[1]) == Some(else_label));
        lemma_plain(test, o);
        lemma_weaken(test, Set::empty(), o, counter_range(c1, c1), o);
        let skip = seq![InstrV::IJmp(end_label)];
        assert(jump_target(skip[0]) == Some(end_label));
        lemma_plain(skip, o);
        lemma_weaken(skip, Set::empty(), o, counter_range(c2, c2), o);
        let le = seq![InstrV::ILabel(else_label)];
        let lend = seq![InstrV::ILabel(end_label)];
        lemma_one_label("if_else"@, c, o);
        lemma_one_label("if_end"@, c + 1, o);
        lemma_join_ranges(ic, c + 2, c1, test, c1, o);
        lemma_join_ranges(ic + test, c + 2, c1, it, c2, o);
        lemma_join_ranges(ic + test + it, c + 2, c2, skip, c2, o);
        let p = ic + test + it + skip;
        lemma_join(p, counter_range(c + 2, c2), le, set![c], o);
        lemma_join(p + le, counter_range(c + 2, c2) + set![c], ie, counter_range(c2, c3), o);
        let q = p + le + ie;
        let nq = counter_range(c + 2, c2) + set![c] + counter_range(c2, c3);
        lemma_join(q, nq, lend, set![c + 1], o);
        assert(code =~= q + lend);
        lemma_labels_concat(q, lend);
        lemma_labels_concat(p, le);
        lemma_labels_concat(p + le, ie);
        assert(own.subset_of(labels(code)));
        lemma_close(code, nq + set![c + 1], x, own);
        lemma_weaken(code, nq + set![c + 1], x, counter_range(c, c3), x);
    }
}

proof fn lemma_code_labels_loop(
    e: ExprV,
    si: int,
    env: Map<Seq<char>, i32>,
    c: int,
    brk: Option<Seq<char>>,
)
    requires
        e is Loop,
        compile_spec(e, si, env, c, brk) is Ok,
    ensures
        c <= compile_spec(e, si, env, c, brk)->Ok_0.1,
        well_labelled(
            compile_spec(e, si, env, c, brk)->Ok_0.0,
            counter_range(c, compile_spec(e, si, env, c, brk)->Ok_0.1),
            exits(brk),
        ),
    decreases e, 0nat,
{
    let code = compile_spec(e, si, env, c, brk)->Ok_0.0;
    if let ExprV::Loop(body) = e {
        let start_label = label_text("loop_start"@, c);
        let end_label = label_text("loop_end"@, c + 1);
        let own = set![start_label, end_label];
        let x = exits(brk);
        let o = x + own;
        let (ib, c1) = compile_spec(*body, si, env, c + 2, Some(end_label))->Ok_0;
        lemma_code_labels(*body, si, env, c + 2, Some(end_label));
        assert(exits(Some(end_label)).subset_of(o));
        lemma_weaken(ib, counter_range(c + 2, c1), exits(Some(end_label)), counter_range(c + 2, c1), o);
        let ls = seq![InstrV::ILabel(start_label)];
        let back = seq![InstrV::IJmp(start_label)];
        let lend = seq![InstrV::ILabel(end_label)];
        lemma_one_label("loop_start"@, c, o);
        lemma_one_label("loop_end"@, c + 1, o);
        assert(jump_target(back[0]) == Some(start_label));
        lemma_plain(back, o);
        lemma_weaken(back, Set::empty(), o, counter_range(c1, c1), o);
        lemma_join_ranges(ib, c + 2, c1, back, c1, o);
        lemma_join(ls, set![c], ib + back, counter_range(c + 2, c1), o);
        lemma_join(ls + (ib + back), set![c] + counter_range(c + 2, c1), lend, set![c + 1], o);
        assert(code =~= ls + (ib + back) + lend);
        lemma_labels_concat(ls + (ib + back), lend);
        lemma_labels_concat(ls, ib + back);
        assert(own.subset_of(labels(code)));
        let n = set![c] + counter_range(c + 2, c1) + set![c + 1];
        lemma_close(code, n, x, own);
        lemma_weaken(code, n, x, counter_range(c, c1), x);
    }
}

/// The code of the first `k` bindings of a `let` is well labelled.
pub proof fn lemma_let_labels(
    bs: Seq<(Seq<char>, ExprV)>,
    k: nat,
    si: int,
    env: Map<Seq<char>, i32>,
    c: int,
    brk: Option<Seq<char>>,
)
    requires
        let_prefix(bs, k, si, env, c, brk) is Ok,
    ensures
        c <= let_prefix(bs, k, si, env, c, brk)->Ok_0.2,
        well_labelled(
            let_prefix(bs, k, si, env, c, brk)->Ok_0.0,
            counter_range(c, let_prefix(bs, k, si, env, c, brk)->Ok_0.2),
            exits(brk),
        ),
    decreases bs, k,
{
    let x = exits(brk);
    if k == 0 || k > bs.len() {
        lemma_plain(Seq::empty(), x);
        lemma_weaken(Seq::empty(), Set::empty(), x, counter_range(c, c), x);
    } else {
        let (is, env1, c1) = let_prefix(bs, (k - 1) as nat, si, env, c, brk)->Ok_0;
        lemma_let_labels(bs, (k - 1) as nat, si, env, c, brk);
        let slot = si + k - 1;
        let (ie, c2) = compile_spec(bs[k - 1].1, slot, env1, c1, brk)->Ok_0;
        lemma_code_labels(bs[k - 1].1, slot, env1, c1, brk);
        let st = seq![InstrV::IMov(stack(slot_offset(slot)), rax())];
        lemma_store(stack(slot_offset(slot)), c2, x);
        lemma_join_ranges(is, c, c1, ie, c2, x);
        lemma_join_ranges(is + ie, c, c2, st, c2, x);
        assert(is + ie.push(InstrV::IMov(stack(slot_offset(slot)), rax())) =~= is + ie + st);
    }
}

/// The code of the first `k` expressions of a block is well labelled.
pub proof fn lemma_block_labels(
    es: Seq<ExprV>,
    k: nat,
    si: int,
    env: Map<Seq<char>, i32>,
    c: int,
    brk: Option<Seq<char>>,
)
    requires
        block_prefix(es, k, si, env, c, brk) is Ok,
    ensures
        c <= block_prefix(es, k, si, env, c, brk)->Ok_0.1,
        well_labelled(
            block_prefix(es, k, si, env, c, brk)->Ok_0.0,
            counter_range(c, block_prefix(es, k, si, env, c, brk)->Ok_0.1),
            exits(brk),
        ),
    decreases es, k,
{
    let x = exits(brk);
    if k == 0 || k > es.len() {
        lemma_plain(Seq::empty(), x);
        lemma_weaken(Seq::empty(), Set::empty(), x, counter_range(c, c), x);
    } else {
        let (is, c1) = block_prefix(es, (k - 1) as nat, si, env, c, brk)->Ok_0;
        lemma_block_labels(es, (k - 1) as nat, si, env, c, brk);
        let (ie, c2) = compile_spec(es[k - 1], si, env, c1, brk)->Ok_0;
        lemma_code_labels(es[k - 1], si, env, c1, brk);
        lemma_join_ranges(is, c, c1, ie, c2, x);
    }
}

/// The instructions of a whole program: the code of its expression, then the
/// epilogue with the handler of invalid arguments.
pub open spec fn program_code(e: ExprV) -> Seq<InstrV> {
    compile_spec(e, 2, Map::empty(), 0, None)->Ok_0.0 + epilogue()
}

/// In the code of a whole program every label is defined once, and every
/// jump lands on a label that the code defines.
pub proof fn lemma_program_labels(e: ExprV)
    requires
        compile_spec(e, 2, Map::empty(), 0, None) is Ok,
    ensures
        labels_unique(program_code(e)),
        targets(program_code(e)).subset_of(labels(program_code(e))),
{
    let (body, c2) = compile_spec(e, 2, Map::empty(), 0, None)->Ok_0;
    lemma_code_labels(e, 2, Map::empty(), 0, None);
    let ep = epilogue();
    reveal_strlit("done");
    reveal_strlit("throw_error_invalid");
    let done = "done"@;
    let err = "throw_error_invalid"@;
    assert(done.last() == 'e');
    assert(err.last() == 'd');
    assert(err == error_label());
    let j = seq![InstrV::IJmp(done)];
    let mid = seq![
        InstrV::IMov(Val::Reg(Reg::RDI), Val::Imm(1)),
        InstrV::ISub(Val::Reg(Reg::RSP), Val::Imm(8)),
        InstrV::ICall("snek_error"@),
    ];
    let le = seq![InstrV::ILabel(err)];
    let ld = seq![InstrV::ILabel(done)];
    assert(ep =~= j + le + mid + ld);
    lemma_plain(j, set![done]);
    lemma_plain(mid, set![done]);
    lemma_single_label(err);
    lemma_single_label(done);
    lemma_labels_concat(j, le);
    lemma_labels_concat(j + le, mid);
    lemma_labels_concat(j + le + mid, ld);
    assert(labels(ep) =~= set![err, done]);
    assert(targets(ep) =~= set![done]);
    assert(labels_unique(ep));
    lemma_labels_concat(body, ep);
    assert(labels(body).disjoint(labels(ep))) by {
        assert forall|l: Seq<char>| labels(body).contains(l) implies !labels(ep).contains(l) by {
            assert(numbered(counter_range(0, c2)).contains(l));
            let (p, n) = choose|p: Seq<char>, n: int|
                counter_range(0, c2).contains(n) && l == label_text(p, n);
            lemma_label_ends_in_digit(p, n);
        }
    }
    assert(exits(None) =~= set![err]);
}

} // verus!
