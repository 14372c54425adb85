//! Labels and calls of the generated code: each label is defined once, each
//! jump lands on a label that the code defines, and each call on a function
//! that the program defines.
use vstd::prelude::*;
use crate::text::{label_text, lemma_label_text_injective, lemma_label_ends_in_digit};
use crate::diamondback::syntax::{ExprV, UnOp, BinOp, DefinitionV, ProgramV};
use crate::diamondback::machine::{InstrV, Val, Reg, CJump};
use crate::diamondback::compile::{error_label, compile_spec, let_prefix, block_prefix, call_args,
    unop_tail, binop_tail, bool_result_spec, check_number_spec, jump_spec, slot_off, frame, rax,
    r10, call_tail, pushes, collect_prefix, defns_code, compile_defn_spec, compile_main_spec,
    compile_program_spec, function_label_spec, function_frame, main_frame, param_env, rsp_sub,
    rsp_add};
use crate::tagging::{FALSE_VAL, TRUE_VAL, NUM_TAG_MASK, BOOL_TAG_MASK};

verus! {

/// The name that an instruction defines, if it is a label.
pub open spec fn defined_label(i: InstrV) -> Option<Seq<char>> {
    match i {
        InstrV::ILabel(l) => Some(l),
        _ => None,
    }
}

/// The label that an instruction jumps to, if it is a jump.
pub open spec fn jump_target(i: InstrV) -> Option<Seq<char>> {
    match i {
        InstrV::IJmp(l) | InstrV::IJe(l) | InstrV::IJne(l) | InstrV::IJg(l) | InstrV::IJge(l)
        | InstrV::IJl(l) | InstrV::IJle(l) => Some(l),
        _ => None,
    }
}

/// The label that an instruction calls, if it is a call.
pub open spec fn call_target(i: InstrV) -> Option<Seq<char>> {
    match i {
        InstrV::ICall(l) => Some(l),
        _ => None,
    }
}

/// The names held by an optional name.
pub open spec fn opt_names(o: Option<Seq<char>>) -> Set<Seq<char>> {
    match o {
        Some(l) => set![l],
        None => Set::empty(),
    }
}

/// The labels that a sequence of instructions defines.
pub open spec fn labels(is: Seq<InstrV>) -> Set<Seq<char>>
    decreases is.len(),
{
    if is.len() == 0 {
        Set::empty()
    } else {
        labels(is.drop_last()) + opt_names(defined_label(is.last()))
    }
}

/// The labels that a sequence of instructions jumps to.
pub open spec fn targets(is: Seq<InstrV>) -> Set<Seq<char>>
    decreases is.len(),
{
    if is.len() == 0 {
        Set::empty()
    } else {
        targets(is.drop_last()) + opt_names(jump_target(is.last()))
    }
}

/// The labels that a sequence of instructions calls.
pub open spec fn callees(is: Seq<InstrV>) -> Set<Seq<char>>
    decreases is.len(),
{
    if is.len() == 0 {
        Set::empty()
    } else {
        callees(is.drop_last()) + opt_names(call_target(is.last()))
    }
}

/// Whether no label is defined twice.
pub open spec fn labels_unique(is: Seq<InstrV>) -> bool
    decreases is.len(),
{
    if is.len() == 0 {
        true
    } else {
        &&& labels_unique(is.drop_last())
        &&& match defined_label(is.last()) {
            Some(l) => !labels(is.drop_last()).contains(l),
            None => true,
        }
    }
}

/// The generated label names whose counter value lies in `ns`.  None of them
/// starts with `f`, the first letter of every function label.
pub open spec fn numbered(ns: Set<int>) -> Set<Seq<char>> {
    Set::new(
        |l: Seq<char>|
            exists|p: Seq<char>, n: int| ns.contains(n) && l == label_text(p, n) && l[0] != 'f',
    )
}

/// The counter values from `lo` up to, but not including, `hi`.
pub open spec fn counter_range(lo: int, hi: int) -> Set<int> {
    Set::new(|n: int| lo <= n < hi)
}

/// The labels outside an expression's code where it may jump: the handler of
/// invalid arguments and the end of the loop that it breaks out of.
pub open spec fn exits(brk: Option<Seq<char>>) -> Set<Seq<char>> {
    set![error_label()] + opt_names(brk)
}

/// Whether `is` defines each of its labels once, names them with counter
/// values from `ns`, jumps only to its own labels or to labels in `outside`,
/// and calls only labels in `callable`.
pub open spec fn well_labelled(
    is: Seq<InstrV>,
    ns: Set<int>,
    outside: Set<Seq<char>>,
    callable: Set<Seq<char>>,
) -> bool {
    &&& labels_unique(is)
    &&& labels(is).subset_of(numbered(ns))
    &&& targets(is).subset_of(labels(is) + outside)
    &&& callees(is).subset_of(callable)
}

/// Labels, jump targets and uniqueness of a concatenation.
pub proof fn lemma_labels_concat(a: Seq<InstrV>, b: Seq<InstrV>)
    ensures
        labels(a + b) == labels(a) + labels(b),
        targets(a + b) == targets(a) + targets(b),
        callees(a + b) == callees(a) + callees(b),
        labels_unique(a + b) == (labels_unique(a) && labels_unique(b) && labels(a).disjoint(
            labels(b),
        )),
    decreases b.len(),
{
    if b.len() == 0 {
        assert(a + b =~= a);
        assert(labels(b) =~= Set::empty());
        assert(targets(b) =~= Set::empty());
        assert(callees(b) =~= Set::empty());
        assert(labels(a) + labels(b) =~= labels(a));
        assert(targets(a) + targets(b) =~= targets(a));
        assert(callees(a) + callees(b) =~= callees(a));
    } else {
        let b1 = b.drop_last();
        lemma_labels_concat(a, b1);
        assert((a + b).drop_last() =~= a + b1);
        assert((a + b).last() == b.last());
        assert(labels(a + b) =~= labels(a) + labels(b));
        assert(targets(a + b) =~= targets(a) + targets(b));
        assert(callees(a + b) =~= callees(a) + callees(b));
    }
}

/// Labels numbered from disjoint sets of counter values differ.
pub proof fn lemma_numbered_disjoint(n1: Set<int>, n2: Set<int>)
    requires
        n1.disjoint(n2),
    ensures
        numbered(n1).disjoint(numbered(n2)),
{
    assert forall|l: Seq<char>| numbered(n1).contains(l) implies !numbered(n2).contains(l) by {
        let (p, n) = choose|p: Seq<char>, n: int|
            n1.contains(n) && l == label_text(p, n) && l[0] != 'f';
        if numbered(n2).contains(l) {
            let (q, m) = choose|q: Seq<char>, m: int|
                n2.contains(m) && l == label_text(q, m) && l[0] != 'f';
            lemma_label_text_injective(p, n, q, m);
        }
    }
}

/// `numbered` grows with its set of counter values.
pub proof fn lemma_numbered_mono(n1: Set<int>, n2: Set<int>)
    requires
        n1.subset_of(n2),
    ensures
        numbered(n1).subset_of(numbered(n2)),
{
    assert forall|l: Seq<char>| numbered(n1).contains(l) implies numbered(n2).contains(l) by {
        let (p, n) = choose|p: Seq<char>, n: int|
            n1.contains(n) && l == label_text(p, n) && l[0] != 'f';
        assert(n2.contains(n) && l == label_text(p, n) && l[0] != 'f');
    }
}

/// Joining two well-labelled pieces whose counter values differ.
pub proof fn lemma_join(
    a: Seq<InstrV>,
    na: Set<int>,
    b: Seq<InstrV>,
    nb: Set<int>,
    outside: Set<Seq<char>>,
    callable: Set<Seq<char>>,
)
    requires
        well_labelled(a, na, outside, callable),
        well_labelled(b, nb, outside, callable),
        na.disjoint(nb),
    ensures
        well_labelled(a + b, na + nb, outside, callable),
{
    lemma_labels_concat(a, b);
    lemma_numbered_disjoint(na, nb);
    lemma_numbered_mono(na, na + nb);
    lemma_numbered_mono(nb, na + nb);
}

/// A well-labelled piece stays so with more counter values and more labels
/// outside.
pub proof fn lemma_weaken(
    is: Seq<InstrV>,
    n1: Set<int>,
    o1: Set<Seq<char>>,
    n2: Set<int>,
    o2: Set<Seq<char>>,
    callable: Set<Seq<char>>,
)
    requires
        well_labelled(is, n1, o1, callable),
        n1.subset_of(n2),
        o1.subset_of(o2),
    ensures
        well_labelled(is, n2, o2, callable),
{
    lemma_numbered_mono(n1, n2);
}

/// Code that defines no label, jumps only to labels in `outside` and calls
/// only labels in `callable`.
pub proof fn lemma_plain(is: Seq<InstrV>, outside: Set<Seq<char>>, callable: Set<Seq<char>>)
    requires
        forall|k: int| 0 <= k < is.len() ==> (#[trigger] defined_label(is[k])) is None,
        forall|k: int|
            0 <= k < is.len() && (#[trigger] jump_target(is[k])) is Some ==> outside.contains(
                jump_target(is[k])->0,
            ),
        forall|k: int|
            0 <= k < is.len() && (#[trigger] call_target(is[k])) is Some ==> callable.contains(
                call_target(is[k])->0,
            ),
    ensures
        labels(is) == Set::<Seq<char>>::empty(),
        well_labelled(is, Set::empty(), outside, callable),
    decreases is.len(),
{
    if is.len() > 0 {
        let is1 = is.drop_last();
        assert forall|k: int| 0 <= k < is1.len() implies (#[trigger] defined_label(is1[k])) is None by {
            assert(is1[k] == is[k]);
        }
        assert forall|k: int|
            0 <= k < is1.len() && (#[trigger] jump_target(is1[k])) is Some implies outside.contains(
            jump_target(is1[k])->0,
        ) by {
            assert(is1[k] == is[k]);
        }
        assert forall|k: int|
            0 <= k < is1.len() && (#[trigger] call_target(is1[k])) is Some implies callable.contains(
            call_target(is1[k])->0,
        ) by {
            assert(is1[k] == is[k]);
        }
        lemma_plain(is1, outside, callable);
        assert(defined_label(is[is.len() - 1]) is None);
        if jump_target(is[is.len() - 1]) is Some {
            assert(outside.contains(jump_target(is[is.len() - 1])->0));
        }
        if call_target(is[is.len() - 1]) is Some {
            assert(callable.contains(call_target(is[is.len() - 1])->0));
        }
        assert(labels(is) =~= Set::<Seq<char>>::empty());
    } else {
        assert(labels(is) =~= Set::<Seq<char>>::empty());
    }
}

/// The labels, targets and uniqueness of a single label.
pub proof fn lemma_single_label(l: Seq<char>)
    ensures
        labels(seq![InstrV::ILabel(l)]) == set![l],
        targets(seq![InstrV::ILabel(l)]) == Set::<Seq<char>>::empty(),
        callees(seq![InstrV::ILabel(l)]) == Set::<Seq<char>>::empty(),
        labels_unique(seq![InstrV::ILabel(l)]),
{
    let is = seq![InstrV::ILabel(l)];
    assert(is.drop_last() =~= Seq::<InstrV>::empty());
    assert(labels(is.drop_last()) == Set::<Seq<char>>::empty());
    assert(targets(is.drop_last()) == Set::<Seq<char>>::empty());
    assert(callees(is.drop_last()) == Set::<Seq<char>>::empty());
    assert(is.last() == InstrV::ILabel(l));
    assert(labels(is) =~= set![l]);
    assert(targets(is) =~= Set::<Seq<char>>::empty());
    assert(callees(is) =~= Set::<Seq<char>>::empty());
    assert(labels_unique(is.drop_last()));
}

/// A single label made from counter value `n` and a prefix that does not
/// start with `f`.
pub proof fn lemma_one_label(
    p: Seq<char>,
    n: int,
    outside: Set<Seq<char>>,
    callable: Set<Seq<char>>,
)
    requires
        p.len() > 0,
        p[0] != 'f',
    ensures
        labels(seq![InstrV::ILabel(label_text(p, n))]) == set![label_text(p, n)],
        well_labelled(seq![InstrV::ILabel(label_text(p, n))], set![n], outside, callable),
{
    lemma_single_label(label_text(p, n));
    assert(label_text(p, n)[0] == p[0]);
    assert(numbered(set![n]).contains(label_text(p, n))) by {
        assert(set![n].contains(n) && label_text(p, n) == label_text(p, n) && label_text(p, n)[0]
            != 'f');
    }
}

/// Joining two well-labelled pieces numbered from consecutive ranges.
pub proof fn lemma_join_ranges(
    a: Seq<InstrV>,
    lo: int,
    mid: int,
    b: Seq<InstrV>,
    hi: int,
    outside: Set<Seq<char>>,
    callable: Set<Seq<char>>,
)
    requires
        well_labelled(a, counter_range(lo, mid), outside, callable),
        well_labelled(b, counter_range(mid, hi), outside, callable),
        lo <= mid <= hi,
    ensures
        well_labelled(a + b, counter_range(lo, hi), outside, callable),
{
    lemma_join(a, counter_range(lo, mid), b, counter_range(mid, hi), outside, callable);
    assert(counter_range(lo, mid) + counter_range(mid, hi) =~= counter_range(lo, hi));
}

/// Code that jumps to labels that it defines itself needs no label outside
/// for them.
pub proof fn lemma_close(
    is: Seq<InstrV>,
    ns: Set<int>,
    outside: Set<Seq<char>>,
    own: Set<Seq<char>>,
    callable: Set<Seq<char>>,
)
    requires
        well_labelled(is, ns, outside + own, callable),
        own.subset_of(labels(is)),
    ensures
        well_labelled(is, ns, outside, callable),
{
}

/// Plain code, then a label made from `c`, plain code, and a label made from
/// `c + 1`, where the plain code jumps only to those two labels or outside.
pub proof fn lemma_two_labels(
    p1: Seq<InstrV>,
    pa: Seq<char>,
    p2: Seq<InstrV>,
    pb: Seq<char>,
    c: int,
    outside: Set<Seq<char>>,
    callable: Set<Seq<char>>,
)
    requires
        pa.len() > 0,
        pa[0] != 'f',
        pb.len() > 0,
        pb[0] != 'f',
        forall|k: int| 0 <= k < p1.len() ==> (#[trigger] call_target(p1[k])) is None,
        forall|k: int| 0 <= k < p2.len() ==> (#[trigger] call_target(p2[k])) is None,
        forall|k: int| 0 <= k < p1.len() ==> (#[trigger] defined_label(p1[k])) is None,
        forall|k: int| 0 <= k < p2.len() ==> (#[trigger] defined_label(p2[k])) is None,
        forall|k: int|
            0 <= k < p1.len() && (#[trigger] jump_target(p1[k])) is Some ==> (outside + set![
                label_text(pa, c),
                label_text(pb, c + 1),
            ]).contains(jump_target(p1[k])->0),
        forall|k: int|
            0 <= k < p2.len() && (#[trigger] jump_target(p2[k])) is Some ==> (outside + set![
                label_text(pa, c),
                label_text(pb, c + 1),
            ]).contains(jump_target(p2[k])->0),
    ensures
        well_labelled(
            p1 + seq![InstrV::ILabel(label_text(pa, c))] + p2 + seq![
                InstrV::ILabel(label_text(pb, c + 1)),
            ],
            counter_range(c, c + 2),
            outside,
            callable,
        ),
{
    let own = set![label_text(pa, c), label_text(pb, c + 1)];
    let o = outside + own;
    let la = seq![InstrV::ILabel(label_text(pa, c))];
    let lb = seq![InstrV::ILabel(label_text(pb, c + 1))];
    lemma_plain(p1, o, callable);
    lemma_plain(p2, o, callable);
    lemma_one_label(pa, c, o, callable);
    lemma_one_label(pb, c + 1, o, callable);
    lemma_join(p1, Set::empty(), la, set![c], o, callable);
    assert(Set::<int>::empty() + set![c] =~= set![c]);
    lemma_join(p1 + la, set![c], p2, Set::empty(), o, callable);
    assert(set![c] + Set::<int>::empty() =~= set![c]);
    lemma_join(p1 + la + p2, set![c], lb, set![c + 1], o, callable);
    let all = p1 + la + p2 + lb;
    lemma_labels_concat(p1 + la + p2, lb);
    lemma_labels_concat(p1 + la, p2);
    lemma_labels_concat(p1, la);
    assert(own.subset_of(labels(all)));
    lemma_close(all, set![c] + set![c + 1], outside, own, callable);
    lemma_weaken(all, set![c] + set![c + 1], outside, counter_range(c, c + 2), outside, callable);
}

/// The labels that code compiled with the function table `funcs` may call:
/// the label of each defined function and the runtime's print routine.
pub open spec fn callable(funcs: Map<Seq<char>, (nat, Seq<char>)>) -> Set<Seq<char>> {
    Set::new(
        |l: Seq<char>| exists|name: Seq<char>| #[trigger] funcs.contains_key(name) && funcs[name].1 == l,
    ) + set!["snek_print"@]
}

/// The code that sets `rax` from a condition is well labelled.
pub proof fn lemma_bool_result(k: CJump, c: int, outside: Set<Seq<char>>, cl: Set<Seq<char>>)
    ensures
        well_labelled(bool_result_spec(k, c), counter_range(c, c + 2), outside, cl),
{
    reveal_strlit("bool_true");
    reveal_strlit("bool_end");
    let t = label_text("bool_true"@, c);
    let end = label_text("bool_end"@, c + 1);
    let p1 = seq![jump_spec(k, t), InstrV::IMov(rax(), Val::Imm(FALSE_VAL)), InstrV::IJmp(end)];
    let p2 = seq![InstrV::IMov(rax(), Val::Imm(TRUE_VAL))];
    assert(jump_target(p1[0]) == Some(t));
    lemma_two_labels(p1, "bool_true"@, p2, "bool_end"@, c, outside, cl);
    assert(bool_result_spec(k, c) =~= p1 + seq![InstrV::ILabel(t)] + p2 + seq![InstrV::ILabel(end)]);
}

/// The code of a unary operator is well labelled, and moves the counter
/// forward.
pub proof fn lemma_unop_tail(
    op: UnOp,
    c: int,
    brk: Option<Seq<char>>,
    funcs: Map<Seq<char>, (nat, Seq<char>)>,
)
    ensures
        c <= unop_tail(op, c).1,
        well_labelled(
            unop_tail(op, c).0,
            counter_range(c, unop_tail(op, c).1),
            exits(brk),
            callable(funcs),
        ),
{
    let x = exits(brk);
    let cl = callable(funcs);
    let tail = unop_tail(op, c).0;
    match op {
        UnOp::IsNum => {
            reveal_strlit("isnum_false");
            reveal_strlit("isnum_end");
            let f = label_text("isnum_false"@, c);
            let end = label_text("isnum_end"@, c + 1);
            let p1 = seq![
                InstrV::ITest(rax(), Val::Imm(NUM_TAG_MASK)),
                InstrV::IJne(f),
                InstrV::IMov(rax(), Val::Imm(TRUE_VAL)),
                InstrV::IJmp(end),
            ];
            let p2 = seq![InstrV::IMov(rax(), Val::Imm(FALSE_VAL))];
            assert(jump_target(p1[1]) == Some(f));
            assert(jump_target(p1[3]) == Some(end));
            lemma_two_labels(p1, "isnum_false"@, p2, "isnum_end"@, c, x, cl);
            assert(tail =~= p1 + seq![InstrV::ILabel(f)] + p2 + seq![InstrV::ILabel(end)]);
        },
        UnOp::IsBool => {
            reveal_strlit("isbool_true");
            reveal_strlit("isbool_end");
            let t = label_text("isbool_true"@, c);
            let end = label_text("isbool_end"@, c + 1);
            let p1 = seq![
                InstrV::ITest(rax(), Val::Imm(BOOL_TAG_MASK)),
                InstrV::IJne(t),
                InstrV::IMov(rax(), Val::Imm(FALSE_VAL)),
                InstrV::IJmp(end),
            ];
            let p2 = seq![InstrV::IMov(rax(), Val::Imm(TRUE_VAL))];
            assert(jump_target(p1[1]) == Some(t));
            assert(jump_target(p1[3]) == Some(end));
            lemma_two_labels(p1, "isbool_true"@, p2, "isbool_end"@, c, x, cl);
            assert(tail =~= p1 + seq![InstrV::ILabel(t)] + p2 + seq![InstrV::ILabel(end)]);
        },
        UnOp::Print => {
            assert(call_target(tail[1]) == Some("snek_print"@));
            assert(cl.contains("snek_print"@));
            lemma_plain(tail, x, cl);
            lemma_weaken(tail, Set::empty(), x, counter_range(c, c), x, cl);
        },
        _ => {
            assert(jump_target(tail[1]) == Some(error_label()));
            lemma_plain(tail, x, cl);
            lemma_weaken(tail, Set::empty(), x, counter_range(c, c), x, cl);
        },
    }
}

/// The code of a binary operator is well labelled, and moves the counter
/// forward.
pub proof fn lemma_binop_tail(
    op: BinOp,
    temp: i32,
    c: int,
    brk: Option<Seq<char>>,
    funcs: Map<Seq<char>, (nat, Seq<char>)>,
)
    ensures
        c <= binop_tail(op, temp, c).1,
        well_labelled(
            binop_tail(op, temp, c).0,
            counter_range(c, binop_tail(op, temp, c).1),
            exits(brk),
            callable(funcs),
        ),
{
    let x = exits(brk);
    let cl = callable(funcs);
    let l = frame(temp);
    let checks = check_number_spec(l) + check_number_spec(rax());
    let tail = binop_tail(op, temp, c).0;
    let empty = Set::<int>::empty();
    match op {
        BinOp::Plus | BinOp::Minus | BinOp::Times => {
            assert(jump_target(tail[1]) == Some(error_label()));
            assert(jump_target(tail[3]) == Some(error_label()));
            lemma_plain(tail, x, cl);
            lemma_weaken(tail, empty, x, counter_range(c, c), x, cl);
        },
        BinOp::Equal => {
            let pre = seq![
                InstrV::IMov(r10(), l),
                InstrV::IAnd(r10(), Val::Imm(BOOL_TAG_MASK)),
                InstrV::IMov(Val::Reg(Reg::R11), rax()),
                InstrV::IAnd(Val::Reg(Reg::R11), Val::Imm(BOOL_TAG_MASK)),
                InstrV::ICmp(r10(), Val::Reg(Reg::R11)),
                InstrV::IJne(error_label()),
                InstrV::IMov(r10(), l),
                InstrV::ICmp(r10(), rax()),
            ];
            assert(jump_target(pre[5]) == Some(error_label()));
            lemma_plain(pre, x, cl);
            lemma_weaken(pre, empty, x, counter_range(c, c), x, cl);
            lemma_bool_result(CJump::E, c, x, cl);
            lemma_join_ranges(pre, c, c, bool_result_spec(CJump::E, c), c + 2, x, cl);
        },
        _ => {
            let pre = checks + seq![InstrV::IMov(r10(), l), InstrV::ICmp(r10(), rax())];
            assert(jump_target(pre[1]) == Some(error_label()));
            assert(jump_target(pre[3]) == Some(error_label()));
            lemma_plain(pre, x, cl);
            lemma_weaken(pre, empty, x, counter_range(c, c), x, cl);
            let k = match op {
                BinOp::Less => CJump::L,
                BinOp::Greater => CJump::G,
                BinOp::LessEq => CJump::LE,
                _ => CJump::GE,
            };
            lemma_bool_result(k, c, x, cl);
            lemma_join_ranges(pre, c, c, bool_result_spec(k, c), c + 2, x, cl);
        },
    }
}

/// The code that calls `label` after storing its arguments is well
/// labelled when `label` may be called.
pub proof fn lemma_call_tail(si: int, n: nat, label: Seq<char>, c: int, x: Set<Seq<char>>, cl: Set<Seq<char>>)
    requires
        cl.contains(label),
    ensures
        well_labelled(call_tail(si, n, label), counter_range(c, c), x, cl),
{
    let tail = call_tail(si, n, label);
    let pad: int = if n % 2 == 1 { 8 } else { 0 };
    let cleanup: int = n * 8 + pad;
    let a: Seq<InstrV> = if pad > 0 {
        seq![InstrV::ISub(Val::Reg(Reg::RSP), Val::Imm(pad as i64))]
    } else {
        Seq::empty()
    };
    let b = pushes(si, n);
    let d: Seq<InstrV> = if cleanup > 0 {
        seq![InstrV::IAdd(Val::Reg(Reg::RSP), Val::Imm(cleanup as i64))]
    } else {
        Seq::empty()
    };
    assert(tail == a + b + seq![InstrV::ICall(label)] + d);
    assert forall|k: int| 0 <= k < tail.len() implies (#[trigger] defined_label(tail[k])) is None
        && jump_target(tail[k]) is None && (call_target(tail[k]) is Some ==> call_target(tail[k])
        == Some(label)) by {
        if k < a.len() {
            assert(tail[k] == a[k]);
        } else if k < a.len() + b.len() {
            assert(tail[k] == b[k - a.len()]);
        } else if k == a.len() + b.len() {
            assert(tail[k] == InstrV::ICall(label));
        } else {
            assert(tail[k] == d[k - a.len() - b.len() - 1]);
        }
    }
    assert forall|k: int| 0 <= k < tail.len() && (#[trigger] call_target(tail[k])) is Some implies cl.contains(call_target(tail[k])->0) by {
        assert(defined_label(tail[k]) is None);
    }
    assert forall|k: int| 0 <= k < tail.len() && (#[trigger] jump_target(tail[k])) is Some implies x.contains(jump_target(tail[k])->0) by {
        assert(defined_label(tail[k]) is None);
    }
    lemma_plain(tail, x, cl);
    lemma_weaken(tail, Set::empty(), x, counter_range(c, c), x, cl);
}

/// The code of an expression defines each of its labels once, names them
/// with the counter values that its compilation used, jumps only to its own
/// labels, to the handler of invalid arguments or to the end of the loop that
/// it breaks out of, and calls only defined functions and the runtime's
/// print routine.
pub proof fn lemma_code_labels(
    e: ExprV,
    si: int,
    env: Map<Seq<char>, i32>,
    params: Set<Seq<char>>,
    funcs: Map<Seq<char>, (nat, Seq<char>)>,
    c: int,
    brk: Option<Seq<char>>,
)
    requires
        compile_spec(e, si, env, params, funcs, c, brk) is Ok,
    ensures
        c <= compile_spec(e, si, env, params, funcs, c, brk)->Ok_0.1,
        well_labelled(
            compile_spec(e, si, env, params, funcs, c, brk)->Ok_0.0,
            counter_range(c, compile_spec(e, si, env, params, funcs, c, brk)->Ok_0.1),
            exits(brk),
            callable(funcs),
        ),
    decreases e, 1nat,
{
    let x = exits(brk);
    let cl = callable(funcs);
    let code = compile_spec(e, si, env, params, funcs, c, brk)->Ok_0.0;
    let empty = Set::<int>::empty();
    match e {
        ExprV::UnOp(op, a) => {
            let (ia, c1) = compile_spec(*a, si, env, params, funcs, c, brk)->Ok_0;
            lemma_code_labels(*a, si, env, params, funcs, c, brk);
            lemma_unop_tail(op, c1, brk, funcs);
            lemma_join_ranges(ia, c, c1, unop_tail(op, c1).0, unop_tail(op, c1).1, x, cl);
        },
        ExprV::BinOp(op, a, b) => {
            let (ia, c1) = compile_spec(*a, si, env, params, funcs, c, brk)->Ok_0;
            let (ib, c2) = compile_spec(*b, si + 1, env, params, funcs, c1, brk)->Ok_0;
            lemma_code_labels(*a, si, env, params, funcs, c, brk);
            lemma_code_labels(*b, si + 1, env, params, funcs, c1, brk);
            let temp = slot_off(si);
            let st = seq![InstrV::IMov(frame(temp), rax())];
            lemma_store(frame(temp), c1, x, cl);
            lemma_binop_tail(op, temp, c2, brk, funcs);
            let tail = binop_tail(op, temp, c2);
            lemma_join_ranges(ia, c, c1, st, c1, x, cl);
            lemma_join_ranges(ia + st, c, c1, ib, c2, x, cl);
            lemma_join_ranges(ia + st + ib, c, c2, tail.0, tail.1, x, cl);
            assert(code =~= ia + st + ib + tail.0);
        },
        ExprV::If(..) => {
            lemma_code_labels_if(e, si, env, params, funcs, c, brk);
        },
        ExprV::Loop(..) => {
            lemma_code_labels_loop(e, si, env, params, funcs, c, brk);
        },
        ExprV::Let(bs, body) => {
            let (ib, env1, c1) = let_prefix(bs, bs.len(), si, env, params, funcs, c, brk)->Ok_0;
            lemma_let_labels(bs, bs.len(), si, env, params, funcs, c, brk);
            let (ie, c2) = compile_spec(*body, si + bs.len(), env1, params, funcs, c1, brk)->Ok_0;
            lemma_code_labels(*body, si + bs.len(), env1, params, funcs, c1, brk);
            lemma_join_ranges(ib, c, c1, ie, c2, x, cl);
        },
        ExprV::Block(es) => {
            lemma_block_labels(es, es.len(), si, env, params, funcs, c, brk);
        },
        ExprV::Call(name, args) => {
            let (ia, c1) = call_args(args, args.len(), si, env, params, funcs, c, brk)->Ok_0;
            lemma_call_args_labels(args, args.len(), si, env, params, funcs, c, brk);
            assert(funcs.contains_key(name) && funcs[name].1 == funcs[name].1);
            assert(cl.contains(funcs[name].1));
            lemma_call_tail(si, args.len(), funcs[name].1, c1, x, cl);
            lemma_join_ranges(ia, c, c1, call_tail(si, args.len(), funcs[name].1), c1, x, cl);
        },
        ExprV::Break(a) => {
            let (ia, c1) = compile_spec(*a, si, env, params, funcs, c, brk)->Ok_0;
            lemma_code_labels(*a, si, env, params, funcs, c, brk);
            let tail = seq![InstrV::IJmp(brk->0)];
            assert(jump_target(tail[0]) == Some(brk->0));
            lemma_plain(tail, x, cl);
            lemma_weaken(tail, empty, x, counter_range(c1, c1), x, cl);
            lemma_join_ranges(ia, c, c1, tail, c1, x, cl);
            assert(code =~= ia + tail);
        },
        ExprV::Assign(name, a) => {
            let (ia, c1) = compile_spec(*a, si, env, params, funcs, c, brk)->Ok_0;
            lemma_code_labels(*a, si, env, params, funcs, c, brk);
            let tail = seq![InstrV::IMov(frame(env[name]), rax())];
            lemma_store(frame(env[name]), c1, x, cl);
            lemma_join_ranges(ia, c, c1, tail, c1, x, cl);
            assert(code =~= ia + tail);
        },
        _ => {
            lemma_plain(code, x, cl);
            lemma_weaken(code, empty, x, counter_range(c, c), x, cl);
        },
    }
}

/// A store of `rax` is well labelled.
proof fn lemma_store(v: Val, c: int, x: Set<Seq<char>>, cl: Set<Seq<char>>)
    ensures
        well_labelled(seq![InstrV::IMov(v, rax())], counter_range(c, c), x, cl),
{
    lemma_plain(seq![InstrV::IMov(v, rax())], x, cl);
    lemma_weaken(seq![InstrV::IMov(v, rax())], Set::empty(), x, counter_range(c, c), x, cl);
}

proof fn lemma_code_labels_if(
    e: ExprV,
    si: int,
    env: Map<Seq<char>, i32>,
    params: Set<Seq<char>>,
    funcs: Map<Seq<char>, (nat, Seq<char>)>,
    c: int,
    brk: Option<Seq<char>>,
)
    requires
        e is If,
        compile_spec(e, si, env, params, funcs, c, brk) is Ok,
    ensures
        c <= compile_spec(e, si, env, params, funcs, c, brk)->Ok_0.1,
        well_labelled(
            compile_spec(e, si, env, params, funcs, c, brk)->Ok_0.0,
            counter_range(c, compile_spec(e, si, env, params, funcs, c, brk)->Ok_0.1),
            exits(brk),
            callable(funcs),
        ),
    decreases e, 0nat,
{
    let code = compile_spec(e, si, env, params, funcs, c, brk)->Ok_0.0;
    let cl = callable(funcs);
    if let ExprV::If(cond, thn, els) = e {
        reveal_strlit("if_else");
        reveal_strlit("if_end");
        let else_label = label_text("if_else"@, c);
        let end_label = label_text("if_end"@, c + 1);
        let own = set![else_label, end_label];
        let x = exits(brk);
        let o = x + own;
        let (ic, c1) = compile_spec(*cond, si, env, params, funcs, c + 2, brk)->Ok_0;
        let (it, c2) = compile_spec(*thn, si, env, params, funcs, c1, brk)->Ok_0;
        let (ie, c3) = compile_spec(*els, si, env, params, funcs, c2, brk)->Ok_0;
        lemma_code_labels(*cond, si, env, params, funcs, c + 2, brk);
        lemma_code_labels(*thn, si, env, params, funcs, c1, brk);
        lemma_code_labels(*els, si, env, params, funcs, c2, brk);
        lemma_weaken(ic, counter_range(c + 2, c1), x, counter_range(c + 2, c1), o, cl);
        lemma_weaken(it, counter_range(c1, c2), x, counter_range(c1, c2), o, cl);
        lemma_weaken(ie, counter_range(c2, c3), x, counter_range(c2, c3), o, cl);
        let test = seq![InstrV::ICmp(rax(), Val::Imm(FALSE_VAL)), InstrV::IJe(else_label)];
        assert(jump_target(test[1]) == Some(else_label));
        lemma_plain(test, o, cl);
        lemma_weaken(test, Set::empty(), o, counter_range(c1, c1), o, cl);
        let skip = seq![InstrV::IJmp(end_label)];
        assert(jump_target(skip[0]) == Some(end_label));
        lemma_plain(skip, o, cl);
        lemma_weaken(skip, Set::empty(), o, counter_range(c2, c2), o, cl);
        let le = seq![InstrV::ILabel(else_label)];
        let lend = seq![InstrV::ILabel(end_label)];
        lemma_one_label("if_else"@, c, o, cl);
        lemma_one_label("if_end"@, c + 1, o, cl);
        lemma_join_ranges(ic, c + 2, c1, test, c1, o, cl);
        lemma_join_ranges(ic + test, c + 2, c1, it, c2, o, cl);
        lemma_join_ranges(ic + test + it, c + 2, c2, skip, c2, o, cl);
        let p = ic + test + it + skip;
        lemma_join(p, counter_range(c + 2, c2), le, set![c], o, cl);
        lemma_join(p + le, counter_range(c + 2, c2) + set![c], ie, counter_range(c2, c3), o, cl);
        let q = p + le + ie;
        let nq = counter_range(c + 2, c2) + set![c] + counter_range(c2, c3);
        lemma_join(q, nq, lend, set![c + 1], o, cl);
        assert(code =~= q + lend);
        lemma_labels_concat(q, lend);
        lemma_labels_concat(p, le);
        lemma_labels_concat(p + le, ie);
        assert(own.subset_of(labels(code)));
        lemma_close(code, nq + set![c + 1], x, own, cl);
        lemma_weaken(code, nq + set![c + 1], x, counter_range(c, c3), x, cl);
    }
}

proof fn lemma_code_labels_loop(
    e: ExprV,
    si: int,
    env: Map<Seq<char>, i32>,
    params: Set<Seq<char>>,
    funcs: Map<Seq<char>, (nat, Seq<char>)>,
    c: int,
    brk: Option<Seq<char>>,
)
    requires
        e is Loop,
        compile_spec(e, si, env, params, funcs, c, brk) is Ok,
    ensures
        c <= compile_spec(e, si, env, params, funcs, c, brk)->Ok_0.1,
        well_labelled(
            compile_spec(e, si, env, params, funcs, c, brk)->Ok_0.0,
            counter_range(c, compile_spec(e, si, env, params, funcs, c, brk)->Ok_0.1),
            exits(brk),
            callable(funcs),
        ),
    decreases e, 0nat,
{
    let code = compile_spec(e, si, env, params, funcs, c, brk)->Ok_0.0;
    let cl = callable(funcs);
    if let ExprV::Loop(body) = e {
        reveal_strlit("loop_start");
        reveal_strlit("loop_end");
        let start_label = label_text("loop_start"@, c);
        let end_label = label_text("loop_end"@, c + 1);
        let own = set![start_label, end_label];
        let x = exits(brk);
        let o = x + own;
        let (ib, c1) = compile_spec(*body, si, env, params, funcs, c + 2, Some(end_label))->Ok_0;
        lemma_code_labels(*body, si, env, params, funcs, c + 2, Some(end_label));
        assert(exits(Some(end_label)).subset_of(o));
        lemma_weaken(
            ib,
            counter_range(c + 2, c1),
            exits(Some(end_label)),
            counter_range(c + 2, c1),
            o,
            cl,
        );
        let ls = seq![InstrV::ILabel(start_label)];
        let back = seq![InstrV::IJmp(start_label)];
        let lend = seq![InstrV::ILabel(end_label)];
        lemma_one_label("loop_start"@, c, o, cl);
        lemma_one_label("loop_end"@, c + 1, o, cl);
        assert(jump_target(back[0]) == Some(start_label));
        lemma_plain(back, o, cl);
        lemma_weaken(back, Set::empty(), o, counter_range(c1, c1), o, cl);
        lemma_join_ranges(ib, c + 2, c1, back, c1, o, cl);
        lemma_join(ls, set![c], ib + back, counter_range(c + 2, c1), o, cl);
        lemma_join(ls + (ib + back), set![c] + counter_range(c + 2, c1), lend, set![c + 1], o, cl);
        assert(code =~= ls + (ib + back) + lend);
        lemma_labels_concat(ls + (ib + back), lend);
        lemma_labels_concat(ls, ib + back);
        assert(own.subset_of(labels(code)));
        let n = set![c] + counter_range(c + 2, c1) + set![c + 1];
        lemma_close(code, n, x, own, cl);
        lemma_weaken(code, n, x, counter_range(c, c1), x, cl);
    }
}

/// The code of the first `k` bindings of a `let` is well labelled.
pub proof fn lemma_let_labels(
    bs: Seq<(Seq<char>, ExprV)>,
    k: nat,
    si: int,
    env: Map<Seq<char>, i32>,
    params: Set<Seq<char>>,
    funcs: Map<Seq<char>, (nat, Seq<char>)>,
    c: int,
    brk: Option<Seq<char>>,
)
    requires
        let_prefix(bs, k, si, env, params, funcs, c, brk) is Ok,
    ensures
        c <= let_prefix(bs, k, si, env, params, funcs, c, brk)->Ok_0.2,
        well_labelled(
            let_prefix(bs, k, si, env, params, funcs, c, brk)->Ok_0.0,
            counter_range(c, let_prefix(bs, k, si, env, params, funcs, c, brk)->Ok_0.2),
            exits(brk),
            callable(funcs),
        ),
    decreases bs, k,
{
    let x = exits(brk);
    let cl = callable(funcs);
    if k == 0 || k > bs.len() {
        lemma_plain(Seq::empty(), x, cl);
        lemma_weaken(Seq::empty(), Set::empty(), x, counter_range(c, c), x, cl);
    } else {
        let (is, env1, c1) = let_prefix(bs, (k - 1) as nat, si, env, params, funcs, c, brk)->Ok_0;
        lemma_let_labels(bs, (k - 1) as nat, si, env, params, funcs, c, brk);
        let slot = si + k - 1;
        let (ie, c2) = compile_spec(bs[k - 1].1, slot, env1, params, funcs, c1, brk)->Ok_0;
        lemma_code_labels(bs[k - 1].1, slot, env1, params, funcs, c1, brk);
        let st = seq![InstrV::IMov(frame(slot_off(slot)), rax())];
        lemma_store(frame(slot_off(slot)), c2, x, cl);
        lemma_join_ranges(is, c, c1, ie, c2, x, cl);
        lemma_join_ranges(is + ie, c, c2, st, c2, x, cl);
        assert(is + ie.push(InstrV::IMov(frame(slot_off(slot)), rax())) =~= is + ie + st);
    }
}

/// The code of the first `k` expressions of a block is well labelled.
pub proof fn lemma_block_labels(
    es: Seq<ExprV>,
    k: nat,
    si: int,
    env: Map<Seq<char>, i32>,
    params: Set<Seq<char>>,
    funcs: Map<Seq<char>, (nat, Seq<char>)>,
    c: int,
    brk: Option<Seq<char>>,
)
    requires
        block_prefix(es, k, si, env, params, funcs, c, brk) is Ok,
    ensures
        c <= block_prefix(es, k, si, env, params, funcs, c, brk)->Ok_0.1,
        well_labelled(
            block_prefix(es, k, si, env, params, funcs, c, brk)->Ok_0.0,
            counter_range(c, block_prefix(es, k, si, env, params, funcs, c, brk)->Ok_0.1),
            exits(brk),
            callable(funcs),
        ),
    decreases es, k,
{
    let x = exits(brk);
    let cl = callable(funcs);
    if k == 0 || k > es.len() {
        lemma_plain(Seq::empty(), x, cl);
        lemma_weaken(Seq::empty(), Set::empty(), x, counter_range(c, c), x, cl);
    } else {
        let (is, c1) = block_prefix(es, (k - 1) as nat, si, env, params, funcs, c, brk)->Ok_0;
        lemma_block_labels(es, (k - 1) as nat, si, env, params, funcs, c, brk);
        let (ie, c2) = compile_spec(es[k - 1], si, env, params, funcs, c1, brk)->Ok_0;
        lemma_code_labels(es[k - 1], si, env, params, funcs, c1, brk);
        lemma_join_ranges(is, c, c1, ie, c2, x, cl);
    }
}

/// The code of the first `k` arguments of a call is well labelled.
pub proof fn lemma_call_args_labels(
    args: Seq<ExprV>,
    k: nat,
    si: int,
    env: Map<Seq<char>, i32>,
    params: Set<Seq<char>>,
    funcs: Map<Seq<char>, (nat, Seq<char>)>,
    c: int,
    brk: Option<Seq<char>>,
)
    requires
        call_args(args, k, si, env, params, funcs, c, brk) is Ok,
    ensures
        c <= call_args(args, k, si, env, params, funcs, c, brk)->Ok_0.1,
        well_labelled(
            call_args(args, k, si, env, params, funcs, c, brk)->Ok_0.0,
            counter_range(c, call_args(args, k, si, env, params, funcs, c, brk)->Ok_0.1),
            exits(brk),
            callable(funcs),
        ),
    decreases args, k,
{
    let x = exits(brk);
    let cl = callable(funcs);
    if k == 0 || k > args.len() {
        lemma_plain(Seq::empty(), x, cl);
        lemma_weaken(Seq::empty(), Set::empty(), x, counter_range(c, c), x, cl);
    } else {
        let (is, c1) = call_args(args, (k - 1) as nat, si, env, params, funcs, c, brk)->Ok_0;
        lemma_call_args_labels(args, (k - 1) as nat, si, env, params, funcs, c, brk);
        let slot = si + k - 1;
        let (ie, c2) = compile_spec(args[args.len() - k], slot, env, params, funcs, c1, brk)->Ok_0;
        lemma_code_labels(args[args.len() - k], slot, env, params, funcs, c1, brk);
        let st = seq![InstrV::IMov(frame(slot_off(slot)), rax())];
        lemma_store(frame(slot_off(slot)), c2, x, cl);
        lemma_join_ranges(is, c, c1, ie, c2, x, cl);
        lemma_join_ranges(is + ie, c, c2, st, c2, x, cl);
        assert(is + ie.push(InstrV::IMov(frame(slot_off(slot)), rax())) =~= is + ie + st);
    }
}

/// Whether code defines no label, jumps nowhere and calls nothing.
pub open spec fn is_plain(is: Seq<InstrV>) -> bool {
    forall|k: int|
        #![trigger is[k]]
        0 <= k < is.len() ==> defined_label(is[k]) is None && jump_target(is[k]) is None
            && call_target(is[k]) is None
}

proof fn lemma_plain_concat(a: Seq<InstrV>, b: Seq<InstrV>)
    requires
        is_plain(a),
        is_plain(b),
    ensures
        is_plain(a + b),
{
    assert forall|k: int| 0 <= k < (a + b).len() implies defined_label(#[trigger] (a + b)[k]) is None
        && jump_target((a + b)[k]) is None && call_target((a + b)[k]) is None by {
        if k < a.len() {
            assert((a + b)[k] == a[k]);
        } else {
            assert((a + b)[k] == b[k - a.len()]);
        }
    }
}

proof fn lemma_plain_sets(is: Seq<InstrV>)
    requires
        is_plain(is),
    ensures
        labels(is) == Set::<Seq<char>>::empty(),
        targets(is) == Set::<Seq<char>>::empty(),
        callees(is) == Set::<Seq<char>>::empty(),
        labels_unique(is),
{
    lemma_plain(is, Set::empty(), Set::empty());
    assert(targets(is) =~= Set::<Seq<char>>::empty());
    assert(callees(is) =~= Set::<Seq<char>>::empty());
}

proof fn lemma_frame_plain(fb: int)
    ensures
        is_plain(rsp_sub(fb)),
        is_plain(rsp_add(fb)),
{
}

/// Code made of a label, plain code, a body and plain code: its labels are
/// the label and those of the body, and its jumps and calls those of the
/// body.
proof fn lemma_wrapped(l: Seq<char>, pre: Seq<InstrV>, ib: Seq<InstrV>, post: Seq<InstrV>)
    requires
        is_plain(pre),
        is_plain(post),
        labels_unique(ib),
        !labels(ib).contains(l),
    ensures
        labels(seq![InstrV::ILabel(l)] + pre + ib + post) == set![l] + labels(ib),
        targets(seq![InstrV::ILabel(l)] + pre + ib + post) == targets(ib),
        callees(seq![InstrV::ILabel(l)] + pre + ib + post) == callees(ib),
        labels_unique(seq![InstrV::ILabel(l)] + pre + ib + post),
{
    let h = seq![InstrV::ILabel(l)];
    lemma_single_label(l);
    lemma_plain_sets(pre);
    lemma_plain_sets(post);
    lemma_labels_concat(h, pre);
    lemma_labels_concat(h + pre, ib);
    lemma_labels_concat(h + pre + ib, post);
    assert(labels(h + pre) =~= set![l]);
    assert(targets(h + pre) =~= Set::<Seq<char>>::empty());
    assert(callees(h + pre) =~= Set::<Seq<char>>::empty());
    assert(labels(h + pre + ib) =~= set![l] + labels(ib));
    assert(labels(h + pre + ib + post) =~= set![l] + labels(ib));
    assert(targets(h + pre + ib + post) =~= targets(ib));
    assert(callees(h + pre + ib + post) =~= callees(ib));
}

/// Every function label starts with `f`.
pub proof fn lemma_function_label_first(name: Seq<char>)
    ensures
        function_label_spec(name).len() > 0,
        function_label_spec(name)[0] == 'f',
{
    reveal_strlit("fun_");
    assert(function_label_spec(name)[0] == "fun_"@[0]);
}

/// The labels of the first `k` functions of a program.
pub open spec fn function_labels(ds: Seq<DefinitionV>, k: int) -> Set<Seq<char>> {
    Set::new(|l: Seq<char>| exists|j: int| 0 <= j < k && l == function_label_spec(#[trigger] ds[j].name))
}

/// Whether distinct functions of a program get distinct labels.  A byte
/// other than a letter, a digit or `_` is spelt as `_` and two hexadecimal
/// digits, so names such as `a-b` and `a_2db` share a label.
pub open spec fn function_labels_distinct(ds: Seq<DefinitionV>) -> bool {
    forall|i: int, j: int|
        0 <= i < j < ds.len() ==> function_label_spec(#[trigger] ds[i].name) != function_label_spec(
            #[trigger] ds[j].name,
        )
}

/// The table of the first `k` definitions holds exactly their names, each
/// with its label.
proof fn lemma_collect_table(ds: Seq<DefinitionV>, k: nat)
    requires
        k <= ds.len(),
        collect_prefix(ds, k) is Ok,
    ensures
        forall|name: Seq<char>| #[trigger]
            collect_prefix(ds, k)->Ok_0.contains_key(name) ==> collect_prefix(ds, k)->Ok_0[name].1
                == function_label_spec(name) && exists|j: int| 0 <= j < k && ds[j].name == name,
        forall|j: int| 0 <= j < k ==> collect_prefix(ds, k)->Ok_0.contains_key(#[trigger] ds[j].name),
    decreases k,
{
    if k > 0 {
        lemma_collect_table(ds, (k - 1) as nat);
        let m = collect_prefix(ds, (k - 1) as nat)->Ok_0;
        let m2 = collect_prefix(ds, k)->Ok_0;
        let d = ds[k - 1];
        assert(m2 == m.insert(d.name, (d.params.len(), function_label_spec(d.name))));
        assert forall|name: Seq<char>| #[trigger] m2.contains_key(name) implies m2[name].1
            == function_label_spec(name) && exists|j: int| 0 <= j < k && ds[j].name == name by {
            if name != d.name {
                let j = choose|j: int| 0 <= j < k - 1 && ds[j].name == name;
                assert(0 <= j < k && ds[j].name == name);
            } else {
                assert(0 <= k - 1 < k && ds[k - 1].name == name);
            }
        }
        assert forall|j: int| 0 <= j < k implies m2.contains_key(#[trigger] ds[j].name) by {
            if j < k - 1 {
                assert(m.contains_key(ds[j].name));
            }
        }
    }
}

/// The labels of a program's code: those that its expressions generate and
/// those of its functions.
pub open spec fn program_label_names(c: int, c1: int, ds: Seq<DefinitionV>, k: int) -> Set<Seq<char>> {
    numbered(counter_range(c, c1)) + function_labels(ds, k)
}

/// The code of the first `k` functions defines each label once, each a
/// generated label or a function label, jumps only to its own labels and the
/// handler of invalid arguments, and calls only defined functions and the
/// print routine.
proof fn lemma_defns_labels(
    ds: Seq<DefinitionV>,
    k: nat,
    funcs: Map<Seq<char>, (nat, Seq<char>)>,
    c: int,
)
    requires
        k <= ds.len(),
        defns_code(ds, k, funcs, c) is Ok,
        forall|j: int| 0 <= j < ds.len() ==> funcs.contains_key(#[trigger] ds[j].name)
            && funcs[ds[j].name].1 == function_label_spec(ds[j].name),
        function_labels_distinct(ds),
    ensures
        c <= defns_code(ds, k, funcs, c)->Ok_0.1,
        labels_unique(defns_code(ds, k, funcs, c)->Ok_0.0),
        labels(defns_code(ds, k, funcs, c)->Ok_0.0).subset_of(
            program_label_names(c, defns_code(ds, k, funcs, c)->Ok_0.1, ds, k as int),
        ),
        targets(defns_code(ds, k, funcs, c)->Ok_0.0).subset_of(
            labels(defns_code(ds, k, funcs, c)->Ok_0.0) + set![error_label()],
        ),
        callees(defns_code(ds, k, funcs, c)->Ok_0.0).subset_of(callable(funcs)),
        function_labels(ds, k as int).subset_of(labels(defns_code(ds, k, funcs, c)->Ok_0.0)),
    decreases k,
{
    if k == 0 {
        assert(function_labels(ds, 0) =~= Set::<Seq<char>>::empty());
        assert(labels(Seq::<InstrV>::empty()) =~= Set::<Seq<char>>::empty());
        assert(targets(Seq::<InstrV>::empty()) =~= Set::<Seq<char>>::empty());
        assert(callees(Seq::<InstrV>::empty()) =~= Set::<Seq<char>>::empty());
    } else {
        let (is, c1) = defns_code(ds, (k - 1) as nat, funcs, c)->Ok_0;
        lemma_defns_labels(ds, (k - 1) as nat, funcs, c);
        let d = ds[k - 1];
        let (id, c2) = compile_defn_spec(d, funcs, c1)->Ok_0;
        let fb = function_frame(d.body);
        let env = param_env(d.params, d.params.len());
        let (ib, c3) = compile_spec(d.body, 1, env, d.params.to_set(), funcs, c1, None)->Ok_0;
        lemma_code_labels(d.body, 1, env, d.params.to_set(), funcs, c1, None);
        let l = function_label_spec(d.name);
        assert(funcs.contains_key(ds[k - 1].name));
        lemma_function_label_first(d.name);
        let pre = seq![InstrV::IPush(Val::Reg(Reg::RBP)), InstrV::IMov(Val::Reg(Reg::RBP), Val::Reg(Reg::RSP))]
            + rsp_sub(fb);
        let post = rsp_add(fb) + seq![InstrV::IPop(Val::Reg(Reg::RBP)), InstrV::IRet];
        lemma_frame_plain(fb);
        lemma_plain_concat(seq![InstrV::IPush(Val::Reg(Reg::RBP)), InstrV::IMov(Val::Reg(Reg::RBP), Val::Reg(Reg::RSP))], rsp_sub(fb));
        lemma_plain_concat(rsp_add(fb), seq![InstrV::IPop(Val::Reg(Reg::RBP)), InstrV::IRet]);
        assert(!labels(ib).contains(l)) by {
            if labels(ib).contains(l) {
                assert(numbered(counter_range(c1, c3)).contains(l));
            }
        }
        lemma_wrapped(l, pre, ib, post);
        assert(id =~= seq![InstrV::ILabel(l)] + pre + ib + post);
        lemma_labels_concat(is, id);
        let n1 = counter_range(c, c1);
        let n2 = counter_range(c1, c3);
        lemma_numbered_disjoint(n1, n2);
        lemma_numbered_mono(n1, counter_range(c, c3));
        lemma_numbered_mono(n2, counter_range(c, c3));
        assert(labels(is).disjoint(labels(id))) by {
            assert forall|x: Seq<char>| labels(is).contains(x) implies !labels(id).contains(x) by {
                if labels(id).contains(x) {
                    if x == l {
                        if numbered(n1).contains(x) {
                        } else {
                            let j = choose|j: int| 0 <= j < k - 1 && x == function_label_spec(
                                #[trigger] ds[j].name,
                            );
                            assert(function_label_spec(ds[j].name) != function_label_spec(
                                ds[k - 1].name,
                            ));
                        }
                    } else {
                        assert(numbered(n2).contains(x));
                        if !numbered(n1).contains(x) {
                            let j = choose|j: int| 0 <= j < k - 1 && x == function_label_spec(
                                #[trigger] ds[j].name,
                            );
                            lemma_function_label_first(ds[j].name);
                        }
                    }
                }
            }
        }
        assert(function_labels(ds, k - 1).subset_of(function_labels(ds, k as int))) by {
            assert forall|x: Seq<char>| function_labels(ds, k - 1).contains(x) implies function_labels(
                ds,
                k as int,
            ).contains(x) by {
                let j = choose|j: int| 0 <= j < k - 1 && x == function_label_spec(#[trigger] ds[j].name);
                assert(0 <= j < k && x == function_label_spec(ds[j].name));
            }
        }
        assert(function_labels(ds, k as int).contains(l)) by {
            assert(0 <= k - 1 < k && l == function_label_spec(ds[k - 1].name));
        }
        assert(function_labels(ds, k as int).subset_of(labels(is + id))) by {
            assert forall|x: Seq<char>| function_labels(ds, k as int).contains(x) implies labels(
                is + id,
            ).contains(x) by {
                let j = choose|j: int| 0 <= j < k && x == function_label_spec(#[trigger] ds[j].name);
                if j < k - 1 {
                    assert(function_labels(ds, k - 1).contains(x));
                }
            }
        }
    }
}

/// The instructions of a program that compiles: every function, then the
/// entry point.
pub open spec fn program_code(p: ProgramV) -> Seq<InstrV> {
    let funcs = collect_prefix(p.defns, p.defns.len())->Ok_0;
    let di = defns_code(p.defns, p.defns.len(), funcs, 0)->Ok_0;
    di.0 + compile_main_spec(p.main, funcs, di.1)->Ok_0.0
}

/// In the code of a program whose functions get distinct labels, every label
/// is defined once, every jump lands on a label of the code or on the handler
/// of invalid arguments, and every call lands on a function of the code or on
/// the runtime's print routine.
pub proof fn lemma_program_labels(p: ProgramV)
    requires
        compile_program_spec(p) is Ok,
        function_labels_distinct(p.defns),
    ensures
        labels_unique(program_code(p)),
        targets(program_code(p)).subset_of(labels(program_code(p)) + set![error_label()]),
        callees(program_code(p)).subset_of(labels(program_code(p)) + set!["snek_print"@]),
{
    let ds = p.defns;
    let n = ds.len();
    let funcs = collect_prefix(ds, n)->Ok_0;
    lemma_collect_table(ds, n);
    let (di, c1) = defns_code(ds, n, funcs, 0)->Ok_0;
    lemma_defns_labels(ds, n, funcs, 0);
    let fb = main_frame(p.main);
    let (ib, c2) = compile_spec(p.main, 1, Map::empty(), Set::empty(), funcs, c1, None)->Ok_0;
    lemma_code_labels(p.main, 1, Map::empty(), Set::empty(), funcs, c1, None);
    let mi = compile_main_spec(p.main, funcs, c1)->Ok_0.0;
    reveal_strlit("our_code_starts_here");
    let l = "our_code_starts_here"@;
    let pre = seq![InstrV::IPush(Val::Reg(Reg::RBP)), InstrV::IMov(Val::Reg(Reg::RBP), Val::Reg(Reg::RSP))]
        + rsp_sub(fb) + seq![
        InstrV::IPush(Val::Reg(Reg::R12)),
        InstrV::IMov(Val::Reg(Reg::R12), Val::Reg(Reg::RDI)),
    ];
    let post = seq![InstrV::IPop(Val::Reg(Reg::R12))] + rsp_add(fb) + seq![
        InstrV::IPop(Val::Reg(Reg::RBP)),
        InstrV::IRet,
    ];
    lemma_frame_plain(fb);
    lemma_plain_concat(seq![InstrV::IPush(Val::Reg(Reg::RBP)), InstrV::IMov(Val::Reg(Reg::RBP), Val::Reg(Reg::RSP))], rsp_sub(fb));
    lemma_plain_concat(seq![InstrV::IPush(Val::Reg(Reg::RBP)), InstrV::IMov(Val::Reg(Reg::RBP), Val::Reg(Reg::RSP))]
        + rsp_sub(fb), seq![InstrV::IPush(Val::Reg(Reg::R12)), InstrV::IMov(Val::Reg(Reg::R12), Val::Reg(Reg::RDI))]);
    lemma_plain_concat(seq![InstrV::IPop(Val::Reg(Reg::R12))], rsp_add(fb));
    lemma_plain_concat(seq![InstrV::IPop(Val::Reg(Reg::R12))] + rsp_add(fb), seq![InstrV::IPop(Val::Reg(Reg::RBP)), InstrV::IRet]);
    assert(!labels(ib).contains(l)) by {
        if labels(ib).contains(l) {
            assert(numbered(counter_range(c1, c2)).contains(l));
            let (q, m) = choose|q: Seq<char>, m: int|
                counter_range(c1, c2).contains(m) && l == label_text(q, m) && l[0] != 'f';
            lemma_label_ends_in_digit(q, m);
        }
    }
    lemma_wrapped(l, pre, ib, post);
    assert(mi =~= seq![InstrV::ILabel(l)] + pre + ib + post);
    lemma_labels_concat(di, mi);
    let n1 = counter_range(0, c1);
    let n2 = counter_range(c1, c2);
    lemma_numbered_disjoint(n1, n2);
    assert(labels(di).disjoint(labels(mi))) by {
        assert forall|x: Seq<char>| labels(di).contains(x) implies !labels(mi).contains(x) by {
            if labels(mi).contains(x) {
                if x == l {
                    if numbered(n1).contains(x) {
                        let (q, m) = choose|q: Seq<char>, m: int|
                            n1.contains(m) && x == label_text(q, m) && x[0] != 'f';
                        lemma_label_ends_in_digit(q, m);
                    } else {
                        let j = choose|j: int| 0 <= j < n && x == function_label_spec(
                            #[trigger] ds[j].name,
                        );
                        lemma_function_label_first(ds[j].name);
                    }
                } else {
                    assert(numbered(n2).contains(x));
                    if !numbered(n1).contains(x) {
                        let j = choose|j: int| 0 <= j < n && x == function_label_spec(
                            #[trigger] ds[j].name,
                        );
                        lemma_function_label_first(ds[j].name);
                    }
                }
            }
        }
    }
    let code = di + mi;
    assert(callable(funcs).subset_of(labels(code) + set!["snek_print"@])) by {
        assert forall|x: Seq<char>| callable(funcs).contains(x) implies (labels(code) + set![
            "snek_print"@,
        ]).contains(x) by {
            if x != "snek_print"@ {
                let name = choose|name: Seq<char>| #[trigger] funcs.contains_key(name) && funcs[name].1 == x;
                let j = choose|j: int| 0 <= j < n && ds[j].name == name;
                assert(function_labels(ds, n as int).contains(x)) by {
                    assert(0 <= j < n && x == function_label_spec(ds[j].name));
                }
                assert(labels(di).contains(x));
            }
        }
    }
}

} // verus!
