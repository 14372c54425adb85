//! S-expression trees, as read from program text by the `sexp` crate.
use vstd::prelude::*;

verus! {

broadcast use vstd::std_specs::vec::axiom_vec_decreases_to_view;

/// A single atom of an S-expression.
#[derive(Debug)]
pub enum SAtom {
    /// A symbol (an unquoted word or a quoted string).
    S(String),
    /// An integer literal.
    I(i64),
    /// A floating-point literal; no compiler reads its value.
    F,
}

/// An S-expression: an atom or a parenthesised list.
#[derive(Debug)]
pub enum SExp {
    Atom(SAtom),
    List(Vec<SExp>),
}

/// Mathematical model of an atom.
pub enum SAtomV {
    S(Seq<char>),
    I(i64),
    F,
}

/// Mathematical model of an S-expression.
pub enum SExpV {
    Atom(SAtomV),
    List(Seq<SExpV>),
}

impl View for SAtom {
    type V = SAtomV;

    open spec fn view(&self) -> SAtomV {
        match self {
            SAtom::S(s) => SAtomV::S(s@),
            SAtom::I(i) => SAtomV::I(*i),
            SAtom::F => SAtomV::F,
        }
    }
}

/// The model of an S-expression tree.
pub open spec fn sexp_view(s: SExp) -> SExpV
    decreases s,
{
    match s {
        SExp::Atom(a) => SExpV::Atom(a@),
        SExp::List(v) => SExpV::List(sexps_view(v@)),
    }
}

/// The models of a sequence of S-expression trees.
pub open spec fn sexps_view(s: Seq<SExp>) -> Seq<SExpV>
    decreases s,
{
    if s.len() == 0 {
        Seq::empty()
    } else {
        sexps_view(s.drop_last()).push(sexp_view(s.last()))
    }
}

impl View for SExp {
    type V = SExpV;

    open spec fn view(&self) -> SExpV {
        sexp_view(*self)
    }
}

/// `sexps_view` maps each tree to its model, one for one.
pub broadcast proof fn lemma_sexps_view(s: Seq<SExp>)
    ensures
        #[trigger] sexps_view(s).len() == s.len(),
        forall|i: int| 0 <= i < s.len() ==> #[trigger] sexps_view(s)[i] == sexp_view(s[i]),
    decreases s.len(),
{
    if s.len() > 0 {
        lemma_sexps_view(s.drop_last());
    }
}

/// Error value of the `sexp` crate's reader.
#[verifier::external_type_specification]
#[verifier::external_body]
pub struct ExSexpReadError(sexp::Error);

/// The tree type of the `sexp` crate.
#[verifier::external_type_specification]
#[verifier::external_body]
pub struct ExOutsideSexp(sexp::Sexp);

/// What `sexp::parse` reads from a text: `None` where it reports an error.
pub uninterp spec fn sexp_reading(text: Seq<char>) -> Option<SExpV>;

/// Calls `sexp::parse` on `text`.  The result is claimed to be what
/// `sexp_reading` names for the text, the tree taken by its model.  Nothing is
/// claimed of the error's contents.  The reader recurses once per nesting
/// level, so a text nested deeper than the thread's stack allows does not
/// return; that depth is not stated.
#[verifier::external_body]
fn sexp_parse(text: &str) -> (res: Result<SExp, Box<sexp::Error>>)
    ensures
        match res {
            Ok(t) => sexp_reading(text@) == Some(t@),
            Err(_) => sexp_reading(text@) is None,
        },
{
    match sexp::parse(text) {
        Ok(t) => Ok(from_outside_tree(&t)),
        Err(e) => Err(e),
    }
}

/// Copies a tree of the `sexp` crate into this library's `SExp`, node for
/// node; a float atom becomes `SAtom::F`.  Used only by `sexp_parse`, whose
/// contract states the outcome.
#[verifier::external_body]
fn from_outside_tree(t: &sexp::Sexp) -> SExp {
    match t {
        sexp::Sexp::Atom(sexp::Atom::S(s)) => SExp::Atom(SAtom::S(s.clone())),
        sexp::Sexp::Atom(sexp::Atom::I(i)) => SExp::Atom(SAtom::I(*i)),
        sexp::Sexp::Atom(sexp::Atom::F(_)) => SExp::Atom(SAtom::F),
        sexp::Sexp::List(xs) => SExp::List(xs.iter().map(from_outside_tree).collect()),
    }
}

/// Reads one S-expression from `text`.  Fails exactly when the `sexp` reader
/// reports an error.
pub fn parse(text: &str) -> (res: Option<SExp>)
    ensures
        match res {
            Some(t) => sexp_reading(text@) == Some(t@),
            None => sexp_reading(text@) is None,
        },
{
    match sexp_parse(text) {
        Ok(t) => Some(t),
        Err(_) => None,
    }
}

} // verus!
