//! Reading Diamondback programs from text and S-expressions.
use vstd::prelude::*;
use crate::sexpr::{SAtom, SAtomV, SExp, SExpV, sexps_view, lemma_sexps_view};
use crate::error::{CompileError, CompileErrorV};
use crate::text::str_eq;
use crate::diamondback::syntax::{Expr, ExprV, UnOp, BinOp, Definition, DefinitionV, Program,
    ProgramV, exprs_view, binds_view, names_view, defns_view, lemma_exprs_view,
    lemma_binds_view};
use crate::sexpr::{parse, sexp_reading};

verus! {

broadcast use vstd::std_specs::vec::axiom_vec_decreases_to_view, lemma_sexps_view,
    lemma_exprs_view, lemma_binds_view;

/// The reserved words of Diamondback.
pub open spec fn keyword(s: Seq<char>) -> bool {
    ||| s == "true"@
    ||| s == "false"@
    ||| s == "input"@
    ||| s == "let"@
    ||| s == "add1"@
    ||| s == "sub1"@
    ||| s == "negate"@
    ||| s == "+"@
    ||| s == "-"@
    ||| s == "*"@
    ||| s == "<"@
    ||| s == ">"@
    ||| s == "<="@
    ||| s == ">="@
    ||| s == "="@
    ||| s == "isnum"@
    ||| s == "isbool"@
    ||| s == "print"@
    ||| s == "if"@
    ||| s == "block"@
    ||| s == "loop"@
    ||| s == "break"@
    ||| s == "set!"@
    ||| s == "fun"@
}

/// The unary operator that a word names, if any.
pub open spec fn unop_named(op: Seq<char>) -> Option<UnOp> {
    if op == "add1"@ {
        Some(UnOp::Add1)
    } else if op == "sub1"@ {
        Some(UnOp::Sub1)
    } else if op == "negate"@ {
        Some(UnOp::Negate)
    } else if op == "isnum"@ {
        Some(UnOp::IsNum)
    } else if op == "isbool"@ {
        Some(UnOp::IsBool)
    } else if op == "print"@ {
        Some(UnOp::Print)
    } else {
        None
    }
}

/// The binary operator that a word names, if any.
pub open spec fn binop_named(op: Seq<char>) -> Option<BinOp> {
    if op == "+"@ {
        Some(BinOp::Plus)
    } else if op == "-"@ {
        Some(BinOp::Minus)
    } else if op == "*"@ {
        Some(BinOp::Times)
    } else if op == "<"@ {
        Some(BinOp::Less)
    } else if op == ">"@ {
        Some(BinOp::Greater)
    } else if op == "<="@ {
        Some(BinOp::LessEq)
    } else if op == ">="@ {
        Some(BinOp::GreaterEq)
    } else if op == "="@ {
        Some(BinOp::Equal)
    } else {
        None
    }
}

/// The symbol that an S-expression is, if it is one.
pub open spec fn symbol_of(s: SExpV) -> Option<Seq<char>> {
    match s {
        SExpV::Atom(SAtomV::S(x)) => Some(x),
        _ => None,
    }
}

/// The grammar of Diamondback expressions: the expression that an S-expression denotes, or
/// `None` where it denotes none.
pub open spec fn parse_spec(s: SExpV) -> Option<ExprV>
    decreases s,
{
    match s {
        SExpV::Atom(SAtomV::I(n)) => if i32::MIN <= n <= i32::MAX {
            Some(ExprV::Number(n as i32))
        } else {
            None
        },
        SExpV::Atom(SAtomV::S(name)) => if name == "true"@ {
            Some(ExprV::Bool(true))
        } else if name == "false"@ {
            Some(ExprV::Bool(false))
        } else if name == "input"@ {
            Some(ExprV::Input)
        } else if keyword(name) {
            None
        } else {
            Some(ExprV::Id(name))
        },
        SExpV::Atom(SAtomV::F) => None,
        SExpV::List(items) => {
            if items.len() > 0 && symbol_of(items[0]) is Some {
                let op = symbol_of(items[0])->0;
                if op == "let"@ && items.len() == 3 && items[1] is List && items[1]->List_0.len() > 0 {
                    match (parse_binds_spec(items[1]->List_0), parse_spec(items[2])) {
                        (Some(bs), Some(body)) => Some(ExprV::Let(bs, Box::new(body))),
                        _ => None,
                    }
                } else if items.len() == 2 && unop_named(op) is Some {
                    match parse_spec(items[1]) {
                        Some(a) => Some(ExprV::UnOp(unop_named(op)->0, Box::new(a))),
                        None => None,
                    }
                } else if items.len() == 3 && binop_named(op) is Some {
                    match (parse_spec(items[1]), parse_spec(items[2])) {
                        (Some(a), Some(b)) => Some(
                            ExprV::BinOp(binop_named(op)->0, Box::new(a), Box::new(b)),
                        ),
                        _ => None,
                    }
                } else if op == "if"@ && items.len() == 4 {
                    match (parse_spec(items[1]), parse_spec(items[2]), parse_spec(items[3])) {
                        (Some(c), Some(t), Some(f)) => Some(
                            ExprV::If(Box::new(c), Box::new(t), Box::new(f)),
                        ),
                        _ => None,
                    }
                } else if op == "block"@ && items.len() >= 2 {
                    match parse_seq_spec(items.subrange(1, items.len() as int)) {
                        Some(es) => Some(ExprV::Block(es)),
                        None => None,
                    }
                } else if op == "loop"@ && items.len() == 2 {
                    match parse_spec(items[1]) {
                        Some(a) => Some(ExprV::Loop(Box::new(a))),
                        None => None,
                    }
                } else if op == "break"@ && items.len() == 2 {
                    match parse_spec(items[1]) {
                        Some(a) => Some(ExprV::Break(Box::new(a))),
                        None => None,
                    }
                } else if op == "set!"@ && items.len() == 3 && symbol_of(items[1]) is Some {
                    let name = symbol_of(items[1])->0;
                    if keyword(name) {
                        None
                    } else {
                        match parse_spec(items[2]) {
                            Some(a) => Some(ExprV::Assign(name, Box::new(a))),
                            None => None,
                        }
                    }
                } else if keyword(op) {
                    None
                } else {
                    match parse_seq_spec(items.subrange(1, items.len() as int)) {
                        Some(args) => Some(ExprV::Call(op, args)),
                        None => None,
                    }
                }
            } else {
                None
            }
        },
    }
}

/// The grammar of one `let` binding `(name expr)`.
pub open spec fn parse_bind_spec(s: SExpV) -> Option<(Seq<char>, ExprV)>
    decreases s,
{
    match s {
        SExpV::List(pair) => if pair.len() == 2 && symbol_of(pair[0]) is Some {
            let name = symbol_of(pair[0])->0;
            if keyword(name) {
                None
            } else {
                match parse_spec(pair[1]) {
                    Some(e) => Some((name, e)),
                    None => None,
                }
            }
        } else {
            None
        },
        _ => None,
    }
}

/// The grammar of a sequence of `let` bindings: all of them, or `None`.
pub open spec fn parse_binds_spec(s: Seq<SExpV>) -> Option<Seq<(Seq<char>, ExprV)>>
    decreases s,
{
    if s.len() == 0 {
        Some(Seq::empty())
    } else {
        match (parse_binds_spec(s.drop_last()), parse_bind_spec(s.last())) {
            (Some(bs), Some(b)) => Some(bs.push(b)),
            _ => None,
        }
    }
}

/// The grammar of a sequence of expressions: all of them, or `None`.
pub open spec fn parse_seq_spec(s: Seq<SExpV>) -> Option<Seq<ExprV>>
    decreases s,
{
    if s.len() == 0 {
        Some(Seq::empty())
    } else {
        match (parse_seq_spec(s.drop_last()), parse_spec(s.last())) {
            (Some(es), Some(e)) => Some(es.push(e)),
            _ => None,
        }
    }
}


/// Whether a name is a reserved word.
pub fn is_keyword(name: &str) -> (r: bool)
    ensures
        r == keyword(name@),
{
    str_eq(name, "true") || str_eq(name, "false") || str_eq(name, "input") || str_eq(name, "let")
        || str_eq(name, "add1") || str_eq(name, "sub1") || str_eq(name, "negate")
        || str_eq(name, "+") || str_eq(name, "-") || str_eq(name, "*") || str_eq(name, "<")
        || str_eq(name, ">") || str_eq(name, "<=") || str_eq(name, ">=") || str_eq(name, "=")
        || str_eq(name, "isnum") || str_eq(name, "isbool") || str_eq(name, "print")
        || str_eq(name, "if")
        || str_eq(name, "block") || str_eq(name, "loop") || str_eq(name, "break")
        || str_eq(name, "set!") || str_eq(name, "fun")
}

fn unop_of(op: &str) -> (r: Option<UnOp>)
    ensures
        r == unop_named(op@),
{
    if str_eq(op, "add1") {
        Some(UnOp::Add1)
    } else if str_eq(op, "sub1") {
        Some(UnOp::Sub1)
    } else if str_eq(op, "negate") {
        Some(UnOp::Negate)
    } else if str_eq(op, "isnum") {
        Some(UnOp::IsNum)
    } else if str_eq(op, "isbool") {
        Some(UnOp::IsBool)
    } else if str_eq(op, "print") {
        Some(UnOp::Print)
    } else {
        None
    }
}

fn binop_of(op: &str) -> (r: Option<BinOp>)
    ensures
        r == binop_named(op@),
{
    if str_eq(op, "+") {
        Some(BinOp::Plus)
    } else if str_eq(op, "-") {
        Some(BinOp::Minus)
    } else if str_eq(op, "*") {
        Some(BinOp::Times)
    } else if str_eq(op, "<") {
        Some(BinOp::Less)
    } else if str_eq(op, ">") {
        Some(BinOp::Greater)
    } else if str_eq(op, "<=") {
        Some(BinOp::LessEq)
    } else if str_eq(op, ">=") {
        Some(BinOp::GreaterEq)
    } else if str_eq(op, "=") {
        Some(BinOp::Equal)
    } else {
        None
    }
}

/// The symbol that an S-expression is, if it is one.
fn symbol_in(s: &SExp) -> (r: Option<&String>)
    ensures
        match r {
            Some(x) => symbol_of(s@) == Some(x@),
            None => symbol_of(s@) is None,
        },
{
    match s {
        SExp::Atom(SAtom::S(x)) => Some(x),
        _ => None,
    }
}

/// Parses an S-expression as a Diamondback expression; fails with `Invalid` exactly
/// where the grammar gives none.
#[verifier::loop_isolation(false)]
pub fn parse_expr(s: &SExp) -> (r: Result<Expr, CompileError>)
    ensures
        match r {
            Ok(e) => parse_spec(s@) == Some(e@),
            Err(err) => parse_spec(s@) is None && err@ == CompileErrorV::Invalid,
        },
    decreases s, 1nat,
{
    match s {
        SExp::Atom(SAtom::I(n)) => {
            if i32::MIN as i64 <= *n && *n <= i32::MAX as i64 {
                Ok(Expr::Number(*n as i32))
            } else {
                Err(CompileError::Invalid)
            }
        },
        SExp::Atom(SAtom::S(name)) => {
            if str_eq(name.as_str(), "true") {
                Ok(Expr::Bool(true))
            } else if str_eq(name.as_str(), "false") {
                Ok(Expr::Bool(false))
            } else if str_eq(name.as_str(), "input") {
                Ok(Expr::Input)
            } else if is_keyword(name.as_str()) {
                Err(CompileError::Invalid)
            } else {
                Ok(Expr::Id(name.clone()))
            }
        },
        SExp::Atom(SAtom::F) => Err(CompileError::Invalid),
        SExp::List(items) => {
            let ghost iv = sexps_view(items@);
            assert(s@ == SExpV::List(iv));
            let n = items.len();
            if n == 0 {
                return Err(CompileError::Invalid);
            }
            let op = match symbol_in(&items[0]) {
                Some(op) => op.as_str(),
                None => { return Err(CompileError::Invalid); },
            };
            let let_binds: Option<&Vec<SExp>> = if str_eq(op, "let") && n == 3 {
                match &items[1] {
                    SExp::List(bs) => if bs.len() > 0 {
                        Some(bs)
                    } else {
                        None
                    },
                    _ => None,
                }
            } else {
                None
            };
            if let Some(bs) = let_binds {
                assert(iv[1] == SExpV::List(sexps_view(bs@)));
                let mut binds: Vec<(String, Expr)> = Vec::new();
                let mut i: usize = 0;
                while i < bs.len()
                    invariant
                        0 <= i <= bs.len(),
                        binds@.len() == i,
                        parse_binds_spec(sexps_view(bs@).take(i as int)) == Some(
                            binds_view(binds@),
                        ),
                        s@ == SExpV::List(iv),
                        iv == sexps_view(items@),
                        items@.len() == 3,
                        items@[1] == SExp::List(*bs),
                    decreases bs.len() - i,
                {
                    assert(decreases_to!(*s => bs@[i as int])) by {
                        assert(decreases_to!(*s => *items));
                        assert(decreases_to!(*items => items@));
                        assert(decreases_to!(items@ => items@[1]));
                        assert(decreases_to!(items@[1] => *bs));
                        assert(decreases_to!(*bs => bs@));
                        assert(decreases_to!(bs@ => bs@[i as int]));
                    }
                    let b = parse_bind(&bs[i]);
                    match b {
                        Ok(b) => {
                            let ghost prev = binds@;
                            binds.push(b);
                            assert(sexps_view(bs@).take(i + 1).drop_last() =~= sexps_view(
                                bs@,
                            ).take(i as int));
                            assert(binds@.drop_last() =~= prev);
                        },
                        Err(e) => {
                            assert(sexps_view(bs@).take(i + 1).drop_last() =~= sexps_view(
                                bs@,
                            ).take(i as int));
                            proof {
                                lemma_binds_prefix_fails(sexps_view(bs@), i as int + 1);
                                assert(iv[1] == SExpV::List(sexps_view(bs@)));
                            }
                            return Err(e);
                        },
                    }
                    i = i + 1;
                }
                assert(sexps_view(bs@).take(bs@.len() as int) =~= sexps_view(bs@));
                let body = parse_expr(&items[2])?;
                return Ok(Expr::Let(binds, Box::new(body)));
            }
            if n == 2 {
                if let Some(u) = unop_of(op) {
                    let a = parse_expr(&items[1])?;
                    return Ok(Expr::UnOp(u, Box::new(a)));
                }
            }
            if n == 3 {
                if let Some(b) = binop_of(op) {
                    let a = parse_expr(&items[1])?;
                    let c = parse_expr(&items[2])?;
                    return Ok(Expr::BinOp(b, Box::new(a), Box::new(c)));
                }
            }
            if str_eq(op, "if") && n == 4 {
                let c = parse_expr(&items[1])?;
                let t = parse_expr(&items[2])?;
                let f = parse_expr(&items[3])?;
                return Ok(Expr::If(Box::new(c), Box::new(t), Box::new(f)));
            }
            if str_eq(op, "block") && n >= 2 {
                let es = parse_rest(s, items)?;
                return Ok(Expr::Block(es));
            }
            if str_eq(op, "loop") && n == 2 {
                let a = parse_expr(&items[1])?;
                return Ok(Expr::Loop(Box::new(a)));
            }
            if str_eq(op, "break") && n == 2 {
                let a = parse_expr(&items[1])?;
                return Ok(Expr::Break(Box::new(a)));
            }
            if str_eq(op, "set!") && n == 3 {
                if let Some(name) = symbol_in(&items[1]) {
                    if is_keyword(name.as_str()) {
                        return Err(CompileError::Invalid);
                    }
                    let a = parse_expr(&items[2])?;
                    return Ok(Expr::Assign(name.clone(), Box::new(a)));
                }
            }
            if is_keyword(op) {
                return Err(CompileError::Invalid);
            }
            let args = parse_rest(s, items)?;
            Ok(Expr::Call(op.to_owned(), args))
        },
    }
}

/// Parses the elements of a list after its head, in order.
#[verifier::loop_isolation(false)]
fn parse_rest(s: &SExp, items: &Vec<SExp>) -> (r: Result<Vec<Expr>, CompileError>)
    requires
        *s == SExp::List(*items),
        items@.len() >= 1,
    ensures
        match r {
            Ok(es) => parse_seq_spec(sexps_view(items@).subrange(1, items@.len() as int)) == Some(
                exprs_view(es@),
            ),
            Err(err) => parse_seq_spec(
                sexps_view(items@).subrange(1, items@.len() as int),
            ) is None && err@ == CompileErrorV::Invalid,
        },
    decreases s, 0nat,
{
    let ghost iv = sexps_view(items@);
    proof {
        lemma_sexps_view(items@);
    }
    let n = items.len();
    let mut es: Vec<Expr> = Vec::new();
    let mut i: usize = 1;
    assert(iv.subrange(1, 1) =~= Seq::<SExpV>::empty());
    while i < n
        invariant
            1 <= i <= n,
            n == items@.len(),
            es@.len() == i - 1,
            parse_seq_spec(iv.subrange(1, i as int)) == Some(exprs_view(es@)),
        decreases n - i,
    {
        assert(decreases_to!(*s => items@[i as int])) by {
            assert(decreases_to!(*s => (*s)->List_0));
            assert((*s)->List_0 == *items);
            assert(decreases_to!(*items => items@));
            assert(decreases_to!(items@ => items@[i as int]));
        }
        let e = parse_expr(&items[i]);
        assert(iv.subrange(1, i + 1).drop_last() =~= iv.subrange(1, i as int));
        assert(iv.subrange(1, i + 1).last() == items@[i as int]@);
        match e {
            Ok(e) => {
                let ghost prev = es@;
                es.push(e);
                assert(es@.drop_last() =~= prev);
            },
            Err(err) => {
                proof {
                    let whole = iv.subrange(1, n as int);
                    assert(whole.take(i as int) =~= iv.subrange(1, i + 1));
                    lemma_seq_prefix_fails(whole, i as int);
                }
                return Err(err);
            },
        }
        i = i + 1;
    }
    Ok(es)
}

/// A sequence of bindings whose prefix fails fails as a whole.
proof fn lemma_binds_prefix_fails(s: Seq<SExpV>, k: int)
    requires
        0 < k <= s.len(),
        parse_binds_spec(s.take(k)) is None,
    ensures
        parse_binds_spec(s) is None,
    decreases s.len() - k,
{
    if k < s.len() {
        assert(s.take(k + 1).drop_last() =~= s.take(k));
        lemma_binds_prefix_fails(s, k + 1);
    } else {
        assert(s.take(k) =~= s);
    }
}

/// A sequence of expressions whose prefix fails fails as a whole.
proof fn lemma_seq_prefix_fails(s: Seq<SExpV>, k: int)
    requires
        0 < k <= s.len(),
        parse_seq_spec(s.take(k)) is None,
    ensures
        parse_seq_spec(s) is None,
    decreases s.len() - k,
{
    if k < s.len() {
        assert(s.take(k + 1).drop_last() =~= s.take(k));
        lemma_seq_prefix_fails(s, k + 1);
    } else {
        assert(s.take(k) =~= s);
    }
}

/// Parses one `let` binding `(name expr)`; fails with `Invalid` exactly where
/// the grammar gives none.
pub fn parse_bind(s: &SExp) -> (r: Result<(String, Expr), CompileError>)
    ensures
        match r {
            Ok(b) => parse_bind_spec(s@) == Some((b.0@, b.1@)),
            Err(err) => parse_bind_spec(s@) is None && err@ == CompileErrorV::Invalid,
        },
    decreases s, 1nat,
{
    match s {
        SExp::List(pair) => {
            assert(s@ == SExpV::List(sexps_view(pair@)));
            if pair.len() == 2 {
                if let Some(name) = symbol_in(&pair[0]) {
                    if is_keyword(name.as_str()) {
                        return Err(CompileError::Invalid);
                    }
                    let e = parse_expr(&pair[1])?;
                    proof {
                        lemma_sexps_view(pair@);
                    }
                    return Ok((name.clone(), e));
                }
            }
            Err(CompileError::Invalid)
        },
        _ => Err(CompileError::Invalid),
    }
}


/// The parameter names of a signature, in order, or the error that rejects
/// the first bad one.
pub open spec fn parse_params_spec(ps: Seq<SExpV>) -> Result<Seq<Seq<char>>, CompileErrorV>
    decreases ps.len(),
{
    if ps.len() == 0 {
        Ok(Seq::empty())
    } else {
        match parse_params_spec(ps.drop_last()) {
            Ok(names) => match symbol_of(ps.last()) {
                Some(p) => if keyword(p) {
                    Err(CompileErrorV::InvalidParameterName(p))
                } else {
                    Ok(names.push(p))
                },
                None => Err(CompileErrorV::InvalidParameter),
            },
            Err(x) => Err(x),
        }
    }
}

/// Whether an S-expression has the shape `(fun _ _)` of a definition.
pub open spec fn defn_shape(s: SExpV) -> bool {
    &&& s is List
    &&& s->List_0.len() == 3
    &&& symbol_of(s->List_0[0]) == Some("fun"@)
}

/// The definition that `(fun (name params...) body)` denotes, or the error
/// that rejects it.
pub open spec fn parse_defn_spec(s: SExpV) -> Result<DefinitionV, CompileErrorV> {
    if defn_shape(s) && s->List_0[1] is List && s->List_0[1]->List_0.len() > 0 && symbol_of(
        s->List_0[1]->List_0[0],
    ) is Some {
        let sig = s->List_0[1]->List_0;
        let name = symbol_of(sig[0])->0;
        if keyword(name) {
            Err(CompileErrorV::InvalidFunctionName(name))
        } else {
            match parse_params_spec(sig.subrange(1, sig.len() as int)) {
                Ok(params) => match parse_spec(s->List_0[2]) {
                    Some(body) => Ok(DefinitionV { name, params, body }),
                    None => Err(CompileErrorV::Invalid),
                },
                Err(x) => Err(x),
            }
        }
    } else {
        Err(CompileErrorV::InvalidFunctionDefinition)
    }
}

/// A top-level item as a definition: `None` where it does not have the shape
/// of one, else the definition or the error that rejects it.
pub open spec fn try_parse_defn_spec(s: SExpV) -> Result<Option<DefinitionV>, CompileErrorV> {
    if defn_shape(s) {
        match parse_defn_spec(s) {
            Ok(d) => Ok(Some(d)),
            Err(x) => Err(x),
        }
    } else {
        Ok(None)
    }
}

/// The first `k` top-level items of a program: the definitions and the main
/// expression read so far, or the error that rejects them.
pub open spec fn program_prefix(items: Seq<SExpV>, k: nat) -> Result<
    (Seq<DefinitionV>, Option<ExprV>),
    CompileErrorV,
>
    decreases k,
{
    if k == 0 || k > items.len() {
        Ok((Seq::empty(), None))
    } else {
        match program_prefix(items, (k - 1) as nat) {
            Ok((ds, main)) => {
                let item = items[k - 1];
                match try_parse_defn_spec(item) {
                    Ok(Some(d)) => if main is Some {
                        Err(CompileErrorV::DefinitionAfterMain)
                    } else {
                        Ok((ds.push(d), main))
                    },
                    Ok(None) => if main is None {
                        match parse_spec(item) {
                            Some(m) => Ok((ds, Some(m))),
                            None => Err(CompileErrorV::Invalid),
                        }
                    } else {
                        Err(CompileErrorV::MultipleMain)
                    },
                    Err(x) => Err(x),
                }
            },
            Err(x) => Err(x),
        }
    }
}

/// The program that a list of top-level items denotes, or the error that
/// rejects it.
pub open spec fn parse_program_spec(s: SExpV) -> Result<ProgramV, CompileErrorV> {
    match s {
        SExpV::List(items) => match program_prefix(items, items.len()) {
            Ok((ds, Some(m))) => Ok(ProgramV { defns: ds, main: m }),
            Ok((_, None)) => Err(CompileErrorV::NoMain),
            Err(x) => Err(x),
        },
        _ => Err(CompileErrorV::Invalid),
    }
}

/// The program that a source text denotes: its items are read as one list.
pub open spec fn parse_program_text_spec(contents: Seq<char>) -> Result<ProgramV, CompileErrorV> {
    match sexp_reading(seq!['('] + contents + seq![')']) {
        Some(s) => parse_program_spec(s),
        None => Err(CompileErrorV::Invalid),
    }
}

/// Reads the parameter names that follow the function name in a signature.
#[verifier::loop_isolation(false)]
fn parse_params(sig: &Vec<SExp>) -> (r: Result<Vec<String>, CompileError>)
    requires
        sig@.len() >= 1,
    ensures
        match parse_params_spec(sexps_view(sig@).subrange(1, sig@.len() as int)) {
            Ok(ps) => r is Ok && names_view(r->Ok_0@) == ps,
            Err(x) => r is Err && r->Err_0@ == x,
        },
{
    let ghost sv = sexps_view(sig@);
    proof {
        lemma_sexps_view(sig@);
    }
    let n = sig.len();
    let mut params: Vec<String> = Vec::new();
    let mut i: usize = 1;
    assert(sv.subrange(1, 1) =~= Seq::<SExpV>::empty());
    assert(names_view(params@) =~= Seq::<Seq<char>>::empty());
    while i < n
        invariant
            1 <= i <= n,
            n == sig@.len(),
            sv == sexps_view(sig@),
            parse_params_spec(sv.subrange(1, i as int)) == Ok::<Seq<Seq<char>>, CompileErrorV>(
                names_view(params@),
            ),
        decreases n - i,
    {
        assert(sv.subrange(1, i + 1).drop_last() =~= sv.subrange(1, i as int));
        assert(sv.subrange(1, i + 1).last() == sig@[i as int]@);
        match symbol_in(&sig[i]) {
            Some(p) => {
                if is_keyword(p.as_str()) {
                    proof {
                        lemma_params_prefix_err(sv.subrange(1, n as int), i as nat);
                        assert(sv.subrange(1, n as int).take(i as int) =~= sv.subrange(1, i + 1));
                    }
                    return Err(CompileError::InvalidParameterName(p.clone()));
                }
                let ghost prev = params@;
                params.push(p.clone());
                assert(names_view(params@) =~= names_view(prev).push(p@));
            },
            None => {
                proof {
                    lemma_params_prefix_err(sv.subrange(1, n as int), i as nat);
                    assert(sv.subrange(1, n as int).take(i as int) =~= sv.subrange(1, i + 1));
                }
                return Err(CompileError::InvalidParameter);
            },
        }
        i = i + 1;
    }
    assert(sv.subrange(1, n as int) =~= sv.subrange(1, sv.len() as int));
    Ok(params)
}

/// Once a prefix of the parameters is rejected, the whole list is rejected
/// with the same error.
proof fn lemma_params_prefix_err(ps: Seq<SExpV>, k: nat)
    requires
        0 < k <= ps.len(),
        parse_params_spec(ps.take(k as int)) is Err,
    ensures
        parse_params_spec(ps) == parse_params_spec(ps.take(k as int)),
    decreases ps.len() - k,
{
    if k < ps.len() {
        assert(ps.take(k + 1 as int).drop_last() =~= ps.take(k as int));
        lemma_params_prefix_err(ps, (k + 1) as nat);
    } else {
        assert(ps.take(k as int) =~= ps);
    }
}

/// Reads a function definition `(fun (name params...) body)`.
pub fn parse_defn(s: &SExp) -> (r: Result<Definition, CompileError>)
    ensures
        match parse_defn_spec(s@) {
            Ok(d) => r is Ok && r->Ok_0@ == d,
            Err(x) => r is Err && r->Err_0@ == x,
        },
{
    if let SExp::List(items) = s {
        proof {
            lemma_sexps_view(items@);
        }
        if items.len() == 3 {
            let head_is_fun = match symbol_in(&items[0]) {
                Some(f) => str_eq(f.as_str(), "fun"),
                None => false,
            };
            if head_is_fun {
                if let SExp::List(sig) = &items[1] {
                    proof {
                        lemma_sexps_view(sig@);
                    }
                    if sig.len() > 0 {
                        if let Some(name) = symbol_in(&sig[0]) {
                            if is_keyword(name.as_str()) {
                                return Err(CompileError::InvalidFunctionName(name.clone()));
                            }
                            let params = parse_params(sig)?;
                            let body = parse_expr(&items[2])?;
                            return Ok(Definition { name: name.clone(), params, body });
                        }
                    }
                }
            }
        }
    }
    Err(CompileError::InvalidFunctionDefinition)
}

/// Reads a top-level item as a definition when it has the shape
/// `(fun _ _)`; `None` otherwise.
pub fn try_parse_defn(s: &SExp) -> (r: Result<Option<Definition>, CompileError>)
    ensures
        match try_parse_defn_spec(s@) {
            Ok(Some(d)) => r is Ok && r->Ok_0 is Some && r->Ok_0->0@ == d,
            Ok(None) => r is Ok && r->Ok_0 is None,
            Err(x) => r is Err && r->Err_0@ == x,
        },
{
    if let SExp::List(items) = s {
        proof {
            lemma_sexps_view(items@);
        }
        if items.len() == 3 {
            if let Some(f) = symbol_in(&items[0]) {
                if str_eq(f.as_str(), "fun") {
                    let d = parse_defn(s)?;
                    return Ok(Some(d));
                }
            }
        }
    }
    Ok(None)
}

/// Once a prefix of the items is rejected, every longer prefix is rejected
/// with the same error.
proof fn lemma_program_prefix_err(items: Seq<SExpV>, k: nat, m: nat)
    requires
        0 < k <= m <= items.len(),
        program_prefix(items, k) is Err,
    ensures
        program_prefix(items, m) == program_prefix(items, k),
    decreases m - k,
{
    if k < m {
        lemma_program_prefix_err(items, k, (m - 1) as nat);
    }
}

/// Reads a program from the list of its top-level items: definitions first,
/// then exactly one main expression.
#[verifier::loop_isolation(false)]
pub fn parse_program(s: &SExp) -> (r: Result<Program, CompileError>)
    ensures
        match parse_program_spec(s@) {
            Ok(p) => r is Ok && r->Ok_0@ == p,
            Err(x) => r is Err && r->Err_0@ == x,
        },
{
    match s {
        SExp::List(items) => {
            let ghost iv = sexps_view(items@);
            proof {
                lemma_sexps_view(items@);
            }
            let n = items.len();
            let mut defns: Vec<Definition> = Vec::new();
            let mut main_expr: Option<Expr> = None;
            let mut i: usize = 0;
            assert(defns_view(defns@) =~= Seq::<DefinitionV>::empty());
            while i < n
                invariant
                    0 <= i <= n,
                    n == items@.len(),
                    program_prefix(iv, i as nat) == Ok::<
                        (Seq<DefinitionV>, Option<ExprV>),
                        CompileErrorV,
                    >(
                        (
                            defns_view(defns@),
                            match main_expr {
                                Some(m) => Some(m@),
                                None => None,
                            },
                        ),
                    ),
                decreases n - i,
            {
                assert(iv[i as int] == items@[i as int]@);
                let d = try_parse_defn(&items[i]);
                match d {
                    Ok(Some(defn)) => {
                        if main_expr.is_some() {
                            proof {
                                lemma_program_prefix_err(iv, (i + 1) as nat, n as nat);
                            }
                            return Err(CompileError::DefinitionAfterMain);
                        }
                        let ghost prev = defns@;
                        defns.push(defn);
                        assert(defns_view(defns@) =~= defns_view(prev).push(defns@.last()@));
                    },
                    Ok(None) => {
                        if main_expr.is_none() {
                            match parse_expr(&items[i]) {
                                Ok(m) => {
                                    main_expr = Some(m);
                                },
                                Err(x) => {
                                    proof {
                                        lemma_program_prefix_err(iv, (i + 1) as nat, n as nat);
                                    }
                                    return Err(x);
                                },
                            }
                        } else {
                            proof {
                                lemma_program_prefix_err(iv, (i + 1) as nat, n as nat);
                            }
                            return Err(CompileError::MultipleMain);
                        }
                    },
                    Err(x) => {
                        proof {
                            lemma_program_prefix_err(iv, (i + 1) as nat, n as nat);
                        }
                        return Err(x);
                    },
                }
                i = i + 1;
            }
            match main_expr {
                Some(m) => Ok(Program { defns, main: m }),
                None => Err(CompileError::NoMain),
            }
        },
        _ => Err(CompileError::Invalid),
    }
}

/// Reads a program from its source text: the text is read as one list of
/// top-level items.
pub fn parse_program_contents(contents: &str) -> (r: Result<Program, CompileError>)
    ensures
        match parse_program_text_spec(contents@) {
            Ok(p) => r is Ok && r->Ok_0@ == p,
            Err(x) => r is Err && r->Err_0@ == x,
        },
{
    let mut wrapped = "(".to_owned();
    wrapped.append(contents);
    wrapped.append(")");
    proof {
        reveal_strlit("(");
        reveal_strlit(")");
        assert(wrapped@ =~= seq!['('] + contents@ + seq![')']);
    }
    match parse(wrapped.as_str()) {
        Some(s) => parse_program(&s),
        None => Err(CompileError::Invalid),
    }
}


/// The S-expression of a word.
pub open spec fn word(w: Seq<char>) -> SExpV {
    SExpV::Atom(SAtomV::S(w))
}

/// The unary operator `op` applied to what an operand reads as.
pub open spec fn unop_applied(op: UnOp, a: Option<ExprV>) -> Option<ExprV> {
    match a {
        Some(x) => Some(ExprV::UnOp(op, Box::new(x))),
        None => None,
    }
}

/// The binary operator `op` applied to what two operands read as.
pub open spec fn binop_applied(op: BinOp, a: Option<ExprV>, b: Option<ExprV>) -> Option<ExprV> {
    match (a, b) {
        (Some(x), Some(y)) => Some(ExprV::BinOp(op, Box::new(x), Box::new(y))),
        _ => None,
    }
}

proof fn lemma_operator_words_differ()
    ensures
        "add1"@ != "sub1"@,
        "add1"@ != "negate"@,
        "add1"@ != "isnum"@,
        "add1"@ != "isbool"@,
        "add1"@ != "print"@,
        "add1"@ != "+"@,
        "add1"@ != "-"@,
        "add1"@ != "*"@,
        "add1"@ != "<"@,
        "add1"@ != ">"@,
        "add1"@ != "<="@,
        "add1"@ != ">="@,
        "add1"@ != "="@,
        "add1"@ != "let"@,
        "add1"@ != "if"@,
        "add1"@ != "block"@,
        "add1"@ != "loop"@,
        "add1"@ != "break"@,
        "sub1"@ != "negate"@,
        "sub1"@ != "isnum"@,
        "sub1"@ != "isbool"@,
        "sub1"@ != "print"@,
        "sub1"@ != "+"@,
        "sub1"@ != "-"@,
        "sub1"@ != "*"@,
        "sub1"@ != "<"@,
        "sub1"@ != ">"@,
        "sub1"@ != "<="@,
        "sub1"@ != ">="@,
        "sub1"@ != "="@,
        "sub1"@ != "let"@,
        "sub1"@ != "if"@,
        "sub1"@ != "block"@,
        "sub1"@ != "loop"@,
        "sub1"@ != "break"@,
        "negate"@ != "isnum"@,
        "negate"@ != "isbool"@,
        "negate"@ != "print"@,
        "negate"@ != "+"@,
        "negate"@ != "-"@,
        "negate"@ != "*"@,
        "negate"@ != "<"@,
        "negate"@ != ">"@,
        "negate"@ != "<="@,
        "negate"@ != ">="@,
        "negate"@ != "="@,
        "negate"@ != "let"@,
        "negate"@ != "if"@,
        "negate"@ != "block"@,
        "negate"@ != "loop"@,
        "negate"@ != "break"@,
        "isnum"@ != "isbool"@,
        "isnum"@ != "print"@,
        "isnum"@ != "+"@,
        "isnum"@ != "-"@,
        "isnum"@ != "*"@,
        "isnum"@ != "<"@,
        "isnum"@ != ">"@,
        "isnum"@ != "<="@,
        "isnum"@ != ">="@,
        "isnum"@ != "="@,
        "isnum"@ != "let"@,
        "isnum"@ != "if"@,
        "isnum"@ != "block"@,
        "isnum"@ != "loop"@,
        "isnum"@ != "break"@,
        "isbool"@ != "print"@,
        "isbool"@ != "+"@,
        "isbool"@ != "-"@,
        "isbool"@ != "*"@,
        "isbool"@ != "<"@,
        "isbool"@ != ">"@,
        "isbool"@ != "<="@,
        "isbool"@ != ">="@,
        "isbool"@ != "="@,
        "isbool"@ != "let"@,
        "isbool"@ != "if"@,
        "isbool"@ != "block"@,
        "isbool"@ != "loop"@,
        "isbool"@ != "break"@,
        "print"@ != "+"@,
        "print"@ != "-"@,
        "print"@ != "*"@,
        "print"@ != "<"@,
        "print"@ != ">"@,
        "print"@ != "<="@,
        "print"@ != ">="@,
        "print"@ != "="@,
        "print"@ != "let"@,
        "print"@ != "if"@,
        "print"@ != "block"@,
        "print"@ != "loop"@,
        "print"@ != "break"@,
        "+"@ != "-"@,
        "+"@ != "*"@,
        "+"@ != "<"@,
        "+"@ != ">"@,
        "+"@ != "<="@,
        "+"@ != ">="@,
        "+"@ != "="@,
        "+"@ != "let"@,
        "+"@ != "if"@,
        "+"@ != "block"@,
        "+"@ != "loop"@,
        "+"@ != "break"@,
        "-"@ != "*"@,
        "-"@ != "<"@,
        "-"@ != ">"@,
        "-"@ != "<="@,
        "-"@ != ">="@,
        "-"@ != "="@,
        "-"@ != "let"@,
        "-"@ != "if"@,
        "-"@ != "block"@,
        "-"@ != "loop"@,
        "-"@ != "break"@,
        "*"@ != "<"@,
        "*"@ != ">"@,
        "*"@ != "<="@,
        "*"@ != ">="@,
        "*"@ != "="@,
        "*"@ != "let"@,
        "*"@ != "if"@,
        "*"@ != "block"@,
        "*"@ != "loop"@,
        "*"@ != "break"@,
        "<"@ != ">"@,
        "<"@ != "<="@,
        "<"@ != ">="@,
        "<"@ != "="@,
        "<"@ != "let"@,
        "<"@ != "if"@,
        "<"@ != "block"@,
        "<"@ != "loop"@,
        "<"@ != "break"@,
        ">"@ != "<="@,
        ">"@ != ">="@,
        ">"@ != "="@,
        ">"@ != "let"@,
        ">"@ != "if"@,
        ">"@ != "block"@,
        ">"@ != "loop"@,
        ">"@ != "break"@,
        "<="@ != ">="@,
        "<="@ != "="@,
        "<="@ != "let"@,
        "<="@ != "if"@,
        "<="@ != "block"@,
        "<="@ != "loop"@,
        "<="@ != "break"@,
        ">="@ != "="@,
        ">="@ != "let"@,
        ">="@ != "if"@,
        ">="@ != "block"@,
        ">="@ != "loop"@,
        ">="@ != "break"@,
        "="@ != "let"@,
        "="@ != "if"@,
        "="@ != "block"@,
        "="@ != "loop"@,
        "="@ != "break"@,
        "let"@ != "if"@,
        "let"@ != "block"@,
        "let"@ != "loop"@,
        "let"@ != "break"@,
        "if"@ != "block"@,
        "if"@ != "loop"@,
        "if"@ != "break"@,
        "block"@ != "loop"@,
        "block"@ != "break"@,
        "loop"@ != "break"@,
{
    reveal_strlit("add1");
    reveal_strlit("sub1");
    reveal_strlit("negate");
    reveal_strlit("isnum");
    reveal_strlit("isbool");
    reveal_strlit("print");
    reveal_strlit("+");
    reveal_strlit("-");
    reveal_strlit("*");
    reveal_strlit("<");
    reveal_strlit(">");
    reveal_strlit("<=");
    reveal_strlit(">=");
    reveal_strlit("=");
    reveal_strlit("let");
    reveal_strlit("if");
    reveal_strlit("block");
    reveal_strlit("loop");
    reveal_strlit("break");
    assert("add1"@[0] != "sub1"@[0]);
    assert("add1"@.len() != "negate"@.len());
    assert("add1"@.len() != "isnum"@.len());
    assert("add1"@.len() != "isbool"@.len());
    assert("add1"@.len() != "print"@.len());
    assert("add1"@.len() != "+"@.len());
    assert("add1"@.len() != "-"@.len());
    assert("add1"@.len() != "*"@.len());
    assert("add1"@.len() != "<"@.len());
    assert("add1"@.len() != ">"@.len());
    assert("add1"@.len() != "<="@.len());
    assert("add1"@.len() != ">="@.len());
    assert("add1"@.len() != "="@.len());
    assert("add1"@.len() != "let"@.len());
    assert("add1"@.len() != "if"@.len());
    assert("add1"@.len() != "block"@.len());
    assert("add1"@[0] != "loop"@[0]);
    assert("add1"@.len() != "break"@.len());
    assert("sub1"@.len() != "negate"@.len());
    assert("sub1"@.len() != "isnum"@.len());
    assert("sub1"@.len() != "isbool"@.len());
    assert("sub1"@.len() != "print"@.len());
    assert("sub1"@.len() != "+"@.len());
    assert("sub1"@.len() != "-"@.len());
    assert("sub1"@.len() != "*"@.len());
    assert("sub1"@.len() != "<"@.len());
    assert("sub1"@.len() != ">"@.len());
    assert("sub1"@.len() != "<="@.len());
    assert("sub1"@.len() != ">="@.len());
    assert("sub1"@.len() != "="@.len());
    assert("sub1"@.len() != "let"@.len());
    assert("sub1"@.len() != "if"@.len());
    assert("sub1"@.len() != "block"@.len());
    assert("sub1"@[0] != "loop"@[0]);
    assert("sub1"@.len() != "break"@.len());
    assert("negate"@.len() != "isnum"@.len());
    assert("negate"@[0] != "isbool"@[0]);
    assert("negate"@.len() != "print"@.len());
    assert("negate"@.len() != "+"@.len());
    assert("negate"@.len() != "-"@.len());
    assert("negate"@.len() != "*"@.len());
    assert("negate"@.len() != "<"@.len());
    assert("negate"@.len() != ">"@.len());
    assert("negate"@.len() != "<="@.len());
    assert("negate"@.len() != ">="@.len());
    assert("negate"@.len() != "="@.len());
    assert("negate"@.len() != "let"@.len());
    assert("negate"@.len() != "if"@.len());
    assert("negate"@.len() != "block"@.len());
    assert("negate"@.len() != "loop"@.len());
    assert("negate"@.len() != "break"@.len());
    assert("isnum"@.len() != "isbool"@.len());
    assert("isnum"@[0] != "print"@[0]);
    assert("isnum"@.len() != "+"@.len());
    assert("isnum"@.len() != "-"@.len());
    assert("isnum"@.len() != "*"@.len());
    assert("isnum"@.len() != "<"@.len());
    assert("isnum"@.len() != ">"@.len());
    assert("isnum"@.len() != "<="@.len());
    assert("isnum"@.len() != ">="@.len());
    assert("isnum"@.len() != "="@.len());
    assert("isnum"@.len() != "let"@.len());
    assert("isnum"@.len() != "if"@.len());
    assert("isnum"@[0] != "block"@[0]);
    assert("isnum"@.len() != "loop"@.len());
    assert("isnum"@[0] != "break"@[0]);
    assert("isbool"@.len() != "print"@.len());
    assert("isbool"@.len() != "+"@.len());
    assert("isbool"@.len() != "-"@.len());
    assert("isbool"@.len() != "*"@.len());
    assert("isbool"@.len() != "<"@.len());
    assert("isbool"@.len() != ">"@.len());
    assert("isbool"@.len() != "<="@.len());
    assert("isbool"@.len() != ">="@.len());
    assert("isbool"@.len() != "="@.len());
    assert("isbool"@.len() != "let"@.len());
    assert("isbool"@.len() != "if"@.len());
    assert("isbool"@.len() != "block"@.len());
    assert("isbool"@.len() != "loop"@.len());
    assert("isbool"@.len() != "break"@.len());
    assert("print"@.len() != "+"@.len());
    assert("print"@.len() != "-"@.len());
    assert("print"@.len() != "*"@.len());
    assert("print"@.len() != "<"@.len());
    assert("print"@.len() != ">"@.len());
    assert("print"@.len() != "<="@.len());
    assert("print"@.len() != ">="@.len());
    assert("print"@.len() != "="@.len());
    assert("print"@.len() != "let"@.len());
    assert("print"@.len() != "if"@.len());
    assert("print"@[0] != "block"@[0]);
    assert("print"@.len() != "loop"@.len());
    assert("print"@[0] != "break"@[0]);
    assert("+"@[0] != "-"@[0]);
    assert("+"@[0] != "*"@[0]);
    assert("+"@[0] != "<"@[0]);
    assert("+"@[0] != ">"@[0]);
    assert("+"@.len() != "<="@.len());
    assert("+"@.len() != ">="@.len());
    assert("+"@[0] != "="@[0]);
    assert("+"@.len() != "let"@.len());
    assert("+"@.len() != "if"@.len());
    assert("+"@.len() != "block"@.len());
    assert("+"@.len() != "loop"@.len());
    assert("+"@.len() != "break"@.len());
    assert("-"@[0] != "*"@[0]);
    assert("-"@[0] != "<"@[0]);
    assert("-"@[0] != ">"@[0]);
    assert("-"@.len() != "<="@.len());
    assert("-"@.len() != ">="@.len());
    assert("-"@[0] != "="@[0]);
    assert("-"@.len() != "let"@.len());
    assert("-"@.len() != "if"@.len());
    assert("-"@.len() != "block"@.len());
    assert("-"@.len() != "loop"@.len());
    assert("-"@.len() != "break"@.len());
    assert("*"@[0] != "<"@[0]);
    assert("*"@[0] != ">"@[0]);
    assert("*"@.len() != "<="@.len());
    assert("*"@.len() != ">="@.len());
    assert("*"@[0] != "="@[0]);
    assert("*"@.len() != "let"@.len());
    assert("*"@.len() != "if"@.len());
    assert("*"@.len() != "block"@.len());
    assert("*"@.len() != "loop"@.len());
    assert("*"@.len() != "break"@.len());
    assert("<"@[0] != ">"@[0]);
    assert("<"@.len() != "<="@.len());
    assert("<"@.len() != ">="@.len());
    assert("<"@[0] != "="@[0]);
    assert("<"@.len() != "let"@.len());
    assert("<"@.len() != "if"@.len());
    assert("<"@.len() != "block"@.len());
    assert("<"@.len() != "loop"@.len());
    assert("<"@.len() != "break"@.len());
    assert(">"@.len() != "<="@.len());
    assert(">"@.len() != ">="@.len());
    assert(">"@[0] != "="@[0]);
    assert(">"@.len() != "let"@.len());
    assert(">"@.len() != "if"@.len());
    assert(">"@.len() != "block"@.len());
    assert(">"@.len() != "loop"@.len());
    assert(">"@.len() != "break"@.len());
    assert("<="@[0] != ">="@[0]);
    assert("<="@.len() != "="@.len());
    assert("<="@.len() != "let"@.len());
    assert("<="@[0] != "if"@[0]);
    assert("<="@.len() != "block"@.len());
    assert("<="@.len() != "loop"@.len());
    assert("<="@.len() != "break"@.len());
    assert(">="@.len() != "="@.len());
    assert(">="@.len() != "let"@.len());
    assert(">="@[0] != "if"@[0]);
    assert(">="@.len() != "block"@.len());
    assert(">="@.len() != "loop"@.len());
    assert(">="@.len() != "break"@.len());
    assert("="@.len() != "let"@.len());
    assert("="@.len() != "if"@.len());
    assert("="@.len() != "block"@.len());
    assert("="@.len() != "loop"@.len());
    assert("="@.len() != "break"@.len());
    assert("let"@.len() != "if"@.len());
    assert("let"@.len() != "block"@.len());
    assert("let"@.len() != "loop"@.len());
    assert("let"@.len() != "break"@.len());
    assert("if"@.len() != "block"@.len());
    assert("if"@.len() != "loop"@.len());
    assert("if"@.len() != "break"@.len());
    assert("block"@.len() != "loop"@.len());
    assert("block"@[1] != "break"@[1]);
    assert("loop"@.len() != "break"@.len());
}

/// Each unary operator word, applied to one operand, reads as the operator
/// of that name applied to what the operand reads as.
pub proof fn lemma_unary_words(e: SExpV)
    ensures
        parse_spec(SExpV::List(seq![word("add1"@), e])) == unop_applied(UnOp::Add1, parse_spec(e)),
        parse_spec(SExpV::List(seq![word("sub1"@), e])) == unop_applied(UnOp::Sub1, parse_spec(e)),
        parse_spec(SExpV::List(seq![word("negate"@), e])) == unop_applied(UnOp::Negate, parse_spec(e)),
        parse_spec(SExpV::List(seq![word("isnum"@), e])) == unop_applied(UnOp::IsNum, parse_spec(e)),
        parse_spec(SExpV::List(seq![word("isbool"@), e])) == unop_applied(UnOp::IsBool, parse_spec(e)),
        parse_spec(SExpV::List(seq![word("print"@), e])) == unop_applied(UnOp::Print, parse_spec(e)),
{
    lemma_operator_words_differ();
    reveal_strlit("add1");
    reveal_strlit("sub1");
    reveal_strlit("negate");
    reveal_strlit("isnum");
    reveal_strlit("isbool");
    reveal_strlit("print");
    reveal_strlit("+");
    reveal_strlit("-");
    reveal_strlit("*");
    reveal_strlit("<");
    reveal_strlit(">");
    reveal_strlit("<=");
    reveal_strlit(">=");
    reveal_strlit("=");
    reveal_strlit("let");
    reveal_strlit("if");
    reveal_strlit("block");
    reveal_strlit("loop");
    reveal_strlit("break");
}

/// Each binary operator word, applied to two operands, reads as the operator
/// of that name applied to what the operands read as.
pub proof fn lemma_binary_words(a: SExpV, b: SExpV)
    ensures
        parse_spec(SExpV::List(seq![word("+"@), a, b])) == binop_applied(
            BinOp::Plus,
            parse_spec(a),
            parse_spec(b),
        ),
        parse_spec(SExpV::List(seq![word("-"@), a, b])) == binop_applied(
            BinOp::Minus,
            parse_spec(a),
            parse_spec(b),
        ),
        parse_spec(SExpV::List(seq![word("*"@), a, b])) == binop_applied(
            BinOp::Times,
            parse_spec(a),
            parse_spec(b),
        ),
        parse_spec(SExpV::List(seq![word("<"@), a, b])) == binop_applied(
            BinOp::Less,
            parse_spec(a),
            parse_spec(b),
        ),
        parse_spec(SExpV::List(seq![word(">"@), a, b])) == binop_applied(
            BinOp::Greater,
            parse_spec(a),
            parse_spec(b),
        ),
        parse_spec(SExpV::List(seq![word("<="@), a, b])) == binop_applied(
            BinOp::LessEq,
            parse_spec(a),
            parse_spec(b),
        ),
        parse_spec(SExpV::List(seq![word(">="@), a, b])) == binop_applied(
            BinOp::GreaterEq,
            parse_spec(a),
            parse_spec(b),
        ),
        parse_spec(SExpV::List(seq![word("="@), a, b])) == binop_applied(
            BinOp::Equal,
            parse_spec(a),
            parse_spec(b),
        ),
{
    lemma_operator_words_differ();
    reveal_strlit("add1");
    reveal_strlit("sub1");
    reveal_strlit("negate");
    reveal_strlit("isnum");
    reveal_strlit("isbool");
    reveal_strlit("print");
    reveal_strlit("+");
    reveal_strlit("-");
    reveal_strlit("*");
    reveal_strlit("<");
    reveal_strlit(">");
    reveal_strlit("<=");
    reveal_strlit(">=");
    reveal_strlit("=");
    reveal_strlit("let");
    reveal_strlit("if");
    reveal_strlit("block");
    reveal_strlit("loop");
    reveal_strlit("break");
}


/// `(if c t e)` reads as the conditional of what `c`, `t` and `e` read as,
/// in that order; `(loop e)` as a loop and `(break e)` as a break of what
/// `e` reads as.
pub proof fn lemma_form_words(c: SExpV, t: SExpV, e: SExpV)
    ensures
        parse_spec(SExpV::List(seq![word("if"@), c, t, e])) == match (
            parse_spec(c),
            parse_spec(t),
            parse_spec(e),
        ) {
            (Some(x), Some(y), Some(z)) => Some(ExprV::If(Box::new(x), Box::new(y), Box::new(z))),
            _ => None,
        },
        parse_spec(SExpV::List(seq![word("loop"@), e])) == match parse_spec(e) {
            Some(x) => Some(ExprV::Loop(Box::new(x))),
            None => None,
        },
        parse_spec(SExpV::List(seq![word("break"@), e])) == match parse_spec(e) {
            Some(x) => Some(ExprV::Break(Box::new(x))),
            None => None,
        },
{
    lemma_operator_words_differ();
    reveal_strlit("if");
    reveal_strlit("let");
    reveal_strlit("block");
    reveal_strlit("loop");
    reveal_strlit("break");
}
} // verus!
