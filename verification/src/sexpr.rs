//! S-expressions, as read by the `sexp` crate, held as plain values.
use vstd::prelude::*;

verus! {

/// An atom of an s-expression. A floating-point atom keeps no value here:
/// nothing in this library reads one.
#[derive(Debug, PartialEq)]
pub enum SAtom {
    S(String),
    I(i64),
    F,
}

/// An s-expression: an atom, or a list of s-expressions.
#[derive(Debug, PartialEq)]
pub enum SExpr {
    Atom(SAtom),
    List(Vec<SExpr>),
}

/// The model of an atom.
pub enum SAtomV {
    S(Seq<char>),
    I(i64),
    F,
}

/// The model of an s-expression.
pub enum SExprV {
    Atom(SAtomV),
    List(Seq<SExprV>),
}

impl SExpr {
    /// The model of this s-expression (its view).
    pub open spec fn model(&self) -> SExprV
        decreases self,
    {
        match self {
            SExpr::Atom(SAtom::S(s)) => SExprV::Atom(SAtomV::S(s@)),
            SExpr::Atom(SAtom::I(n)) => SExprV::Atom(SAtomV::I(*n)),
            SExpr::Atom(SAtom::F) => SExprV::Atom(SAtomV::F),
            SExpr::List(v) => SExprV::List(
                Seq::new(
                    v@.len(),
                    |i: int|
                        if 0 <= i < v@.len() {
                            v@[i].model()
                        } else {
                            SExprV::List(Seq::empty())
                        },
                ),
            ),
        }
    }
}

/// The models of a sequence of s-expressions.
pub open spec fn sexprs_model(s: Seq<SExpr>) -> Seq<SExprV> {
    Seq::new(
        s.len(),
        |i: int|
            if 0 <= i < s.len() {
                s[i].model()
            } else {
                SExprV::List(Seq::empty())
            },
    )
}

impl View for SExpr {
    type V = SExprV;

    open spec fn view(&self) -> SExprV {
        self.model()
    }
}

#[verifier::external_type_specification]
#[verifier::external_body]
pub struct ExSexpError(sexp::Error);

#[verifier::external_type_specification]
#[verifier::external_body]
pub struct ExSexp(sexp::Sexp);

/// What `sexp::parse` reads from a text: `None` where it reports an error.
pub uninterp spec fn sexp_reading(text: Seq<char>) -> Option<SExprV>;

/// Copies the tree that `sexp::parse` returned into this library's tree,
/// node for node; a float atom keeps only its kind.
#[verifier::external_body]
fn import_sexp(s: &sexp::Sexp) -> SExpr {
    match s {
        sexp::Sexp::Atom(sexp::Atom::S(x)) => SExpr::Atom(SAtom::S(x.clone())),
        sexp::Sexp::Atom(sexp::Atom::I(n)) => SExpr::Atom(SAtom::I(*n)),
        sexp::Sexp::Atom(sexp::Atom::F(_)) => SExpr::Atom(SAtom::F),
        sexp::Sexp::List(xs) => SExpr::List(xs.iter().map(import_sexp).collect()),
    }
}

/// Reads one s-expression from `text` with `sexp::parse`.
/// Trusted: the result is a function of the text alone (the parser keeps no
/// state), so it is named `sexp_reading`; the grammar itself is not stated.
#[verifier::external_body]
fn sexp_parse(text: &str) -> (r: Result<SExpr, Box<sexp::Error>>)
    ensures
        match r {
            Ok(s) => sexp_reading(text@) == Some(s@),
            Err(_) => sexp_reading(text@) is None,
        },
{
    match sexp::parse(text) {
        Ok(s) => Ok(import_sexp(&s)),
        Err(e) => Err(e),
    }
}

/// The text is not one well-formed s-expression.
#[derive(Debug, PartialEq, Eq)]
pub struct SexpError;

/// Reads one s-expression from `text`, as the `sexp` crate reads it.
pub fn read_sexp(text: &str) -> (r: Result<SExpr, SexpError>)
    ensures
        match r {
            Ok(s) => sexp_reading(text@) == Some(s@),
            Err(_) => sexp_reading(text@) is None,
        },
{
    match sexp_parse(text) {
        Ok(s) => Ok(s),
        Err(_) => Err(SexpError),
    }
}

} // verus!
