//! Church-encoded booleans and their operations.

use vstd::prelude::*;

use crate::prelude::ap;
use crate::prelude::lam;
use crate::prelude::vr;
use crate::term::Term;

verus! {

/// `λt. λf. f`
pub open spec fn false_term() -> Term<&'static str> {
    lam("t", lam("f", vr("f")))
}

/// `λt. λf. t`
pub open spec fn true_term() -> Term<&'static str> {
    lam("t", lam("f", vr("t")))
}

/// `λc. λt. λe. c t e`
pub open spec fn if_then_else_term() -> Term<&'static str> {
    lam("c", lam("t", lam("e", ap(ap(vr("c"), vr("t")), vr("e")))))
}

/// The Church boolean `false`, `λt. λf. f`.
pub fn fls() -> (r: Term<&'static str>)
    ensures
        r == false_term(),
{
    Term::abs("t", Term::abs("f", Term::var("f")))
}

/// The Church boolean `true`, `λt. λf. t`.
pub fn tru() -> (r: Term<&'static str>)
    ensures
        r == true_term(),
{
    Term::abs("t", Term::abs("f", Term::var("t")))
}

/// The conditional `λc. λt. λe. c t e`.
pub fn if_then_else() -> (r: Term<&'static str>)
    ensures
        r == if_then_else_term(),
{
    Term::abs(
        "c",
        Term::abs("t", Term::abs("e", Term::app(Term::app(Term::var("c"), Term::var("t")), Term::var("e")))),
    )
}

/// Negation, `λb. if-then-else b false true`.
pub fn not() -> (r: Term<&'static str>)
    ensures
        r == lam("b", ap(ap(ap(if_then_else_term(), vr("b")), false_term()), true_term())),
{
    Term::abs("b", Term::app(Term::app(Term::app(if_then_else(), Term::var("b")), fls()), tru()))
}

/// Conjunction, `λl. λr. l r false`.
pub fn and() -> (r: Term<&'static str>)
    ensures
        r == lam("l", lam("r", ap(ap(vr("l"), vr("r")), false_term()))),
{
    Term::abs("l", Term::abs("r", Term::app(Term::app(Term::var("l"), Term::var("r")), fls())))
}

/// Disjunction, `λl. λr. l true r`.
pub fn or() -> (r: Term<&'static str>)
    ensures
        r == lam("l", lam("r", ap(ap(vr("l"), true_term()), vr("r")))),
{
    Term::abs("l", Term::abs("r", Term::app(Term::app(Term::var("l"), tru()), Term::var("r"))))
}

} // verus!
