//! Standard terms: combinators and Church-encoded booleans.

use vstd::prelude::*;

use crate::term::Term;

pub mod boolean;
pub mod combinators;

verus! {

/// The variable `x`.
pub open spec fn vr(x: &'static str) -> Term<&'static str> {
    Term::Var(x)
}

/// The abstraction `λp. b`.
pub open spec fn lam(p: &'static str, b: Term<&'static str>) -> Term<&'static str> {
    Term::Abs(p, Box::new(b))
}

/// The application `f a`.
pub open spec fn ap(f: Term<&'static str>, a: Term<&'static str>) -> Term<&'static str> {
    Term::App(Box::new(f), Box::new(a))
}

} // verus!
