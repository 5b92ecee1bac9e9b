//! Standard combinators.

use vstd::prelude::*;

use crate::prelude::ap;
use crate::prelude::lam;
use crate::prelude::vr;
use crate::term::Term;

verus! {

/// `λx. λy. λz. x z (y z)`
pub open spec fn sub_term() -> Term<&'static str> {
    lam("x", lam("y", lam("z", ap(ap(vr("x"), vr("z")), ap(vr("y"), vr("z"))))))
}

/// `λx. λy. x`
pub open spec fn constant_term() -> Term<&'static str> {
    lam("x", lam("y", vr("x")))
}

/// `λx. x x`
pub open spec fn app_self_term() -> Term<&'static str> {
    lam("x", ap(vr("x"), vr("x")))
}

/// `λx. λy. y (x x y)`
pub open spec fn turing_half() -> Term<&'static str> {
    lam("x", lam("y", ap(vr("y"), ap(ap(vr("x"), vr("x")), vr("y")))))
}

/// `λx. f (x x)`
pub open spec fn lazy_half() -> Term<&'static str> {
    lam("x", ap(vr("f"), ap(vr("x"), vr("x"))))
}

/// `λx. f (λy. x x y)`
pub open spec fn strict_half() -> Term<&'static str> {
    lam("x", ap(vr("f"), lam("y", ap(ap(vr("x"), vr("x")), vr("y")))))
}

/// Composition `B`, `λf. λg. λx. f (g x)`.
pub fn compose() -> (r: Term<&'static str>)
    ensures
        r == lam("f", lam("g", lam("x", ap(vr("f"), ap(vr("g"), vr("x")))))),
{
    let body = Term::app(Term::var("f"), Term::app(Term::var("g"), Term::var("x")));
    Term::abs("f", Term::abs("g", Term::abs("x", body)))
}

/// Argument flipping `C`, `λf. λx. λy. f y x`.
pub fn flip() -> (r: Term<&'static str>)
    ensures
        r == lam("f", lam("x", lam("y", ap(ap(vr("f"), vr("y")), vr("x"))))),
{
    let body = Term::app(Term::app(Term::var("f"), Term::var("y")), Term::var("x"));
    Term::abs("f", Term::abs("x", Term::abs("y", body)))
}

/// Identity `I`, `λx. x`.
pub fn id() -> (r: Term<&'static str>)
    ensures
        r == lam("x", vr("x")),
{
    Term::abs("x", Term::var("x"))
}

/// The constant combinator `K`, `λx. λy. x`.
pub fn constant() -> (r: Term<&'static str>)
    ensures
        r == constant_term(),
{
    Term::abs("x", Term::abs("y", Term::var("x")))
}

/// The diverging `Ω`, the self-application combinator applied to itself.
pub fn omega() -> (r: Term<&'static str>)
    ensures
        r == ap(app_self_term(), app_self_term()),
{
    Term::app(app_self(), app_self())
}

/// Reverse application `R`, `λx. λy. y x`.
pub fn app_rev() -> (r: Term<&'static str>)
    ensures
        r == lam("x", lam("y", ap(vr("y"), vr("x")))),
{
    Term::abs("x", Term::abs("y", Term::app(Term::var("y"), Term::var("x"))))
}

/// Substitution `S`, `λx. λy. λz. x z (y z)`.
pub fn sub() -> (r: Term<&'static str>)
    ensures
        r == sub_term(),
{
    let body = Term::app(Term::app(Term::var("x"), Term::var("z")), Term::app(Term::var("y"), Term::var("z")));
    Term::abs("x", Term::abs("y", Term::abs("z", body)))
}

/// The half of Turing's fixed point combinator.
fn turing_part() -> (r: Term<&'static str>)
    ensures
        r == turing_half(),
{
    let body = Term::app(Term::var("y"), Term::app(Term::app(Term::var("x"), Term::var("x")), Term::var("y")));
    Term::abs("x", Term::abs("y", body))
}

/// Turing's fixed point combinator `Θ`, `(λx. λy. y (x x y)) (λx. λy. y (x x y))`.
pub fn fix_turing() -> (r: Term<&'static str>)
    ensures
        r == ap(turing_half(), turing_half()),
{
    Term::app(turing_part(), turing_part())
}

/// Duplication `W`, `λf. λx. f x x`.
pub fn dup() -> (r: Term<&'static str>)
    ensures
        r == lam("f", lam("x", ap(ap(vr("f"), vr("x")), vr("x")))),
{
    Term::abs("f", Term::abs("x", Term::app(Term::app(Term::var("f"), Term::var("x")), Term::var("x"))))
}

/// The half of the lazy fixed point combinator.
fn lazy_part() -> (r: Term<&'static str>)
    ensures
        r == lazy_half(),
{
    Term::abs("x", Term::app(Term::var("f"), Term::app(Term::var("x"), Term::var("x"))))
}

/// The lazy fixed point combinator `Y`, `λf. (λx. f (x x)) (λx. f (x x))`.
pub fn fix_lazy() -> (r: Term<&'static str>)
    ensures
        r == lam("f", ap(lazy_half(), lazy_half())),
{
    Term::abs("f", Term::app(lazy_part(), lazy_part()))
}

/// The half of the strict fixed point combinator.
fn strict_part() -> (r: Term<&'static str>)
    ensures
        r == strict_half(),
{
    let inner = Term::abs("y", Term::app(Term::app(Term::var("x"), Term::var("x")), Term::var("y")));
    Term::abs("x", Term::app(Term::var("f"), inner))
}

/// The strict fixed point combinator `Z`,
/// `λf. (λx. f (λy. x x y)) (λx. f (λy. x x y))`.
pub fn fix_strict() -> (r: Term<&'static str>)
    ensures
        r == lam("f", ap(strict_half(), strict_half())),
{
    Term::abs("f", Term::app(strict_part(), strict_part()))
}

/// The universal combinator `ι`, `λx. x S K`.
pub fn universal() -> (r: Term<&'static str>)
    ensures
        r == lam("x", ap(ap(vr("x"), sub_term()), constant_term())),
{
    Term::abs("x", Term::app(Term::app(Term::var("x"), self::sub()), constant()))
}

/// Self-application `ω`, `λx. x x`.
pub fn app_self() -> (r: Term<&'static str>)
    ensures
        r == app_self_term(),
{
    Term::abs("x", Term::app(Term::var("x"), Term::var("x")))
}

} // verus!
