use lambda::prelude::combinators;
use lambda::Term;

#[test]
fn display_compose() {
    assert_eq!(combinators::compose().display(), "λf. λg. λx. f (g x)");
}

#[test]
fn eq_compose() {
    assert_eq!(
        combinators::compose(),
        Term::abs("f", Term::abs("g", Term::abs("x", Term::app(Term::var("f"), Term::app(Term::var("g"), Term::var("x"))))))
    );
}

#[test]
fn display_flip() {
    assert_eq!(combinators::flip().display(), "λf. λx. λy. f y x");
}

#[test]
fn eq_flip() {
    assert_eq!(
        combinators::flip(),
        Term::abs("f", Term::abs("x", Term::abs("y", Term::app(Term::app(Term::var("f"), Term::var("y")), Term::var("x")))))
    );
}

#[test]
fn display_id() {
    assert_eq!(combinators::id().display(), "λx. x");
}

#[test]
fn eq_id() {
    assert_eq!(
        combinators::id(),
        Term::abs("x", Term::var("x"))
    );
}

#[test]
fn display_constant() {
    assert_eq!(combinators::constant().display(), "λx. λy. x");
}

#[test]
fn eq_constant() {
    assert_eq!(
        combinators::constant(),
        Term::abs("x", Term::abs("y", Term::var("x")))
    );
}

#[test]
fn display_omega() {
    assert_eq!(combinators::omega().display(), "(λx. x x) (λx. x x)");
}

#[test]
fn eq_omega() {
    assert_eq!(
        combinators::omega(),
        Term::app(Term::abs("x", Term::app(Term::var("x"), Term::var("x"))), Term::abs("x", Term::app(Term::var("x"), Term::var("x"))))
    );
}

#[test]
fn display_app_rev() {
    assert_eq!(combinators::app_rev().display(), "λx. λy. y x");
}

#[test]
fn eq_app_rev() {
    assert_eq!(
        combinators::app_rev(),
        Term::abs("x", Term::abs("y", Term::app(Term::var("y"), Term::var("x"))))
    );
}

#[test]
fn display_sub() {
    assert_eq!(combinators::sub().display(), "λx. λy. λz. x z (y z)");
}

#[test]
fn eq_sub() {
    assert_eq!(
        combinators::sub(),
        Term::abs("x", Term::abs("y", Term::abs("z", Term::app(Term::app(Term::var("x"), Term::var("z")), Term::app(Term::var("y"), Term::var("z"))))))
    );
}

#[test]
fn display_fix_turing() {
    assert_eq!(combinators::fix_turing().display(), "(λx. λy. y (x x y)) (λx. λy. y (x x y))");
}

#[test]
fn eq_fix_turing() {
    assert_eq!(
        combinators::fix_turing(),
        Term::app(Term::abs("x", Term::abs("y", Term::app(Term::var("y"), Term::app(Term::app(Term::var("x"), Term::var("x")), Term::var("y"))))), Term::abs("x", Term::abs("y", Term::app(Term::var("y"), Term::app(Term::app(Term::var("x"), Term::var("x")), Term::var("y"))))))
    );
}

#[test]
fn display_dup() {
    assert_eq!(combinators::dup().display(), "λf. λx. f x x");
}

#[test]
fn eq_dup() {
    assert_eq!(
        combinators::dup(),
        Term::abs("f", Term::abs("x", Term::app(Term::app(Term::var("f"), Term::var("x")), Term::var("x"))))
    );
}

#[test]
fn display_fix_lazy() {
    assert_eq!(combinators::fix_lazy().display(), "λf. (λx. f (x x)) (λx. f (x x))");
}

#[test]
fn eq_fix_lazy() {
    assert_eq!(
        combinators::fix_lazy(),
        Term::abs("f", Term::app(Term::abs("x", Term::app(Term::var("f"), Term::app(Term::var("x"), Term::var("x")))), Term::abs("x", Term::app(Term::var("f"), Term::app(Term::var("x"), Term::var("x"))))))
    );
}

#[test]
fn display_fix_strict() {
    assert_eq!(combinators::fix_strict().display(), "λf. (λx. f (λy. x x y)) (λx. f (λy. x x y))");
}

#[test]
fn eq_fix_strict() {
    assert_eq!(
        combinators::fix_strict(),
        Term::abs("f", Term::app(Term::abs("x", Term::app(Term::var("f"), Term::abs("y", Term::app(Term::app(Term::var("x"), Term::var("x")), Term::var("y"))))), Term::abs("x", Term::app(Term::var("f"), Term::abs("y", Term::app(Term::app(Term::var("x"), Term::var("x")), Term::var("y")))))))
    );
}

#[test]
fn display_universal() {
    assert_eq!(combinators::universal().display(), "λx. x (λx. λy. λz. x z (y z)) (λx. λy. x)");
}

#[test]
fn eq_universal() {
    assert_eq!(
        combinators::universal(),
        Term::abs("x", Term::app(Term::app(Term::var("x"), Term::abs("x", Term::abs("y", Term::abs("z", Term::app(Term::app(Term::var("x"), Term::var("z")), Term::app(Term::var("y"), Term::var("z"))))))), Term::abs("x", Term::abs("y", Term::var("x")))))
    );
}

#[test]
fn display_app_self() {
    assert_eq!(combinators::app_self().display(), "λx. x x");
}

#[test]
fn eq_app_self() {
    assert_eq!(
        combinators::app_self(),
        Term::abs("x", Term::app(Term::var("x"), Term::var("x")))
    );
}
