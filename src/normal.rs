//! The normal-order (leftmost-outermost) strategy.

use vstd::prelude::*;

use crate::identifier::Identifier;
use crate::local_nameless::binder_depth;
use crate::local_nameless::lemma_open_well_formed;
use crate::local_nameless::max_index;
use crate::local_nameless::open;
use crate::local_nameless::well_formed;
use crate::local_nameless::Var;
use crate::reduce::BetaReduce;
use crate::term::Term;

verus! {

/// The normal-order strategy: the leftmost, outermost redex first.
pub struct Normal;

/// How deep the normalisations of redex bodies within one step may nest,
/// and how many steps each of them may take.
pub const NORMALISE_BOUND: usize = usize::MAX;

/// Whether putting `a` in for the outermost binder of `b` computes only
/// indices that fit in a `usize`.
pub open spec fn substitution_fits<T>(b: Term<Var<T>>, a: Term<Var<T>>) -> bool {
    &&& binder_depth(b) + max_index(a) <= usize::MAX
    &&& binder_depth(a) <= usize::MAX
}

/// One normal-order step on `t`: the rewritten term, and whether a redex was
/// rewritten. The body of a redex is first brought to normal form (by
/// [`normal_form`], with normalisations nested at most `depth` deep), then the
/// argument is put in for its binder. A substitution whose indices would not
/// fit in a `usize` is left undone: the redex stays, with its body normalised.
pub open spec fn normal_step<T>(t: Term<Var<T>>, depth: nat) -> (Term<Var<T>>, bool)
    decreases depth, 0nat, t,
{
    match t {
        Term::Var(_) => (t, false),
        Term::Abs(p, b) => {
            let (body, changed) = normal_step(*b, depth);
            (Term::Abs(p, Box::new(body)), changed)
        },
        Term::App(f, a) => match *f {
            Term::Abs(p, b) => {
                let body = if depth == 0 {
                    *b
                } else {
                    normal_form(*b, (depth - 1) as nat, NORMALISE_BOUND as nat)
                };
                if substitution_fits(body, *a) {
                    (open(body, 0, *a), true)
                } else {
                    (Term::App(Box::new(Term::Abs(p, Box::new(body))), a), true)
                }
            },
            _ => {
                let (func, fc) = normal_step(*f, depth);
                let (arg, ac) = normal_step(*a, depth);
                (Term::App(Box::new(func), Box::new(arg)), fc || ac)
            },
        },
    }
}

/// `t` after normal-order steps until one rewrites nothing, at most `steps`
/// of them.
pub open spec fn normal_form<T>(t: Term<Var<T>>, depth: nat, steps: nat) -> Term<Var<T>>
    decreases depth, steps + 1, t,
{
    if steps == 0 {
        t
    } else {
        let (next, changed) = normal_step(t, depth);
        if changed {
            normal_form(next, depth, (steps - 1) as nat)
        } else {
            t
        }
    }
}

/// Whether `t` holds no redex.
pub open spec fn is_normal<T>(t: Term<T>) -> bool
    decreases t,
{
    match t {
        Term::Var(_) => true,
        Term::Abs(_, b) => is_normal(*b),
        Term::App(f, a) => !(*f is Abs) && is_normal(*f) && is_normal(*a),
    }
}

/// A step rewrites a term exactly when the term holds a redex, and one that
/// rewrites nothing leaves the term as it was.
pub proof fn lemma_normal_step_changes<T>(t: Term<Var<T>>, depth: nat)
    ensures
        normal_step(t, depth).1 == !is_normal(t),
        !normal_step(t, depth).1 ==> normal_step(t, depth).0 == t,
    decreases t,
{
    match t {
        Term::Var(_) => {},
        Term::Abs(_, b) => lemma_normal_step_changes(*b, depth),
        Term::App(f, a) => {
            lemma_normal_step_changes(*f, depth);
            lemma_normal_step_changes(*a, depth);
        },
    }
}

/// A step keeps a term well formed.
proof fn lemma_normal_step_well_formed<T>(t: Term<Var<T>>, depth: nat, n: nat)
    requires
        well_formed(t, n),
    ensures
        well_formed(normal_step(t, depth).0, n),
    decreases depth, 0nat, t,
{
    match t {
        Term::Var(_) => {},
        Term::Abs(_, b) => lemma_normal_step_well_formed(*b, depth, n + 1),
        Term::App(f, a) => {
            match *f {
                Term::Abs(p, b) => {
                    assert(well_formed(*f, n));
                    assert(p is Free);
                    if depth > 0 {
                        lemma_normal_form_well_formed(*b, (depth - 1) as nat, NORMALISE_BOUND as nat, n + 1);
                    }
                    let body = if depth == 0 {
                        *b
                    } else {
                        normal_form(*b, (depth - 1) as nat, NORMALISE_BOUND as nat)
                    };
                    assert(well_formed(body, n + 1));
                    assert(well_formed(*a, n));
                    if substitution_fits(body, *a) {
                        lemma_open_well_formed(body, 0, *a, n);
                    } else {
                        let stays = Term::App(Box::new(Term::Abs(p, Box::new(body))), a);
                        assert(well_formed(Term::Abs(p, Box::new(body)), n));
                        assert(well_formed(stays, n));
                    }
                    assert(normal_step(t, depth).0 == if substitution_fits(body, *a) {
                        open(body, 0, *a)
                    } else {
                        Term::App(Box::new(Term::Abs(p, Box::new(body))), a)
                    });
                },
                _ => {
                    lemma_normal_step_well_formed(*f, depth, n);
                    lemma_normal_step_well_formed(*a, depth, n);
                },
            }
        },
    }
}

/// Normalising keeps a term well formed.
proof fn lemma_normal_form_well_formed<T>(t: Term<Var<T>>, depth: nat, steps: nat, n: nat)
    requires
        well_formed(t, n),
    ensures
        well_formed(normal_form(t, depth, steps), n),
    decreases depth, steps + 1, t,
{
    if steps > 0 {
        lemma_normal_step_well_formed(t, depth, n);
        let (next, changed) = normal_step(t, depth);
        if changed {
            lemma_normal_form_well_formed(next, depth, (steps - 1) as nat, n);
        }
    }
}

/// The normal-order strategy keeps terms well formed.
pub proof fn lemma_normal_keeps_well_formed<T: Identifier>()
    ensures
        forall|t: Term<Var<T>>|
            well_formed(t, 0) ==> #[trigger] well_formed(Normal.stepped(t), 0),
{
    assert forall|t: Term<Var<T>>| well_formed(t, 0) implies #[trigger] well_formed(
        Normal.stepped(t),
        0,
    ) by {
        lemma_normal_step_well_formed(t, NORMALISE_BOUND as nat, 0);
    }
}

/// The largest index of a bound variable in `t`.
fn largest_index<T>(t: &Term<Var<T>>) -> (r: usize)
    ensures
        r == max_index(*t),
    decreases t,
{
    match t {
        Term::Var(Var::Bound(k)) => *k,
        Term::Var(Var::Free(_)) => 0,
        Term::Abs(_, b) => largest_index(&**b),
        Term::App(f, a) => {
            let x = largest_index(&**f);
            let y = largest_index(&**a);
            if x >= y { x } else { y }
        },
    }
}

/// Whether no path from the root of `t` passes more than `cap` binders.
fn binder_depth_at_most<T>(t: &Term<T>, cap: usize) -> (r: bool)
    ensures
        r == (binder_depth(*t) <= cap),
    decreases t,
{
    match t {
        Term::Var(_) => true,
        Term::Abs(_, b) => cap > 0 && binder_depth_at_most(&**b, cap - 1),
        Term::App(f, a) => binder_depth_at_most(&**f, cap) && binder_depth_at_most(&**a, cap),
    }
}

/// Whether putting `a` in for the outermost binder of `b` stays within
/// `usize` indices.
fn fits<T>(b: &Term<Var<T>>, a: &Term<Var<T>>) -> (r: bool)
    ensures
        r == substitution_fits(*b, *a),
{
    let m = largest_index(a);
    binder_depth_at_most(b, usize::MAX - m) && binder_depth_at_most(a, usize::MAX)
}

/// One normal-order step on an owned term.
fn step_owned<T: Identifier>(t: Term<Var<T>>, depth: usize) -> (r: (Term<Var<T>>, bool))
    ensures
        r == normal_step(t, depth as nat),
    decreases depth, 0nat, t,
{
    match t {
        Term::Var(x) => (Term::Var(x), false),
        Term::Abs(p, b) => {
            let (body, changed) = step_owned(*b, depth);
            (Term::Abs(p, Box::new(body)), changed)
        },
        Term::App(f, a) => match *f {
            Term::Abs(p, b) => {
                let body = if depth == 0 {
                    *b
                } else {
                    normalise(*b, depth - 1)
                };
                if fits(&body, &*a) {
                    (body.opened(0, &*a), true)
                } else {
                    (Term::App(Box::new(Term::Abs(p, Box::new(body))), a), true)
                }
            },
            func => {
                let (func, fc) = step_owned(func, depth);
                let (arg, ac) = step_owned(*a, depth);
                (Term::App(Box::new(func), Box::new(arg)), fc || ac)
            },
        },
    }
}

/// `t` after normal-order steps until one rewrites nothing, at most
/// [`NORMALISE_BOUND`] of them.
fn normalise<T: Identifier>(t: Term<Var<T>>, depth: usize) -> (r: Term<Var<T>>)
    ensures
        r == normal_form(t, depth as nat, NORMALISE_BOUND as nat),
    decreases depth, 1nat, t,
{
    let ghost start = t;
    let mut current = t;
    let mut left: usize = NORMALISE_BOUND;
    while left > 0
        invariant
            start == t,
            normal_form(start, depth as nat, NORMALISE_BOUND as nat) == normal_form(
                current,
                depth as nat,
                left as nat,
            ),
        decreases left,
    {
        let ghost before = current;
        let (next, changed) = step_owned(current, depth);
        if !changed {
            proof {
                lemma_normal_step_changes(before, depth as nat);
                assert(normal_form(before, depth as nat, left as nat) == before);
            }
            return next;
        }
        current = next;
        left = left - 1;
    }
    current
}

impl<T: Identifier> BetaReduce<Var<T>> for Normal {
    open spec fn stepped(&self, term: Term<Var<T>>) -> Term<Var<T>> {
        normal_step(term, NORMALISE_BOUND as nat).0
    }

    open spec fn steps(&self, term: Term<Var<T>>) -> bool {
        normal_step(term, NORMALISE_BOUND as nat).1
    }

    fn beta_reduce_step(&self, term: &mut Term<Var<T>>) -> (changed: bool) {
        let mut t = Term::Var(Var::Bound(0));
        std::mem::swap(term, &mut t);
        proof {
            lemma_normal_step_changes(t, NORMALISE_BOUND as nat);
        }
        let (next, changed) = step_owned(t, NORMALISE_BOUND);
        *term = next;
        changed
    }
}

} // verus!
