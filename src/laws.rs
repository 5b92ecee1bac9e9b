//! Laws that relate the library's functions to one another.

use vstd::prelude::*;

use crate::identifier::Identifier;
use crate::local_nameless::binder_depth;
use crate::local_nameless::binder_index;
use crate::local_nameless::classic_of;
use crate::local_nameless::lemma_binder_index;
use crate::local_nameless::ln_of;
use crate::local_nameless::LocalNamelessError;
use crate::local_nameless::Var;
use crate::normal::is_normal;
use crate::normal::lemma_normal_step_changes;
use crate::normal::Normal;
use crate::normal::NORMALISE_BOUND;
use crate::reduce::ln;
use crate::reduce::reduct;
use crate::reduce::stops_within;
use crate::reduce::BetaReduce;
use crate::term::Term;

verus! {

/// Converting a term to locally nameless form and back gives the term again,
/// identifier for identifier (compared by view), for any term whose
/// binders nest no deeper than a `usize` counts.
pub proof fn law_round_trip<T: View>(t: Term<T>)
    requires
        binder_depth(t) <= usize::MAX,
    ensures
        classic_of(ln(t), Seq::empty()) is Ok,
        classic_of(ln(t), Seq::empty())->Ok_0@ == t@,
{
    lemma_round_trip_under(t, Seq::empty());
}

/// The round trip under any enclosing binders.
proof fn lemma_round_trip_under<T: View>(t: Term<T>, names: Seq<T>)
    requires
        names.len() + binder_depth(t) <= usize::MAX,
    ensures
        classic_of(ln_of(t, names), names) is Ok,
        classic_of(ln_of(t, names), names)->Ok_0@ == t@,
    decreases t,
{
    match t {
        Term::Var(x) => {
            lemma_binder_index(names, x@);
            match binder_index(names, x@) {
                Some(k) => {},
                None => {},
            }
        },
        Term::Abs(p, b) => lemma_round_trip_under(*b, names.push(p)),
        Term::App(f, a) => {
            lemma_round_trip_under(*f, names);
            lemma_round_trip_under(*a, names);
        },
    }
}

/// The locally nameless form of a term has a redex exactly where the term
/// has one.
proof fn lemma_ln_of_normal<T: View>(t: Term<T>, names: Seq<T>)
    ensures
        is_normal(ln_of(t, names)) == is_normal(t),
    decreases t,
{
    match t {
        Term::Var(x) => {},
        Term::Abs(p, b) => lemma_ln_of_normal(*b, names.push(p)),
        Term::App(f, a) => {
            lemma_ln_of_normal(*f, names);
            lemma_ln_of_normal(*a, names);
        },
    }
}

/// A term in normal form takes no normal-order step and stays as it is
/// however many steps are asked for.
pub proof fn law_normal_form_is_fixed<T: Identifier>(t: Term<Var<T>>, n: nat)
    requires
        is_normal(t),
    ensures
        !Normal.steps(t),
        reduct(Normal, t, n) == t,
    decreases n,
{
    lemma_normal_step_changes(t, NORMALISE_BOUND as nat);
    if n > 0 {
        law_normal_form_is_fixed(t, (n - 1) as nat);
    }
}

/// Reducing a classic term in normal form performs no step, and the result
/// converts back to the term itself.
pub proof fn law_idempotence<T: Identifier>(t: Term<T>, limit: nat, count: nat)
    requires
        is_normal(t),
        binder_depth(t) <= usize::MAX,
        stops_within(Normal, ln(t), limit, count),
    ensures
        count == 0,
        classic_of(reduct(Normal, ln(t), count), Seq::empty()) is Ok,
        classic_of(reduct(Normal, ln(t), count), Seq::empty())->Ok_0@ == t@,
{
    lemma_ln_of_normal(t, Seq::empty());
    law_normal_form_is_fixed(ln(t), 0);
    if count > 0 {
        assert(Normal.steps(reduct(Normal, ln(t), 0)));
    }
    law_round_trip(t);
}

/// A reduction with a limit performs no more steps than the limit, and two
/// reductions whose limits are both at least the number of steps to normal
/// form perform the same steps and end at the same term.
pub proof fn law_monotonic_bounding<T, B: BetaReduce<T>>(
    strategy: B,
    t: Term<T>,
    steps_to_normal: nat,
    n1: nat,
    count1: nat,
    n2: nat,
    count2: nat,
)
    requires
        forall|i: nat| i < steps_to_normal ==> strategy.steps(#[trigger] reduct(strategy, t, i)),
        !strategy.steps(reduct(strategy, t, steps_to_normal)),
        steps_to_normal <= n1 <= n2,
        stops_within(strategy, t, n1, count1),
        stops_within(strategy, t, n2, count2),
    ensures
        count1 <= n1,
        count2 <= n2,
        count1 == count2 == steps_to_normal,
        reduct(strategy, t, count1) == reduct(strategy, t, count2),
{
    if count1 > steps_to_normal {
        assert(strategy.steps(reduct(strategy, t, steps_to_normal)));
    }
    if count2 > steps_to_normal {
        assert(strategy.steps(reduct(strategy, t, steps_to_normal)));
    }
    if count1 < steps_to_normal {
        assert(strategy.steps(reduct(strategy, t, count1)));
    }
    if count2 < steps_to_normal {
        assert(strategy.steps(reduct(strategy, t, count2)));
    }
}

/// A normal-order step reports a change exactly when the term holds a
/// redex, and a step that reports none leaves the term as it was.
pub proof fn law_step_progress<T: Identifier>(t: Term<Var<T>>)
    ensures
        Normal.steps(t) == !is_normal(t),
        !Normal.steps(t) ==> Normal.stepped(t) == t,
{
    lemma_normal_step_changes(t, NORMALISE_BOUND as nat);
}

/// A reduction with the step limit 0 performs no step and gives the term
/// back unchanged.
pub proof fn law_limit_zero<T: Identifier, B: BetaReduce<Var<T>>>(
    strategy: B,
    t: Term<T>,
    count: nat,
)
    requires
        binder_depth(t) <= usize::MAX,
        stops_within(strategy, ln(t), 0, count),
    ensures
        count == 0,
        classic_of(reduct(strategy, ln(t), count), Seq::empty()) is Ok,
        classic_of(reduct(strategy, ln(t), count), Seq::empty())->Ok_0@ == t@,
{
    law_round_trip(t);
}

/// Converting back to classic form keeps where the redexes are.
proof fn lemma_classic_of_normal<T>(u: Term<Var<T>>, names: Seq<T>)
    requires
        classic_of(u, names) is Ok,
    ensures
        is_normal(classic_of(u, names)->Ok_0) == is_normal(u),
    decreases u,
{
    match u {
        Term::Var(_) => {},
        Term::Abs(Var::Free(p), b) => lemma_classic_of_normal(*b, names.push(p)),
        Term::Abs(Var::Bound(_), _) => {},
        Term::App(f, a) => {
            lemma_classic_of_normal(*f, names);
            lemma_classic_of_normal(*a, names);
        },
    }
}

/// Reducing again the classic form of a term that reduction left in normal
/// form performs no step, and gives that classic form back.
pub proof fn law_reduce_again<T: Identifier>(
    u: Term<Var<T>>,
    c: Term<T>,
    limit: nat,
    count: nat,
)
    requires
        is_normal(u),
        classic_of(u, Seq::empty()) == Ok::<Term<T>, LocalNamelessError>(c),
        binder_depth(c) <= usize::MAX,
        stops_within(Normal, ln(c), limit, count),
    ensures
        count == 0,
        classic_of(reduct(Normal, ln(c), count), Seq::empty()) is Ok,
        classic_of(reduct(Normal, ln(c), count), Seq::empty())->Ok_0@ == c@,
{
    lemma_classic_of_normal(u, Seq::empty());
    law_idempotence(c, limit, count);
}

} // verus!
