//! Beta-reduction strategies and the drivers built on their single step.

use vstd::prelude::*;

use crate::identifier::Identifier;
use crate::local_nameless::classic_of;
use crate::local_nameless::lemma_ln_of_well_formed;
use crate::local_nameless::lemma_well_formed_classic;
use crate::local_nameless::ln_of;
use crate::local_nameless::well_formed;
use crate::local_nameless::LocalNamelessError;
use crate::local_nameless::LocalNamelessTerm;
use crate::local_nameless::Var;
use crate::term::Term;

verus! {

/// A beta-reduction strategy: one rewriting step, from which the drivers
/// that repeat it are derived.
pub trait BetaReduce<T>: Sized {
    /// The term after one step of the strategy.
    spec fn stepped(&self, term: Term<T>) -> Term<T>;

    /// Whether one step of the strategy rewrites the term.
    spec fn steps(&self, term: Term<T>) -> bool;

    /// Performs one step in place and says whether it rewrote the term; a
    /// step that rewrites nothing leaves the term as it was.
    fn beta_reduce_step(&self, term: &mut Term<T>) -> (changed: bool)
        ensures
            changed == self.steps(*old(term)),
            *final(term) == self.stepped(*old(term)),
            !changed ==> *final(term) == *old(term),
    ;
}

/// The term after `n` steps of `strategy` from `t`.
pub open spec fn reduct<T, B: BetaReduce<T>>(strategy: B, t: Term<T>, n: nat) -> Term<T>
    decreases n,
{
    if n == 0 {
        t
    } else {
        strategy.stepped(reduct(strategy, t, (n - 1) as nat))
    }
}

impl<T> LocalNamelessTerm<T> {
    /// Performs one step of `reducer` in place; says whether it rewrote the term.
    pub fn beta_reduce_step<B: BetaReduce<Var<T>>>(&mut self, reducer: &B) -> (changed: bool)
        ensures
            changed == reducer.steps(*old(self)),
            *final(self) == reducer.stepped(*old(self)),
            !changed ==> *final(self) == *old(self),
    {
        reducer.beta_reduce_step(self)
    }

    /// Steps until a step rewrites nothing, and returns the number of steps;
    /// a count that reaches `usize::MAX` ends the loop too.
    pub fn beta_reduce<B: BetaReduce<Var<T>>>(&mut self, reducer: &B) -> (count: usize)
        ensures
            stops_within(*reducer, *old(self), usize::MAX as nat, count as nat),
            *final(self) == reduct(*reducer, *old(self), count as nat),
    {
        let ghost start = *self;
        let mut count: usize = 0;
        while count < usize::MAX
            invariant
                start == *old(self),
                *self == reduct(*reducer, start, count as nat),
                forall|i: nat| i < count ==> reducer.steps(#[trigger] reduct(*reducer, start, i)),
            decreases usize::MAX - count,
        {
            if !reducer.beta_reduce_step(self) {
                return count;
            }
            count = count + 1;
        }
        count
    }

    /// Steps while `predicate` holds of the term and the number of steps so
    /// far and a step rewrites the term; returns the number of steps.
    pub fn beta_reduce_while<B, P>(&mut self, predicate: P, reducer: &B) -> (count: usize) where
        B: BetaReduce<Var<T>>,
        P: Fn(&LocalNamelessTerm<T>, usize) -> bool,

        requires
            forall|t: LocalNamelessTerm<T>, i: usize| call_requires(predicate, (&t, i)),
        ensures
            *final(self) == reduct(*reducer, *old(self), count as nat),
            forall|i: nat|
                i < count ==> {
                    &&& reducer.steps(#[trigger] reduct(*reducer, *old(self), i))
                    &&& call_ensures(predicate, (&reduct(*reducer, *old(self), i), i as usize), true)
                },
            count < usize::MAX ==> {
                ||| call_ensures(predicate, (&*final(self), count), false)
                ||| !reducer.steps(*final(self))
            },
    {
        let ghost start = *self;
        let mut count: usize = 0;
        while count < usize::MAX
            invariant
                start == *old(self),
                forall|t: LocalNamelessTerm<T>, i: usize| call_requires(predicate, (&t, i)),
                *self == reduct(*reducer, start, count as nat),
                forall|i: nat|
                    i < count ==> {
                        &&& reducer.steps(#[trigger] reduct(*reducer, start, i))
                        &&& call_ensures(predicate, (&reduct(*reducer, start, i), i as usize), true)
                    },
            decreases usize::MAX - count,
        {
            if !predicate(&*self, count) {
                return count;
            }
            if !reducer.beta_reduce_step(self) {
                return count;
            }
            count = count + 1;
        }
        count
    }

    /// Steps until a step rewrites nothing or `limit` steps are done;
    /// returns the number of steps.
    pub fn beta_reduce_limit<B: BetaReduce<Var<T>>>(&mut self, limit: usize, reducer: &B) -> (count:
        usize)
        ensures
            stops_within(*reducer, *old(self), limit as nat, count as nat),
            *final(self) == reduct(*reducer, *old(self), count as nat),
    {
        let below = |_t: &LocalNamelessTerm<T>, count: usize| -> (r: bool)
            ensures
                r == (count < limit),
            { count < limit };
        let ghost start = *self;
        let count = self.beta_reduce_while(below, reducer);
        proof {
            if count > limit {
                assert(call_ensures(below, (&reduct(*reducer, start, limit as nat), limit), true));
            }
        }
        count
    }
}

/// Whether `count` steps of `strategy` from `t` are what a reduction with
/// the step limit `limit` performs: each of them rewrites the term, and
/// unless the limit was reached the term after them takes no further step.
pub open spec fn stops_within<T, B: BetaReduce<T>>(
    strategy: B,
    t: Term<T>,
    limit: nat,
    count: nat,
) -> bool {
    &&& count <= limit
    &&& forall|i: nat| i < count ==> strategy.steps(#[trigger] reduct(strategy, t, i))
    &&& count < limit ==> !strategy.steps(reduct(strategy, t, count))
}

/// A reduced term and the number of steps that produced it.
#[derive(Debug)]
pub struct ReducedTerm<T> {
    /// The number of reduction steps performed.
    pub count: usize,
    /// The reduced term.
    pub term: Term<T>,
}

/// Whether `strategy` keeps every closed well-formed term well formed.
pub open spec fn keeps_well_formed<T, B: BetaReduce<Var<T>>>(strategy: B) -> bool {
    forall|t: Term<Var<T>>| well_formed(t, 0) ==> #[trigger] well_formed(strategy.stepped(t), 0)
}

/// The locally nameless form of a classic term with no enclosing binders.
pub open spec fn ln<T: View>(t: Term<T>) -> Term<Var<T>> {
    ln_of(t, Seq::empty())
}

/// Well-formed terms stay well formed along a reduction.
pub proof fn lemma_reduct_well_formed<T, B: BetaReduce<Var<T>>>(
    strategy: B,
    t: Term<Var<T>>,
    n: nat,
)
    requires
        keeps_well_formed(strategy),
        well_formed(t, 0),
    ensures
        well_formed(reduct(strategy, t, n), 0),
    decreases n,
{
    if n > 0 {
        lemma_reduct_well_formed(strategy, t, (n - 1) as nat);
        assert(well_formed(strategy.stepped(reduct(strategy, t, (n - 1) as nat)), 0));
    }
}

impl<T: Identifier> Term<T> {
    /// The term reduced by `reducer` until a step rewrites nothing, with the
    /// number of steps.
    pub fn beta_reduced<B: BetaReduce<Var<T>>>(&self, reducer: &B) -> (r: ReducedTerm<T>)
        requires
            keeps_well_formed::<T, B>(*reducer),
        ensures
            stops_within(*reducer, ln(*self), usize::MAX as nat, r.count as nat),
            classic_of(reduct(*reducer, ln(*self), r.count as nat), Seq::empty()) == Ok::<
                Term<T>,
                LocalNamelessError,
            >(r.term),
    {
        let mut local_nameless = self.to_local_nameless();
        let count = local_nameless.beta_reduce(reducer);
        let term = Self::back_to_classic(&local_nameless, Ghost(*self), reducer, Ghost(count as nat));
        ReducedTerm { count, term }
    }

    /// The term reduced by `reducer` while `predicate` holds of the term and
    /// the number of steps so far, with the number of steps.
    pub fn beta_reduced_while<B, P>(&self, predicate: P, reducer: &B) -> (r: ReducedTerm<T>) where
        B: BetaReduce<Var<T>>,
        P: Fn(&LocalNamelessTerm<T>, usize) -> bool,

        requires
            keeps_well_formed::<T, B>(*reducer),
            forall|t: LocalNamelessTerm<T>, i: usize| call_requires(predicate, (&t, i)),
        ensures
            classic_of(reduct(*reducer, ln(*self), r.count as nat), Seq::empty()) == Ok::<
                Term<T>,
                LocalNamelessError,
            >(r.term),
            forall|i: nat|
                i < r.count ==> {
                    &&& reducer.steps(#[trigger] reduct(*reducer, ln(*self), i))
                    &&& call_ensures(predicate, (&reduct(*reducer, ln(*self), i), i as usize), true)
                },
            r.count < usize::MAX ==> {
                ||| call_ensures(
                    predicate,
                    (&reduct(*reducer, ln(*self), r.count as nat), r.count),
                    false,
                )
                ||| !reducer.steps(reduct(*reducer, ln(*self), r.count as nat))
            },
    {
        let mut local_nameless = self.to_local_nameless();
        let count = local_nameless.beta_reduce_while(predicate, reducer);
        let term = Self::back_to_classic(&local_nameless, Ghost(*self), reducer, Ghost(count as nat));
        ReducedTerm { count, term }
    }

    /// The term reduced by `reducer` until a step rewrites nothing or
    /// `limit` steps are done, with the number of steps.
    pub fn beta_reduced_limit<B: BetaReduce<Var<T>>>(&self, limit: usize, reducer: &B) -> (r:
        ReducedTerm<T>)
        requires
            keeps_well_formed::<T, B>(*reducer),
        ensures
            stops_within(*reducer, ln(*self), limit as nat, r.count as nat),
            classic_of(reduct(*reducer, ln(*self), r.count as nat), Seq::empty()) == Ok::<
                Term<T>,
                LocalNamelessError,
            >(r.term),
    {
        let mut local_nameless = self.to_local_nameless();
        let count = local_nameless.beta_reduce_limit(limit, reducer);
        let term = Self::back_to_classic(&local_nameless, Ghost(*self), reducer, Ghost(count as nat));
        ReducedTerm { count, term }
    }

    /// The classic form of a reduct of a classic term, which cannot fail.
    fn back_to_classic<B: BetaReduce<Var<T>>>(
        reduced: &LocalNamelessTerm<T>,
        start: Ghost<Term<T>>,
        reducer: &B,
        count: Ghost<nat>,
    ) -> (r: Term<T>)
        requires
            keeps_well_formed::<T, B>(*reducer),
            *reduced == reduct(*reducer, ln(start@), count@),
        ensures
            classic_of(*reduced, Seq::empty()) == Ok::<Term<T>, LocalNamelessError>(r),
    {
        proof {
            lemma_ln_of_well_formed(start@, Seq::empty());
            lemma_reduct_well_formed(*reducer, ln(start@), count@);
            lemma_well_formed_classic(*reduced, Seq::<T>::empty());
        }
        reduced.to_classic().unwrap()
    }
}

} // verus!
