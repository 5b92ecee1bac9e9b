//! The locally nameless encoding of terms: bound variables become de Bruijn
//! indices, free variables keep their names, and substitution needs no
//! renaming.

use vstd::prelude::*;

use crate::identifier::Identifier;
use crate::term::Term;

verus! {

/// A variable of a locally nameless term.
#[derive(Debug, Eq, PartialEq)]
pub enum Var<T> {
    /// A bound variable, as the number of binders between it and the one
    /// that binds it (0 for the nearest).
    Bound(usize),
    /// A free variable, under its own name.
    Free(T),
}

/// The errors of converting a locally nameless term back to a classic one.
#[derive(Debug, Eq, PartialEq)]
pub enum LocalNamelessError {
    /// A bound variable's index reaches past every enclosing binder.
    InvalidVarIndex(usize),
    /// An abstraction's parameter is a bound variable rather than a name.
    InvalidAbsParam(usize),
}

/// A term whose variables are free names or de Bruijn indices.
pub type LocalNamelessTerm<T> = Term<Var<T>>;

impl<T: View> View for Var<T> {
    type V = Var<T::V>;

    open spec fn view(&self) -> Var<T::V> {
        match self {
            Var::Bound(k) => Var::Bound(*k),
            Var::Free(x) => Var::Free(x@),
        }
    }
}

impl<T: Identifier> Identifier for Var<T> {
    fn duplicate(&self) -> (r: Self) {
        match self {
            Var::Bound(k) => Var::Bound(*k),
            Var::Free(x) => Var::Free(x.duplicate()),
        }
    }

    fn same(&self, other: &Self) -> (r: bool) {
        match (self, other) {
            (Var::Bound(j), Var::Bound(k)) => *j == *k,
            (Var::Free(x), Var::Free(y)) => x.same(y),
            _ => false,
        }
    }
}

/// The index of the nearest binder in `names` (innermost last) whose name
/// has view `v`, counted outward from the innermost.
pub open spec fn binder_index<T: View>(names: Seq<T>, v: T::V) -> Option<nat>
    decreases names.len(),
{
    if names.len() == 0 {
        None
    } else if names.last()@ == v {
        Some(0)
    } else {
        match binder_index(names.drop_last(), v) {
            Some(k) => Some(k + 1),
            None => None,
        }
    }
}

/// The locally nameless form of `t` under the binders `names` (innermost
/// last): each variable becomes the index of its nearest binder, or stays a
/// free name; each parameter is kept as a free name for display.
pub open spec fn ln_of<T: View>(t: Term<T>, names: Seq<T>) -> Term<Var<T>>
    decreases t,
{
    match t {
        Term::Var(x) => match binder_index(names, x@) {
            Some(k) => Term::Var(Var::Bound(k as usize)),
            None => Term::Var(Var::Free(x)),
        },
        Term::Abs(p, b) => Term::Abs(Var::Free(p), Box::new(ln_of(*b, names.push(p)))),
        Term::App(f, a) => Term::App(Box::new(ln_of(*f, names)), Box::new(ln_of(*a, names))),
    }
}

/// The classic form of `t` under the binders `names` (innermost last), or
/// the first malformed variable met in a left-to-right walk.
pub open spec fn classic_of<T>(t: Term<Var<T>>, names: Seq<T>) -> Result<
    Term<T>,
    LocalNamelessError,
>
    decreases t,
{
    match t {
        Term::Var(Var::Bound(k)) => if k < names.len() {
            Ok(Term::Var(names[names.len() - 1 - k]))
        } else {
            Err(LocalNamelessError::InvalidVarIndex(k))
        },
        Term::Var(Var::Free(x)) => Ok(Term::Var(x)),
        Term::Abs(Var::Bound(k), _) => Err(LocalNamelessError::InvalidAbsParam(k)),
        Term::Abs(Var::Free(p), b) => match classic_of(*b, names.push(p)) {
            Ok(body) => Ok(Term::Abs(p, Box::new(body))),
            Err(e) => Err(e),
        },
        Term::App(f, a) => match classic_of(*f, names) {
            Err(e) => Err(e),
            Ok(func) => match classic_of(*a, names) {
                Err(e) => Err(e),
                Ok(arg) => Ok(Term::App(Box::new(func), Box::new(arg))),
            },
        },
    }
}

/// Whether `t` is well formed under `depth` binders: every index points at
/// an enclosing binder and every parameter is a name.
pub open spec fn well_formed<T>(t: Term<Var<T>>, depth: nat) -> bool
    decreases t,
{
    match t {
        Term::Var(Var::Bound(k)) => k < depth,
        Term::Var(Var::Free(_)) => true,
        Term::Abs(Var::Bound(_), _) => false,
        Term::Abs(Var::Free(_), b) => well_formed(*b, depth + 1),
        Term::App(f, a) => well_formed(*f, depth) && well_formed(*a, depth),
    }
}

/// `t` with every index at or above `depth` raised by `amount`.
pub open spec fn shift<T>(t: Term<Var<T>>, depth: nat, amount: nat) -> Term<Var<T>>
    decreases t,
{
    match t {
        Term::Var(Var::Bound(k)) => if k >= depth {
            Term::Var(Var::Bound((k + amount) as usize))
        } else {
            Term::Var(Var::Bound(k))
        },
        Term::Var(Var::Free(x)) => Term::Var(Var::Free(x)),
        Term::Abs(p, b) => Term::Abs(p, Box::new(shift(*b, depth + 1, amount))),
        Term::App(f, a) => Term::App(Box::new(shift(*f, depth, amount)), Box::new(shift(*a, depth, amount))),
    }
}

/// `t` with the binder at `depth` consumed: its variables become
/// `replacement`, shifted to their depth, and indices above it drop by one.
pub open spec fn open<T>(t: Term<Var<T>>, depth: nat, replacement: Term<Var<T>>) -> Term<Var<T>>
    decreases t,
{
    match t {
        Term::Var(Var::Bound(k)) => if k == depth {
            shift(replacement, 0, depth)
        } else if k > depth {
            Term::Var(Var::Bound((k - 1) as usize))
        } else {
            Term::Var(Var::Bound(k))
        },
        Term::Var(Var::Free(x)) => Term::Var(Var::Free(x)),
        Term::Abs(p, b) => Term::Abs(p, Box::new(open(*b, depth + 1, replacement))),
        Term::App(f, a) => Term::App(
            Box::new(open(*f, depth, replacement)),
            Box::new(open(*a, depth, replacement)),
        ),
    }
}

/// The greatest number of abstractions on a path from the root of `t`.
pub open spec fn binder_depth<T>(t: Term<T>) -> nat
    decreases t,
{
    match t {
        Term::Var(_) => 0,
        Term::Abs(_, b) => 1 + binder_depth(*b),
        Term::App(f, a) => {
            let (x, y) = (binder_depth(*f), binder_depth(*a));
            if x >= y { x } else { y }
        },
    }
}

/// The largest index of a bound variable in `t`, or 0 if there is none.
pub open spec fn max_index<T>(t: Term<Var<T>>) -> nat
    decreases t,
{
    match t {
        Term::Var(Var::Bound(k)) => k as nat,
        Term::Var(Var::Free(_)) => 0,
        Term::Abs(_, b) => max_index(*b),
        Term::App(f, a) => {
            let (x, y) = (max_index(*f), max_index(*a));
            if x >= y { x } else { y }
        },
    }
}

/// The index of the nearest binder in `names` named like `x`.
fn find_binder<T: Identifier>(names: &Vec<T>, x: &T) -> (r: Option<usize>)
    ensures
        match binder_index(names@, x@) {
            Some(k) => r == Some(k as usize),
            None => r is None,
        },
{
    let n = names.len();
    let mut i: usize = n;
    assert(names@.subrange(0, n as int) =~= names@);
    while i > 0
        invariant
            i <= n == names@.len(),
            binder_index(names@, x@) == match binder_index(names@.subrange(0, i as int), x@) {
                Some(k) => Some((k + (n - i)) as nat),
                None => None::<nat>,
            },
        decreases i,
    {
        let ghost prefix = names@.subrange(0, i as int);
        assert(prefix.drop_last() =~= names@.subrange(0, i - 1));
        if names[i - 1].same(x) {
            return Some(n - i);
        }
        i = i - 1;
    }
    assert(names@.subrange(0, 0) =~= Seq::<T>::empty());
    None
}

impl<T: Identifier> Term<T> {
    /// The locally nameless form of the term, every variable resolved to its
    /// nearest binder.
    pub fn to_local_nameless(&self) -> (r: LocalNamelessTerm<T>)
        ensures
            r == ln_of(*self, Seq::empty()),
    {
        let mut names: Vec<T> = Vec::new();
        self.to_local_nameless_under(&mut names)
    }

    /// The locally nameless form of the term under the binders `names`.
    fn to_local_nameless_under(&self, names: &mut Vec<T>) -> (r: LocalNamelessTerm<T>)
        ensures
            r == ln_of(*self, old(names)@),
            final(names)@ == old(names)@,
        decreases self,
    {
        match self {
            Term::Var(x) => match find_binder(names, x) {
                Some(k) => Term::Var(Var::Bound(k)),
                None => Term::Var(Var::Free(x.duplicate())),
            },
            Term::Abs(p, b) => {
                names.push(p.duplicate());
                let body = (**b).to_local_nameless_under(names);
                names.pop();
                proof {
                    assert(names@ =~= old(names)@);
                }
                Term::Abs(Var::Free(p.duplicate()), Box::new(body))
            },
            Term::App(f, a) => {
                let func = (**f).to_local_nameless_under(names);
                let arg = (**a).to_local_nameless_under(names);
                Term::App(Box::new(func), Box::new(arg))
            },
        }
    }
}

/// The locally nameless form of a classic term.
impl<'a, T: Identifier> From<&'a Term<T>> for Term<Var<T>> {
    fn from(classic: &'a Term<T>) -> (r: Self)
        ensures
            r == ln_of(*classic, Seq::empty()),
    {
        classic.to_local_nameless()
    }
}

impl<'a, T: Identifier> vstd::std_specs::convert::FromSpecImpl<&'a Term<T>> for Term<Var<T>> {
    open spec fn obeys_from_spec() -> bool {
        true
    }

    open spec fn from_spec(classic: &'a Term<T>) -> Self {
        ln_of(*classic, Seq::empty())
    }
}

impl<T: Identifier> Term<Var<T>> {
    /// The classic form of the term, or the first malformed variable met.
    pub fn to_classic(&self) -> (r: Result<Term<T>, LocalNamelessError>)
        ensures
            r == classic_of(*self, Seq::empty()),
    {
        let mut names: Vec<T> = Vec::new();
        self.to_classic_under(&mut names)
    }

    /// The classic form of the term under the binders `names`.
    fn to_classic_under(&self, names: &mut Vec<T>) -> (r: Result<Term<T>, LocalNamelessError>)
        ensures
            r == classic_of(*self, old(names)@),
            final(names)@ == old(names)@,
        decreases self,
    {
        match self {
            Term::Var(Var::Bound(k)) => if *k < names.len() {
                Ok(Term::Var(names[names.len() - 1 - *k].duplicate()))
            } else {
                Err(LocalNamelessError::InvalidVarIndex(*k))
            },
            Term::Var(Var::Free(x)) => Ok(Term::Var(x.duplicate())),
            Term::Abs(Var::Bound(k), _) => Err(LocalNamelessError::InvalidAbsParam(*k)),
            Term::Abs(Var::Free(p), b) => {
                names.push(p.duplicate());
                let body = (**b).to_classic_under(names);
                names.pop();
                proof {
                    assert(names@ =~= old(names)@);
                }
                match body {
                    Ok(body) => Ok(Term::Abs(p.duplicate(), Box::new(body))),
                    Err(e) => Err(e),
                }
            },
            Term::App(f, a) => match (**f).to_classic_under(names) {
                Err(e) => Err(e),
                Ok(func) => match (**a).to_classic_under(names) {
                    Err(e) => Err(e),
                    Ok(arg) => Ok(Term::App(Box::new(func), Box::new(arg))),
                },
            },
        }
    }
}

impl<T: Identifier> Term<Var<T>> {
    /// A copy of the term with every index at or above `depth` raised by
    /// `amount`.
    fn shifted(&self, depth: usize, amount: usize) -> (r: Self)
        requires
            depth + binder_depth(*self) <= usize::MAX,
            max_index(*self) + amount <= usize::MAX,
        ensures
            r == shift(*self, depth as nat, amount as nat),
        decreases self,
    {
        match self {
            Term::Var(Var::Bound(k)) => if *k >= depth {
                Term::Var(Var::Bound(*k + amount))
            } else {
                Term::Var(Var::Bound(*k))
            },
            Term::Var(Var::Free(x)) => Term::Var(Var::Free(x.duplicate())),
            Term::Abs(p, b) => Term::Abs(p.duplicate(), Box::new((**b).shifted(depth + 1, amount))),
            Term::App(f, a) => Term::App(
                Box::new((**f).shifted(depth, amount)),
                Box::new((**a).shifted(depth, amount)),
            ),
        }
    }

    /// The term with the binder at `depth` consumed and its variables
    /// replaced by `replacement`.
    pub(crate) fn opened(self, depth: usize, replacement: &Self) -> (r: Self)
        requires
            depth + binder_depth(self) + max_index(*replacement) <= usize::MAX,
            binder_depth(*replacement) <= usize::MAX,
        ensures
            r == open(self, depth as nat, *replacement),
        decreases self,
    {
        match self {
            Term::Var(Var::Bound(k)) => if k == depth {
                replacement.shifted(0, depth)
            } else if k > depth {
                Term::Var(Var::Bound(k - 1))
            } else {
                Term::Var(Var::Bound(k))
            },
            Term::Var(Var::Free(x)) => Term::Var(Var::Free(x)),
            Term::Abs(p, b) => Term::Abs(p, Box::new((*b).opened(depth + 1, replacement))),
            Term::App(f, a) => Term::App(
                Box::new((*f).opened(depth, replacement)),
                Box::new((*a).opened(depth, replacement)),
            ),
        }
    }
}

/// The nearest binder found is one of `names`, named as asked.
pub proof fn lemma_binder_index<T: View>(names: Seq<T>, v: T::V)
    ensures
        match binder_index(names, v) {
            Some(k) => k < names.len() && names[names.len() - 1 - k]@ == v,
            None => forall|i: int| 0 <= i < names.len() ==> names[i]@ != v,
        },
    decreases names.len(),
{
    if names.len() > 0 && names.last()@ != v {
        lemma_binder_index(names.drop_last(), v);
        let n = names.len();
        assert forall|i: int| 0 <= i < n - 1 implies names.drop_last()[i] == names[i] by {}
    }
}

/// The forward conversion yields a well-formed term.
pub proof fn lemma_ln_of_well_formed<T: View>(t: Term<T>, names: Seq<T>)
    ensures
        well_formed(ln_of(t, names), names.len()),
    decreases t,
{
    match t {
        Term::Var(x) => lemma_binder_index(names, x@),
        Term::Abs(p, b) => lemma_ln_of_well_formed(*b, names.push(p)),
        Term::App(f, a) => {
            lemma_ln_of_well_formed(*f, names);
            lemma_ln_of_well_formed(*a, names);
        },
    }
}

/// A well-formed term converts back without error.
pub proof fn lemma_well_formed_classic<T>(t: Term<Var<T>>, names: Seq<T>)
    requires
        well_formed(t, names.len()),
    ensures
        classic_of(t, names) is Ok,
    decreases t,
{
    match t {
        Term::Var(_) => {},
        Term::Abs(Var::Free(p), b) => lemma_well_formed_classic(*b, names.push(p)),
        Term::Abs(Var::Bound(_), _) => {},
        Term::App(f, a) => {
            lemma_well_formed_classic(*f, names);
            lemma_well_formed_classic(*a, names);
        },
    }
}

/// Shifting by `amount` keeps a term well formed under `amount` more binders.
pub proof fn lemma_shift_well_formed<T>(t: Term<Var<T>>, depth: nat, amount: nat, n: nat)
    requires
        well_formed(t, n),
        (depth as int) <= n,
        max_index(t) + amount <= usize::MAX,
    ensures
        well_formed(shift(t, depth, amount), n + amount),
    decreases t,
{
    match t {
        Term::Var(_) => {},
        Term::Abs(Var::Free(_), b) => lemma_shift_well_formed(*b, depth + 1, amount, n + 1),
        Term::Abs(Var::Bound(_), _) => {},
        Term::App(f, a) => {
            lemma_shift_well_formed(*f, depth, amount, n);
            lemma_shift_well_formed(*a, depth, amount, n);
        },
    }
}

/// Opening a body under `n + 1 + depth` binders with a replacement well
/// formed under `n` leaves a term well formed under `n + depth`.
pub proof fn lemma_open_well_formed<T>(t: Term<Var<T>>, depth: nat, r: Term<Var<T>>, n: nat)
    requires
        well_formed(t, n + 1 + depth),
        well_formed(r, n),
        max_index(r) + depth + binder_depth(t) <= usize::MAX,
    ensures
        well_formed(open(t, depth, r), n + depth),
    decreases t,
{
    match t {
        Term::Var(Var::Bound(k)) => {
            if k == depth {
                lemma_shift_well_formed(r, 0, depth, n);
            }
        },
        Term::Var(Var::Free(_)) => {},
        Term::Abs(Var::Free(_), b) => lemma_open_well_formed(*b, depth + 1, r, n),
        Term::Abs(Var::Bound(_), _) => {},
        Term::App(f, a) => {
            lemma_open_well_formed(*f, depth, r, n);
            lemma_open_well_formed(*a, depth, r, n);
        },
    }
}

} // verus!
