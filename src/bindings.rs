//! A table of named definitions, and the rewrite that splices them into a
//! term in place of its free variables.

use vstd::prelude::*;

use crate::identifier::Identifier;
use crate::local_nameless::well_formed;
use crate::local_nameless::LocalNamelessTerm;
use crate::local_nameless::Var;
use crate::term::Term;

verus! {

/// Definitions by name: each name, compared by its view, maps to one
/// locally nameless term.
pub struct Bindings<T> {
    entries: Vec<(T, LocalNamelessTerm<T>)>,
}

/// The map that a list of definitions stands for: a later entry overrides an
/// earlier one of the same name.
pub open spec fn map_of<T: View>(entries: Seq<(T, LocalNamelessTerm<T>)>) -> Map<
    T::V,
    LocalNamelessTerm<T>,
>
    decreases entries.len(),
{
    if entries.len() == 0 {
        Map::empty()
    } else {
        map_of(entries.drop_last()).insert(entries.last().0@, entries.last().1)
    }
}

/// `t` with each free variable that `binds` defines replaced by its
/// definition.
pub open spec fn rebound<T: View>(
    t: LocalNamelessTerm<T>,
    binds: Map<T::V, LocalNamelessTerm<T>>,
) -> LocalNamelessTerm<T>
    decreases t,
{
    match t {
        Term::Var(Var::Free(x)) => if binds.contains_key(x@) {
            binds[x@]
        } else {
            Term::Var(Var::Free(x))
        },
        Term::Var(Var::Bound(k)) => Term::Var(Var::Bound(k)),
        Term::Abs(p, b) => Term::Abs(p, Box::new(rebound(*b, binds))),
        Term::App(f, a) => Term::App(Box::new(rebound(*f, binds)), Box::new(rebound(*a, binds))),
    }
}

/// Whether every definition in `binds` is a closed, well-formed term.
pub open spec fn all_closed<T: View>(binds: Map<T::V, LocalNamelessTerm<T>>) -> bool {
    forall|v: T::V| #[trigger] binds.contains_key(v) ==> well_formed(binds[v], 0)
}

/// The entry that decides a name is the last of that name.
proof fn lemma_map_of_lookup<T: View>(entries: Seq<(T, LocalNamelessTerm<T>)>, v: T::V, i: int)
    requires
        0 <= i < entries.len(),
        entries[i].0@ == v,
        forall|j: int| i < j < entries.len() ==> entries[j].0@ != v,
    ensures
        map_of(entries).contains_key(v),
        map_of(entries)[v] == entries[i].1,
    decreases entries.len(),
{
    if i < entries.len() - 1 {
        lemma_map_of_lookup(entries.drop_last(), v, i);
    }
}

/// A name that no entry has is not in the map.
proof fn lemma_map_of_absent<T: View>(entries: Seq<(T, LocalNamelessTerm<T>)>, v: T::V)
    requires
        forall|j: int| 0 <= j < entries.len() ==> entries[j].0@ != v,
    ensures
        !map_of(entries).contains_key(v),
    decreases entries.len(),
{
    if entries.len() > 0 {
        lemma_map_of_absent(entries.drop_last(), v);
    }
}

/// Replacing the term of the deciding entry of a name replaces it in the map.
proof fn lemma_map_of_update<T: View>(
    entries: Seq<(T, LocalNamelessTerm<T>)>,
    i: int,
    t: LocalNamelessTerm<T>,
)
    requires
        0 <= i < entries.len(),
        forall|j: int| i < j < entries.len() ==> entries[j].0@ != entries[i].0@,
    ensures
        map_of(entries.update(i, (entries[i].0, t))) == map_of(entries).insert(entries[i].0@, t),
    decreases entries.len(),
{
    let v = entries[i].0@;
    let updated = entries.update(i, (entries[i].0, t));
    if i == entries.len() - 1 {
        assert(updated.drop_last() =~= entries.drop_last());
        assert(map_of(updated) =~= map_of(entries).insert(v, t));
    } else {
        assert(updated.drop_last() =~= entries.drop_last().update(i, (entries[i].0, t)));
        lemma_map_of_update(entries.drop_last(), i, t);
        assert(map_of(updated) =~= map_of(entries).insert(v, t));
    }
}

impl<T: View> View for Bindings<T> {
    type V = Map<T::V, LocalNamelessTerm<T>>;

    closed spec fn view(&self) -> Map<T::V, LocalNamelessTerm<T>> {
        map_of(self.entries@)
    }
}

impl<T: Identifier> Bindings<T> {
    /// An empty table.
    pub fn new() -> (r: Self)
        ensures
            r@ == Map::<T::V, LocalNamelessTerm<T>>::empty(),
    {
        Bindings { entries: Vec::new() }
    }

    /// The position of the entry that decides `name`.
    fn find(&self, name: &T) -> (r: Option<usize>)
        ensures
            match r {
                Some(i) => {
                    &&& i < self.entries@.len()
                    &&& self.entries@[i as int].0@ == name@
                    &&& forall|j: int| i < j < self.entries@.len() ==> self.entries@[j].0@ != name@
                },
                None => forall|j: int| 0 <= j < self.entries@.len() ==> self.entries@[j].0@ != name@,
            },
    {
        let mut i: usize = self.entries.len();
        while i > 0
            invariant
                i <= self.entries@.len(),
                forall|j: int| i <= j < self.entries@.len() ==> self.entries@[j].0@ != name@,
            decreases i,
        {
            if self.entries[i - 1].0.same(name) {
                return Some(i - 1);
            }
            i = i - 1;
        }
        None
    }

    /// The definition of `name`, if it has one.
    pub fn get(&self, name: &T) -> (r: Option<&LocalNamelessTerm<T>>)
        ensures
            match r {
                Some(t) => self@.contains_key(name@) && *t == self@[name@],
                None => !self@.contains_key(name@),
            },
    {
        match self.find(name) {
            Some(i) => {
                proof {
                    lemma_map_of_lookup(self.entries@, name@, i as int);
                }
                Some(&self.entries[i].1)
            },
            None => {
                proof {
                    lemma_map_of_absent(self.entries@, name@);
                }
                None
            },
        }
    }

    /// Defines `name` as `term`, and says whether it replaced an earlier
    /// definition.
    pub fn insert(&mut self, name: T, term: LocalNamelessTerm<T>) -> (replaced: bool)
        ensures
            replaced == old(self)@.contains_key(name@),
            final(self)@ == old(self)@.insert(name@, term),
    {
        match self.find(&name) {
            Some(i) => {
                proof {
                    lemma_map_of_lookup(self.entries@, name@, i as int);
                    lemma_map_of_update(self.entries@, i as int, term);
                }
                let ghost before = self.entries@;
                let key = self.entries[i].0.duplicate();
                self.entries.set(i, (key, term));
                proof {
                    assert(self.entries@ =~= before.update(i as int, (before[i as int].0, term)));
                }
                true
            },
            None => {
                proof {
                    lemma_map_of_absent(self.entries@, name@);
                }
                let ghost before = self.entries@;
                self.entries.push((name, term));
                proof {
                    assert(self.entries@.drop_last() =~= before);
                }
                false
            },
        }
    }
}

impl<T: Identifier> Term<Var<T>> {
    /// Replaces, in place, each free variable that `binds` defines by a copy
    /// of its definition.
    pub fn rebind(&mut self, binds: &Bindings<T>)
        ensures
            *final(self) == rebound(*old(self), binds@),
    {
        let mut t = Term::Var(Var::Bound(0));
        std::mem::swap(self, &mut t);
        *self = rebound_owned(t, binds);
    }
}

/// `t` with each free variable that `binds` defines replaced.
fn rebound_owned<T: Identifier>(t: LocalNamelessTerm<T>, binds: &Bindings<T>) -> (r:
    LocalNamelessTerm<T>)
    ensures
        r == rebound(t, binds@),
    decreases t,
{
    match t {
        Term::Var(Var::Free(x)) => match binds.get(&x) {
            Some(def) => def.clone(),
            None => Term::Var(Var::Free(x)),
        },
        Term::Var(Var::Bound(k)) => Term::Var(Var::Bound(k)),
        Term::Abs(p, b) => Term::Abs(p, Box::new(rebound_owned(*b, binds))),
        Term::App(f, a) => Term::App(
            Box::new(rebound_owned(*f, binds)),
            Box::new(rebound_owned(*a, binds)),
        ),
    }
}

/// Splicing closed definitions into a well-formed term keeps it well formed.
pub proof fn lemma_rebound_well_formed<T: View>(
    t: LocalNamelessTerm<T>,
    binds: Map<T::V, LocalNamelessTerm<T>>,
    n: nat,
)
    requires
        well_formed(t, n),
        all_closed(binds),
    ensures
        well_formed(rebound(t, binds), n),
    decreases t,
{
    match t {
        Term::Var(Var::Free(x)) => {
            if binds.contains_key(x@) {
                lemma_closed_well_formed(binds[x@], 0, n);
            }
        },
        Term::Var(Var::Bound(_)) => {},
        Term::Abs(_, b) => lemma_rebound_well_formed(*b, binds, n + 1),
        Term::App(f, a) => {
            lemma_rebound_well_formed(*f, binds, n);
            lemma_rebound_well_formed(*a, binds, n);
        },
    }
}

/// A term well formed under some binders is well formed under more.
proof fn lemma_closed_well_formed<T>(t: LocalNamelessTerm<T>, m: nat, n: nat)
    requires
        well_formed(t, m),
        m <= n,
    ensures
        well_formed(t, n),
    decreases t,
{
    match t {
        Term::Var(_) => {},
        Term::Abs(Var::Free(_), b) => lemma_closed_well_formed(*b, m + 1, n + 1),
        Term::Abs(Var::Bound(_), _) => {},
        Term::App(f, a) => {
            lemma_closed_well_formed(*f, m, n);
            lemma_closed_well_formed(*a, m, n);
        },
    }
}

} // verus!
