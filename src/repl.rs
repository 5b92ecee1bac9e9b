//! Commands of an interactive session and their execution against a table
//! of definitions and a step limit.

use vstd::prelude::*;

use crate::bindings::all_closed;
use crate::bindings::lemma_rebound_well_formed;
use crate::bindings::rebound;
use crate::bindings::Bindings;
use crate::identifier::Identifier;
use crate::identifier::Label;
use crate::local_nameless::classic_of;
use crate::local_nameless::lemma_ln_of_well_formed;
use crate::local_nameless::lemma_well_formed_classic;
use crate::local_nameless::LocalNamelessError;
use crate::local_nameless::LocalNamelessTerm;
use crate::normal::lemma_normal_keeps_well_formed;
use crate::normal::Normal;
use crate::reduce::lemma_reduct_well_formed;
use crate::reduce::ln;
use crate::reduce::reduct;
use crate::reduce::stops_within;
use crate::reduce::BetaReduce;
use crate::reduce::ReducedTerm;
use crate::term::render;
use crate::term::Term;

verus! {

/// A statement of a session.
#[derive(Debug, Eq, PartialEq)]
pub enum Statement<T> {
    /// Binds a name to a term.
    Bind(T, Term<T>),
}

impl<T> Statement<T> {
    /// The statement that binds `name` to `term`.
    pub fn bind(name: T, term: Term<T>) -> (r: Self)
        ensures
            r == Statement::Bind(name, term),
    {
        Statement::Bind(name, term)
    }
}

impl<T: Label> Statement<T> {
    /// The text of the statement, `name = term;`.
    pub fn display(&self) -> (r: String)
        ensures
            match *self {
                Statement::Bind(name, t) => r@ == name@ + seq![' ', '=', ' '] + render(t@) + seq![';'],
            },
    {
        proof {
            reveal_strlit(" = ");
            reveal_strlit(";");
        }
        match self {
            Statement::Bind(name, term) => {
                let mut out = String::new();
                out.append(name.label());
                out.append(" = ");
                let text = term.display();
                out.append(text.as_str());
                out.append(";");
                proof {
                    assert(out@ =~= name@ + seq![' ', '=', ' '] + render(term@) + seq![';']);
                }
                out
            },
        }
    }
}

/// A command of a session.
#[derive(Debug)]
pub enum Command<T> {
    /// Reduce a term, at most the session's step limit of steps.
    Reduce(Term<T>),
    /// Execute statements in order.
    Exec(Vec<Statement<T>>),
    /// Report the step limit.
    GetReduceLimit,
    /// Set the step limit.
    SetReduceLimit(usize),
    /// End the session.
    Exit,
}

/// What executing a command produced.
#[derive(Debug)]
pub enum CommandOutcome<T> {
    /// A term was reduced.
    TermReduced(ReducedTerm<T>),
    /// The reduction stopped at the step limit, after this many steps; the
    /// term may have no normal form.
    ReduceLimitReached(usize),
    /// A name was bound for the first time.
    BindAdded(T),
    /// A name was bound again, replacing its earlier definition.
    BindOverwritten(T),
    /// The step limit.
    ReduceLimitGot(usize),
    /// The step limit was set.
    ReduceLimitSet(usize),
    /// The session ends.
    Exit,
}

/// A session: a table of definitions and a step limit.
pub struct Repl<T> {
    binds: Bindings<T>,
    reduce_limit: usize,
}

/// The step limit of a new session.
pub const DEFAULT_REDUCE_LIMIT: usize = 1000;

/// The definitions after the statements `stmts`, each term taken with the
/// definitions before it spliced in.
#[verifier::opaque]
pub open spec fn bound_after<T: View>(
    binds: Map<T::V, LocalNamelessTerm<T>>,
    stmts: Seq<Statement<T>>,
) -> Map<T::V, LocalNamelessTerm<T>>
    decreases stmts.len(),
{
    if stmts.len() == 0 {
        binds
    } else {
        bound_by(bound_after(binds, stmts.drop_last()), stmts.last())
    }
}

/// The definitions after `stmt`: its term, with `binds` spliced in, bound
/// to its name.
pub open spec fn bound_by<T: View>(
    binds: Map<T::V, LocalNamelessTerm<T>>,
    stmt: Statement<T>,
) -> Map<T::V, LocalNamelessTerm<T>> {
    match stmt {
        Statement::Bind(name, t) => binds.insert(name@, rebound(ln(t), binds)),
    }
}

/// What binding by `stmt` reports, given the definitions before it.
pub open spec fn bind_outcome<T: View>(
    binds: Map<T::V, LocalNamelessTerm<T>>,
    stmt: Statement<T>,
) -> CommandOutcome<T> {
    match stmt {
        Statement::Bind(name, _) => if binds.contains_key(name@) {
            CommandOutcome::BindOverwritten(name)
        } else {
            CommandOutcome::BindAdded(name)
        },
    }
}

/// What the statements `stmts` report, one outcome each, in order.
#[verifier::opaque]
pub open spec fn bind_outcomes<T: View>(
    binds: Map<T::V, LocalNamelessTerm<T>>,
    stmts: Seq<Statement<T>>,
) -> Seq<CommandOutcome<T>>
    decreases stmts.len(),
{
    if stmts.len() == 0 {
        Seq::empty()
    } else {
        bind_outcomes(binds, stmts.drop_last()).push(
            bind_outcome(bound_after(binds, stmts.drop_last()), stmts.last()),
        )
    }
}

/// Whether `out` is what reducing `t` under the definitions `binds` with the
/// step limit `limit` reports: the normal-order reduct after as many steps
/// as rewrite something, up to the limit, and a notice where the limit was
/// reached.
pub open spec fn reduce_outcome<T: Identifier>(
    binds: Map<T::V, LocalNamelessTerm<T>>,
    limit: usize,
    t: Term<T>,
    out: Seq<CommandOutcome<T>>,
) -> bool {
    let start = rebound(ln(t), binds);
    &&& out.len() >= 1
    &&& out[0] is TermReduced
    &&& {
        let reduced = out[0]->TermReduced_0;
        &&& stops_within(Normal, start, limit as nat, reduced.count as nat)
        &&& classic_of(reduct(Normal, start, reduced.count as nat), Seq::empty()) == Ok::<
            Term<T>,
            LocalNamelessError,
        >(reduced.term)
        &&& out.len() == if reduced.count >= limit { 2nat } else { 1nat }
        &&& reduced.count >= limit ==> out[1] == CommandOutcome::<T>::ReduceLimitReached(reduced.count)
    }
}

impl<T: Identifier> Repl<T> {
    /// The definitions of the session.
    pub closed spec fn bindings(&self) -> Map<T::V, LocalNamelessTerm<T>> {
        self.binds@
    }

    /// The step limit of the session.
    pub closed spec fn limit(&self) -> usize {
        self.reduce_limit
    }

    /// Every definition of the session is a closed, well-formed term.
    pub open spec fn wf(&self) -> bool {
        all_closed(self.bindings())
    }

    /// A session with no definitions and the default step limit.
    pub fn new() -> (r: Self)
        ensures
            r.wf(),
            r.bindings() == Map::<T::V, LocalNamelessTerm<T>>::empty(),
            r.limit() == DEFAULT_REDUCE_LIMIT,
    {
        Repl { binds: Bindings::new(), reduce_limit: DEFAULT_REDUCE_LIMIT }
    }

    /// Executes `command` and reports what it produced, in order.
    pub fn exec(&mut self, command: Command<T>) -> (r: Vec<CommandOutcome<T>>)
        requires
            old(self).wf(),
        ensures
            final(self).wf(),
            match command {
                Command::Reduce(t) => {
                    &&& reduce_outcome(old(self).bindings(), old(self).limit(), t, r@)
                    &&& final(self).bindings() == old(self).bindings()
                    &&& final(self).limit() == old(self).limit()
                },
                Command::Exec(stmts) => {
                    &&& final(self).bindings() == bound_after(old(self).bindings(), stmts@)
                    &&& final(self).limit() == old(self).limit()
                    &&& r@ == bind_outcomes(old(self).bindings(), stmts@)
                },
                Command::GetReduceLimit => {
                    &&& r@ == seq![CommandOutcome::<T>::ReduceLimitGot(old(self).limit())]
                    &&& final(self).bindings() == old(self).bindings()
                    &&& final(self).limit() == old(self).limit()
                },
                Command::SetReduceLimit(limit) => {
                    &&& r@ == seq![CommandOutcome::<T>::ReduceLimitSet(limit)]
                    &&& final(self).bindings() == old(self).bindings()
                    &&& final(self).limit() == limit
                },
                Command::Exit => {
                    &&& r@ == seq![CommandOutcome::<T>::Exit]
                    &&& final(self).bindings() == old(self).bindings()
                    &&& final(self).limit() == old(self).limit()
                },
            },
    {
        match command {
            Command::Reduce(term) => self.reduce(&term),
            Command::Exec(statements) => self.exec_statements(&statements),
            Command::GetReduceLimit => vec![CommandOutcome::ReduceLimitGot(self.reduce_limit)],
            Command::SetReduceLimit(limit) => {
                self.reduce_limit = limit;
                vec![CommandOutcome::ReduceLimitSet(limit)]
            },
            Command::Exit => vec![CommandOutcome::Exit],
        }
    }

    /// Reduces `term` with the session's definitions spliced in, up to the
    /// step limit.
    fn reduce(&self, term: &Term<T>) -> (r: Vec<CommandOutcome<T>>)
        requires
            self.wf(),
        ensures
            reduce_outcome(self.bindings(), self.limit(), *term, r@),
    {
        let mut outcomes: Vec<CommandOutcome<T>> = Vec::new();
        let mut local_nameless = term.to_local_nameless();
        local_nameless.rebind(&self.binds);
        let ghost start = local_nameless;
        let count = local_nameless.beta_reduce_limit(self.reduce_limit, &Normal);
        proof {
            lemma_ln_of_well_formed(*term, Seq::empty());
            lemma_rebound_well_formed(ln(*term), self.binds@, 0);
            lemma_normal_keeps_well_formed::<T>();
            lemma_reduct_well_formed(Normal, start, count as nat);
            lemma_well_formed_classic(local_nameless, Seq::<T>::empty());
        }
        let reduced = local_nameless.to_classic().unwrap();
        outcomes.push(CommandOutcome::TermReduced(ReducedTerm { count, term: reduced }));
        if count >= self.reduce_limit {
            outcomes.push(CommandOutcome::ReduceLimitReached(count));
        }
        outcomes
    }

    /// Executes one statement.
    fn exec_statement(&mut self, statement: &Statement<T>) -> (r: CommandOutcome<T>)
        requires
            old(self).wf(),
        ensures
            final(self).wf(),
            final(self).bindings() == bound_by(old(self).bindings(), *statement),
            final(self).limit() == old(self).limit(),
            r == bind_outcome(old(self).bindings(), *statement),
    {
        match statement {
            Statement::Bind(name, term) => {
                let mut local_nameless = term.to_local_nameless();
                local_nameless.rebind(&self.binds);
                proof {
                    lemma_ln_of_well_formed(*term, Seq::empty());
                    lemma_rebound_well_formed(ln(*term), self.binds@, 0);
                }
                let replaced = self.binds.insert(name.duplicate(), local_nameless);
                if replaced {
                    CommandOutcome::BindOverwritten(name.duplicate())
                } else {
                    CommandOutcome::BindAdded(name.duplicate())
                }
            },
        }
    }

    /// Executes `statements` in order.
    fn exec_statements(&mut self, statements: &Vec<Statement<T>>) -> (r: Vec<CommandOutcome<T>>)
        requires
            old(self).wf(),
        ensures
            final(self).wf(),
            final(self).bindings() == bound_after(old(self).bindings(), statements@),
            final(self).limit() == old(self).limit(),
            r@ == bind_outcomes(old(self).bindings(), statements@),
    {
        let mut outcomes: Vec<CommandOutcome<T>> = Vec::new();
        let ghost binds0 = self.binds@;
        let mut i: usize = 0;
        proof {
            assert(statements@.take(0) =~= Seq::<Statement<T>>::empty());
            reveal(bound_after);
            reveal(bind_outcomes);
        }
        while i < statements.len()
            invariant
                i <= statements@.len(),
                all_closed(self.binds@),
                self.binds@ == bound_after(binds0, statements@.take(i as int)),
                self.reduce_limit == old(self).reduce_limit,
                binds0 == old(self).binds@,
                outcomes@ == bind_outcomes(binds0, statements@.take(i as int)),
            decreases statements@.len() - i,
        {
            let outcome = self.exec_statement(&statements[i]);
            outcomes.push(outcome);
            proof {
                let next = statements@.take(i + 1);
                assert(next.drop_last() =~= statements@.take(i as int));
                assert(next.last() == statements@[i as int]);
                reveal(bound_after);
                reveal(bind_outcomes);
                assert(bound_after(binds0, next) == bound_by(
                    bound_after(binds0, statements@.take(i as int)),
                    statements@[i as int],
                ));
            }
            i = i + 1;
        }
        proof {
            assert(statements@.take(statements@.len() as int) =~= statements@);
        }
        outcomes
    }
}

impl<T: Identifier> Default for Repl<T> {
    /// A session with no definitions and the default step limit.
    fn default() -> (r: Self)
        ensures
            r.wf(),
            r.bindings() == Map::<T::V, LocalNamelessTerm<T>>::empty(),
            r.limit() == DEFAULT_REDUCE_LIMIT,
    {
        Self::new()
    }
}

} // verus!
