//! The term model: variables, abstractions and applications.

use vstd::prelude::*;

use crate::identifier::Identifier;
use crate::identifier::Label;

verus! {

/// A lambda calculus term over identifiers of type `T`.
#[derive(Debug, Eq, PartialEq)]
pub enum Term<T> {
    /// A variable, free or bound depending on context.
    Var(T),
    /// An abstraction binding a parameter inside its body.
    Abs(T, Box<Term<T>>),
    /// An application of a function to an argument.
    App(Box<Term<T>>, Box<Term<T>>),
}

/// A term seen through its identifiers' views.
impl<T: View> View for Term<T> {
    type V = Term<T::V>;

    open spec fn view(&self) -> Term<T::V>
        decreases self,
    {
        match self {
            Term::Var(x) => Term::Var(x@),
            Term::Abs(p, b) => Term::Abs(p@, Box::new((**b).view())),
            Term::App(f, a) => Term::App(Box::new((**f).view()), Box::new((**a).view())),
        }
    }
}

impl<T> Term<T> {
    /// A variable.
    pub fn var(var: T) -> (r: Self)
        ensures
            r == Term::Var(var),
    {
        Term::Var(var)
    }

    /// An abstraction binding `param` inside `body`.
    pub fn abs(param: T, body: Self) -> (r: Self)
        ensures
            r == Term::Abs(param, Box::new(body)),
    {
        Term::Abs(param, Box::new(body))
    }

    /// The application of `func` to `arg`.
    pub fn app(func: Self, arg: Self) -> (r: Self)
        ensures
            r == Term::App(Box::new(func), Box::new(arg)),
    {
        Term::App(Box::new(func), Box::new(arg))
    }
}

/// An exact copy of a term.
impl<T: Identifier> Clone for Term<T> {
    fn clone(&self) -> (r: Self)
        ensures
            r == *self,
        decreases self,
    {
        match self {
            Term::Var(x) => Term::Var(x.duplicate()),
            Term::Abs(p, b) => Term::Abs(p.duplicate(), Box::new((**b).clone())),
            Term::App(f, a) => Term::App(Box::new((**f).clone()), Box::new((**a).clone())),
        }
    }
}

/// The text of a term whose identifiers are text: an abstraction is
/// `λp. body`, an application is its two sides split by a space, and a side is
/// put in parentheses only where it would otherwise read differently: a
/// function that is an abstraction, an argument that is an abstraction or an
/// application.
pub open spec fn render(t: Term<Seq<char>>) -> Seq<char>
    decreases t,
{
    match t {
        Term::Var(x) => x,
        Term::Abs(p, b) => seq!['λ'] + p + seq!['.', ' '] + render(*b),
        Term::App(f, a) => {
            let func = if *f is Abs {
                seq!['('] + render(*f) + seq![')']
            } else {
                render(*f)
            };
            let arg = if *a is Var {
                render(*a)
            } else {
                seq!['('] + render(*a) + seq![')']
            };
            func + seq![' '] + arg
        },
    }
}

impl<T: Label> Term<T> {
    /// The text of the term.
    pub fn display(&self) -> (r: String)
        ensures
            r@ == render(self@),
    {
        let mut out = String::new();
        self.write_into(&mut out);
        proof {
            assert(out@ =~= render(self@));
        }
        out
    }

    /// Appends the text of the term to `out`.
    fn write_into(&self, out: &mut String)
        ensures
            final(out)@ == old(out)@ + render(self@),
        decreases self,
    {
        proof {
            reveal_strlit("λ");
            reveal_strlit(". ");
            reveal_strlit("(");
            reveal_strlit(")");
            reveal_strlit(" ");
        }
        match self {
            Term::Var(x) => out.append(x.label()),
            Term::Abs(p, b) => {
                out.append("λ");
                out.append(p.label());
                out.append(". ");
                (**b).write_into(out);
            },
            Term::App(f, a) => {
                if let Term::Abs(_, _) = **f {
                    out.append("(");
                    (**f).write_into(out);
                    out.append(")");
                } else {
                    (**f).write_into(out);
                }
                out.append(" ");
                if let Term::Var(_) = **a {
                    (**a).write_into(out);
                } else {
                    out.append("(");
                    (**a).write_into(out);
                    out.append(")");
                }
            },
        }
        proof {
            assert(out@ =~= old(out)@ + render(self@));
        }
    }
}

} // verus!
