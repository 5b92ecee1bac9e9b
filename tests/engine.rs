use lambda::prelude::boolean;
use lambda::prelude::combinators;
use lambda::repl::Command;
use lambda::repl::CommandOutcome;
use lambda::repl::Repl;
use lambda::repl::Statement;
use lambda::Bindings;
use lambda::LocalNamelessError;
use lambda::LocalNamelessTerm;
use lambda::Normal;
use lambda::Term;
use lambda::Var;

fn v(x: &'static str) -> Term<&'static str> {
    Term::var(x)
}

fn free(x: &'static str) -> LocalNamelessTerm<&'static str> {
    Term::var(Var::Free(x))
}

fn bound(k: usize) -> LocalNamelessTerm<&'static str> {
    Term::var(Var::Bound(k))
}

#[test]
fn identity_applied_reduces_in_one_step() {
    let term = Term::app(Term::abs("x", v("x")), v("y"));
    let mut ln = term.to_local_nameless();
    assert!(ln.beta_reduce_step(&Normal));
    assert_eq!(ln.to_classic().unwrap(), v("y"));
    let reduced = term.beta_reduced(&Normal);
    assert_eq!(reduced.count, 1);
    assert_eq!(reduced.term, v("y"));
}

#[test]
fn omega_stops_at_the_limit() {
    let reduced = combinators::omega().beta_reduced_limit(5, &Normal);
    assert_eq!(reduced.count, 5);
    assert_eq!(reduced.term, combinators::omega());
    let mut ln = reduced.term.to_local_nameless();
    assert!(ln.beta_reduce_step(&Normal));
}

#[test]
fn compose_displays_and_is_normal() {
    let term = combinators::compose();
    assert_eq!(term.display(), "λf. λg. λx. f (g x)");
    let reduced = term.beta_reduced(&Normal);
    assert_eq!(reduced.count, 0);
    assert_eq!(reduced.term, term);
}

#[test]
fn bindings_resolve_before_reduction() {
    let mut binds = Bindings::new();
    assert!(!binds.insert("identity", Term::abs("x", v("x")).to_local_nameless()));
    assert!(!binds.insert("double", Term::abs("n", Term::app(v("n"), v("n"))).to_local_nameless()));
    let mut ln = Term::app(v("double"), v("identity")).to_local_nameless();
    assert_eq!(ln, Term::app(free("double"), free("identity")));
    ln.rebind(&binds);
    assert_eq!(
        ln,
        Term::app(
            Term::abs(Var::Free("n"), Term::app(bound(0), bound(0))),
            Term::abs(Var::Free("x"), bound(0)),
        )
    );
    let count = ln.beta_reduce(&Normal);
    assert_eq!(count, 2);
    assert_eq!(ln.to_classic().unwrap(), Term::abs("x", v("x")));
}

#[test]
fn session_binds_then_reduces() {
    let mut repl: Repl<&'static str> = Repl::new();
    let out = repl.exec(Command::Exec(vec![
        Statement::bind("identity", Term::abs("x", v("x"))),
        Statement::bind("double", Term::abs("n", Term::app(v("n"), v("n")))),
    ]));
    assert_eq!(out.len(), 2);
    assert!(matches!(out[0], CommandOutcome::BindAdded("identity")));
    assert!(matches!(out[1], CommandOutcome::BindAdded("double")));
    let out = repl.exec(Command::Reduce(Term::app(v("double"), v("identity"))));
    assert_eq!(out.len(), 1);
    match &out[0] {
        CommandOutcome::TermReduced(reduced) => {
            assert_eq!(reduced.count, 2);
            assert_eq!(reduced.term, Term::abs("x", v("x")));
        },
        _ => panic!("expected a reduced term"),
    }
}

#[test]
fn shadowed_binder_resolves_to_nearest() {
    let term = Term::abs("x", Term::abs("x", v("x")));
    let ln = term.to_local_nameless();
    assert_eq!(ln, Term::abs(Var::Free("x"), Term::abs(Var::Free("x"), bound(0))));
    assert_eq!(ln.to_classic().unwrap(), term);
}

#[test]
fn outer_binder_gets_index_one() {
    let ln = combinators::constant().to_local_nameless();
    assert_eq!(ln, Term::abs(Var::Free("x"), Term::abs(Var::Free("y"), bound(1))));
}

#[test]
fn round_trip_keeps_every_prelude_term() {
    let terms = vec![
        combinators::compose(),
        combinators::fix_strict(),
        combinators::fix_turing(),
        combinators::universal(),
        boolean::not(),
        Term::app(v("free"), Term::abs("x", v("other"))),
    ];
    for term in terms {
        assert_eq!(term.to_local_nameless().to_classic().unwrap(), term);
    }
}

#[test]
fn normal_form_takes_no_step() {
    let term = combinators::sub();
    let mut ln = term.to_local_nameless();
    let before = ln.clone();
    assert!(!ln.beta_reduce_step(&Normal));
    assert_eq!(ln, before);
    let reduced = term.beta_reduced_limit(10, &Normal);
    assert_eq!(reduced.count, 0);
    assert_eq!(reduced.term, term);
}

#[test]
fn larger_limits_agree_past_normal_form() {
    let term = Term::app(Term::abs("x", v("x")), Term::app(Term::abs("y", v("y")), v("z")));
    let two = term.beta_reduced_limit(2, &Normal);
    let ten = term.beta_reduced_limit(10, &Normal);
    assert_eq!(two.count, 2);
    assert_eq!(ten.count, 2);
    assert_eq!(two.term, v("z"));
    assert_eq!(ten.term, v("z"));
    let one = term.beta_reduced_limit(1, &Normal);
    assert_eq!(one.count, 1);
    assert_eq!(one.term, Term::app(Term::abs("y", v("y")), v("z")));
    let none = term.beta_reduced_limit(0, &Normal);
    assert_eq!(none.count, 0);
    assert_eq!(none.term, term);
}

#[test]
fn step_on_omega_reports_change_yet_reproduces_it() {
    let mut ln = combinators::omega().to_local_nameless();
    let before = ln.clone();
    assert!(ln.beta_reduce_step(&Normal));
    assert_eq!(ln, before);
}

#[test]
fn substitution_under_a_binder_shifts_the_argument() {
    let term = Term::abs("z", Term::app(combinators::constant(), v("z")));
    let reduced = term.beta_reduced(&Normal);
    assert_eq!(reduced.count, 1);
    assert_eq!(reduced.term, Term::abs("z", Term::abs("y", v("z"))));
}

#[test]
fn free_variables_survive_reduction() {
    let term = Term::app(Term::app(combinators::flip(), v("f")), v("a"));
    let reduced = term.beta_reduced(&Normal);
    assert_eq!(reduced.count, 2);
    assert_eq!(reduced.term, Term::abs("y", Term::app(Term::app(v("f"), v("y")), v("a"))));
}

#[test]
fn booleans_reduce_to_church_values() {
    let term = Term::app(Term::app(boolean::and(), boolean::tru()), boolean::fls());
    let reduced = term.beta_reduced(&Normal);
    assert_eq!(reduced.term, boolean::fls());
    let term = Term::app(boolean::not(), boolean::tru());
    assert_eq!(term.beta_reduced(&Normal).term, boolean::fls());
}

#[test]
fn reduce_while_stops_when_the_predicate_fails() {
    let mut ln = combinators::omega().to_local_nameless();
    let count = ln.beta_reduce_while(|_t: &LocalNamelessTerm<&'static str>, n: usize| n < 3, &Normal);
    assert_eq!(count, 3);
    let reduced = combinators::omega().beta_reduced_while(|_t: &LocalNamelessTerm<&'static str>, n: usize| n < 7, &Normal);
    assert_eq!(reduced.count, 7);
}

#[test]
fn reduce_with_limit_on_local_nameless_term() {
    let mut ln = combinators::omega().to_local_nameless();
    assert_eq!(ln.beta_reduce_limit(4, &Normal), 4);
    assert_eq!(ln, combinators::omega().to_local_nameless());
}

#[test]
fn out_of_range_index_is_an_error() {
    let ln: LocalNamelessTerm<&'static str> = Term::abs(Var::Free("x"), bound(1));
    assert_eq!(ln.to_classic(), Err(LocalNamelessError::InvalidVarIndex(1)));
}

#[test]
fn bound_parameter_is_an_error() {
    let ln: LocalNamelessTerm<&'static str> = Term::abs(Var::Bound(3), free("x"));
    assert_eq!(ln.to_classic(), Err(LocalNamelessError::InvalidAbsParam(3)));
}

#[test]
fn first_error_in_walk_order_is_reported() {
    let ln: LocalNamelessTerm<&'static str> = Term::app(bound(4), Term::abs(Var::Bound(2), free("x")));
    assert_eq!(ln.to_classic(), Err(LocalNamelessError::InvalidVarIndex(4)));
}

#[test]
fn display_parenthesises_only_where_needed() {
    assert_eq!(Term::app(Term::abs("x", v("x")), v("y")).display(), "(λx. x) y");
    assert_eq!(Term::app(Term::app(v("a"), v("b")), v("c")).display(), "a b c");
    assert_eq!(Term::app(v("a"), Term::app(v("b"), v("c"))).display(), "a (b c)");
    assert_eq!(Term::app(v("a"), Term::abs("x", v("x"))).display(), "a (λx. x)");
    assert_eq!(v("x").display(), "x");
    let owned: Term<String> = Term::abs("p".to_string(), Term::var("q".to_string()));
    assert_eq!(owned.display(), "λp. q");
}

#[test]
fn session_limit_commands() {
    let mut repl: Repl<String> = Repl::new();
    let out = repl.exec(Command::GetReduceLimit);
    assert!(matches!(out[..], [CommandOutcome::ReduceLimitGot(1000)]));
    let out = repl.exec(Command::SetReduceLimit(3));
    assert!(matches!(out[..], [CommandOutcome::ReduceLimitSet(3)]));
    let omega = Term::app(
        Term::abs("x".to_string(), Term::app(Term::var("x".to_string()), Term::var("x".to_string()))),
        Term::abs("x".to_string(), Term::app(Term::var("x".to_string()), Term::var("x".to_string()))),
    );
    let out = repl.exec(Command::Reduce(omega.clone()));
    assert_eq!(out.len(), 2);
    match &out[0] {
        CommandOutcome::TermReduced(reduced) => {
            assert_eq!(reduced.count, 3);
            assert_eq!(reduced.term, omega);
        },
        _ => panic!("expected a reduced term"),
    }
    assert!(matches!(out[1], CommandOutcome::ReduceLimitReached(3)));
    let out = repl.exec(Command::Exit);
    assert!(matches!(out[..], [CommandOutcome::Exit]));
}

#[test]
fn session_reports_overwritten_binding() {
    let mut repl: Repl<String> = Repl::new();
    let out = repl.exec(Command::Exec(vec![
        Statement::bind("a".to_string(), Term::var("b".to_string())),
        Statement::bind("a".to_string(), Term::var("c".to_string())),
    ]));
    assert_eq!(out.len(), 2);
    assert!(matches!(&out[0], CommandOutcome::BindAdded(n) if n == "a"));
    assert!(matches!(&out[1], CommandOutcome::BindOverwritten(n) if n == "a"));
    let out = repl.exec(Command::Reduce(Term::var("a".to_string())));
    match &out[0] {
        CommandOutcome::TermReduced(reduced) => {
            assert_eq!(reduced.count, 0);
            assert_eq!(reduced.term, Term::var("c".to_string()));
        },
        _ => panic!("expected a reduced term"),
    }
}

#[test]
fn later_binding_sees_earlier_one() {
    let mut repl: Repl<String> = Repl::new();
    repl.exec(Command::Exec(vec![
        Statement::bind("i".to_string(), Term::abs("x".to_string(), Term::var("x".to_string()))),
        Statement::bind("j".to_string(), Term::app(Term::var("i".to_string()), Term::var("i".to_string()))),
    ]));
    let out = repl.exec(Command::Reduce(Term::var("j".to_string())));
    match &out[0] {
        CommandOutcome::TermReduced(reduced) => {
            assert_eq!(reduced.count, 1);
            assert_eq!(reduced.term, Term::abs("x".to_string(), Term::var("x".to_string())));
        },
        _ => panic!("expected a reduced term"),
    }
}

#[test]
fn bindings_get_and_replace() {
    let mut binds: Bindings<String> = Bindings::new();
    assert!(binds.get(&"k".to_string()).is_none());
    assert!(!binds.insert("k".to_string(), Term::var(Var::Bound(0))));
    assert!(binds.insert("k".to_string(), Term::var(Var::Bound(1))));
    assert_eq!(binds.get(&"k".to_string()), Some(&Term::var(Var::Bound(1))));
}

#[test]
fn integer_identifiers_reduce_too() {
    let term: Term<u64> = Term::app(Term::abs(1, Term::app(Term::var(1), Term::var(2))), Term::abs(3, Term::var(3)));
    let reduced = term.beta_reduced(&Normal);
    assert_eq!(reduced.count, 2);
    assert_eq!(reduced.term, Term::var(2));
    let once = term.beta_reduced_limit(1, &Normal);
    assert_eq!(once.term, Term::app(Term::abs(3, Term::var(3)), Term::var(2)));
}

#[test]
fn default_session_matches_new() {
    let mut repl: Repl<String> = Repl::default();
    let out = repl.exec(Command::GetReduceLimit);
    assert!(matches!(out[..], [CommandOutcome::ReduceLimitGot(1000)]));
}

#[test]
fn statement_displays_as_binding() {
    let statement = Statement::bind("double", Term::abs("n", Term::app(v("n"), v("n"))));
    assert_eq!(statement.display(), "double = λn. n n;");
}

#[test]
fn redex_body_is_normalised_before_substitution() {
    let body = Term::app(Term::abs("y", v("y")), Term::app(Term::abs("w", v("w")), v("x")));
    let term = Term::app(Term::abs("x", body), v("a"));
    let mut ln = term.to_local_nameless();
    assert!(ln.beta_reduce_step(&Normal));
    assert_eq!(ln.to_classic().unwrap(), v("a"));
    let reduced = term.beta_reduced(&Normal);
    assert_eq!(reduced.count, 1);
    assert_eq!(reduced.term, v("a"));
}

#[test]
fn from_gives_the_locally_nameless_form() {
    let term = combinators::fix_lazy();
    let ln = LocalNamelessTerm::from(&term);
    assert_eq!(ln, term.to_local_nameless());
    assert_eq!(ln.to_classic().unwrap(), term);
}

#[test]
fn reducing_a_reduced_term_takes_no_step() {
    let term = Term::app(Term::app(boolean::and(), boolean::tru()), boolean::tru());
    let first = term.beta_reduced(&Normal);
    assert!(first.count > 0);
    let again = first.term.beta_reduced(&Normal);
    assert_eq!(again.count, 0);
    assert_eq!(again.term, first.term);
}
