//! Untyped lambda calculus: terms, a locally nameless encoding that avoids
//! identifier capture, pluggable beta-reduction strategies and bounded
//! reduction drivers.

pub mod bindings;
pub mod identifier;
pub mod laws;
pub mod local_nameless;
pub mod normal;
pub mod prelude;
pub mod reduce;
pub mod repl;
pub mod term;

pub use bindings::Bindings;
pub use identifier::Identifier;
pub use identifier::Label;
pub use local_nameless::LocalNamelessError;
pub use local_nameless::LocalNamelessTerm;
pub use local_nameless::Var;
pub use normal::Normal;
pub use reduce::BetaReduce;
pub use reduce::ReducedTerm;
pub use term::Term;
