//! A small harness for coordinating concurrent units of work, stated as
//! verified state machines: shared cells with a fixed access discipline,
//! condition signals, ordered channels, joinable handles, scopes that wait for
//! every unit, and cooperative join-all / race combinators over virtual time.
pub mod cell;
pub mod counter;
pub mod signal;
pub mod channel;
pub mod task;
pub mod scope;
pub mod combinator;
pub mod lookup;
