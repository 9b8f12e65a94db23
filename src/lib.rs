//! Campus governance and reward-wallet record stores.
//!
//! `dao` holds the club-governance engine: clubs, membership, proposals and
//! threshold voting, with `dao_lemmas` proving its laws over sequences of
//! calls. `wallet` holds the independent reward-point ledger.
//! Both are state machines over an in-memory keyed store; the host that runs
//! them supplies the clock and the set of identities that authorised the
//! current invocation through an [`invocation::Invocation`].

pub mod invocation;
pub mod dao;
pub mod dao_lemmas;
pub mod wallet;
