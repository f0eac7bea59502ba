//! Mesh security: stake on a provider chain secures consumer chains.
//!
//! This library holds the protocol between a provider and a consumer and the
//! ledger behind it, each function with a contract that is proved of it:
//!
//! - [`channel`]: the one channel that binds a contract to its counterparty,
//!   and the handshake that opens it;
//! - [`packet`]: the messages that cross the channel and their
//!   acknowledgements;
//! - [`provider`]: the provider, which sends each request, applies it at
//!   once and takes it back where the answer is an error or none;
//! - [`consumer`]: the consumer, which answers the requests and keeps the
//!   delegations and the validators;
//! - [`ledger`] and [`staking`]: the pool of stake, the funds earmarked for
//!   each consumer, and the calls that reach them;
//! - [`driver`]: the transport's side: the handshake in one call, and the
//!   consumer's answer to a request that waits;
//! - [`decimal`], [`error`], [`outbox`], [`registry`], [`sums`], [`table`]
//!   and [`validators`]: what the others are built from.
//!
//! Every state has a view, a plain mathematical value, and every operation is
//! stated as a function from view to view. What holds of all states and all
//! sequences of operations is proved over these functions.
pub mod channel;
pub mod consumer;
pub mod decimal;
pub mod driver;
pub mod error;
pub mod ledger;
pub mod outbox;
pub mod packet;
pub mod provider;
pub mod registry;
pub mod staking;
pub mod sums;
pub mod table;
pub mod validators;
