//! League standing ledger: an append-only log of league events, each of which
//! takes effect only once a moderator has decided it, and the approval pointer
//! that replays decided events in order.
//!
//! Rating quantities are kept abstract (the type parameter `Q`): the library
//! decides which events take effect, in which order, and with which effect;
//! the arithmetic on ratings is done by the caller.

pub mod model;
pub mod ledger;
pub mod projector;
pub mod integrity;
pub mod submission;
pub mod league;
pub mod paginate;
pub mod history;
pub mod blacklist;
pub mod handle;
