//! Decision logic of an `!archive` chat command: which archive category a
//! channel moves into, whether an overflow category has to be created first,
//! where the channel lands inside it, and who may ask for it.

pub mod authorization;
pub mod channel;
pub mod names;
pub mod resolver;

pub use authorization::{authorize, AuthStep};
pub use channel::{Channel, ChannelKind, CATEGORY_CAPACITY};
pub use names::compare_names;
pub use resolver::{resolve, ArchiveError, ArchivePlan, Destination};
