pub mod command;
pub mod emoji;
pub mod mention;
pub mod persistent;
pub mod persistent_roles;
pub mod reaction_roles;
pub mod reconcile;
pub mod scan;
pub mod selector;

pub use command::{Command, CommandError};
pub use emoji::{Emoji, ReactionKind};
pub use persistent::{Persistable, Persistent};
pub use reconcile::{reconcile, LiveReaction, ReconcilePlan};
pub use selector::Selector;
