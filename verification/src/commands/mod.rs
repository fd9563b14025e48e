//! The two commands: pull restores a snapshot, push makes a new one.

pub mod pull;
pub mod push;

pub use self::pull::Pull;
pub use self::push::Push;
