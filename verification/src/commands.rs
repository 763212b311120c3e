//! The replies to the commands that clients send.
pub mod echo;
pub mod get;
pub mod info;
pub mod ping;
pub mod psync;
pub mod replonf;
pub mod set;
