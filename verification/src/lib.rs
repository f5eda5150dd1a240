//! Git worktrees made cheap by filesystem copy-on-write, and the self-update
//! of the two executables that make them.
//!
//! The library decides; it does not act. What it needs of the outside world it
//! asks for through traits: [`host`] for worktrees, [`update::io`] for updates.
pub mod add;
pub mod cancellation;
pub mod cli;
pub mod doctor;
pub mod error;
pub mod fsclone;
pub mod git;
pub mod host;
pub mod inherit;
pub mod json;
pub mod linked;
pub mod meanings;
pub mod order;
pub mod outside;
pub mod output;
pub mod path;
pub mod text;
pub mod update;
