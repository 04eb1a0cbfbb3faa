//! The state of an assistant's git worktrees: which session produced each
//! worktree, its issue number, and the tasks that session worked on, live or
//! rebuilt from its transcript.

pub mod text;
pub mod branch;
pub mod path;
pub mod tasks;
pub mod matcher;
pub mod transcript;
pub mod worktree;
pub mod tray;
