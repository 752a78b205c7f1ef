//! Batch engine for running repository actions over a tree of repositories.
//!
//! The crate models the core of a repository batch tool: a directory
//! scanner with an ignore-pattern filter, a sum type of repository
//! actions, a per-task progress reporter whose lifecycle is a small
//! state machine, and a task scheduler that owns one reporter per
//! submitted action and drives every task to exactly one terminal
//! state. The surrounding I/O (the real filesystem walk, the
//! version-control calls, the terminal rendering and the thread pool)
//! lives outside the library and feeds plain values into it.

pub mod branches;
pub mod clone;
pub mod conf;
pub mod create;
pub mod dir;
pub mod fetch;
pub mod git;
pub mod pattern;
pub mod progress;
pub mod status;
pub mod text;
