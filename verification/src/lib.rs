//! Discovery, inspection and resumption of Codex CLI sessions.
//!
//! The library decides and computes; reading `/proc`, the state database and the
//! rollout logs, sending signals and executing commands is left to its caller.
//!
//! - `scan` searches for the running sessions of a user, with `process` to
//!   understand `/proc`, `events` and `assess` to judge a session by its rollout
//!   log.
//! - `resolve` finds the session that a target means, among the threads and
//!   sessions of `session`.
//! - `resume`, `shell`, `paths` and `terminate` lead to a resumed thread.
//! - `table` shows sessions, `daemon` answers requests about them.
//! - `text` and `clock` serve the rest.

pub mod assess;
pub mod clock;
pub mod daemon;
pub mod events;
pub mod paths;
pub mod process;
pub mod resolve;
pub mod resume;
pub mod scan;
pub mod session;
pub mod shell;
pub mod table;
pub mod terminate;
pub mod text;
