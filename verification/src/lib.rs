//! A terminal rendering core and a non-interactive SSH password helper.
//!
//! The terminal half turns a grid of cells into batched text runs and merged
//! background rectangles; the SSH half builds the `ssh` command line, watches
//! the pseudo-terminal output for a password prompt and classifies the result.

pub mod background;
pub mod cell;
pub mod color;
pub mod cursor;
pub mod error;
pub mod layout;
pub mod middleware;
pub mod outside;
pub mod pty;
pub mod sshpass;
pub mod text;
pub mod text_run;
pub mod view;

pub use error::{Error, Result};
pub use middleware::{InputOrigin, TerminalMiddleware};
pub use sshpass::{PasswordSource, PromptWatcher, SshPass, SshPassBuilder, SshPassOutput};
