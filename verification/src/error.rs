//! Errors of the SSH password helper.
use vstd::prelude::*;

verus! {

/// Everything that can go wrong while running `ssh` with a password.
#[derive(Debug)]
pub enum Error {
    /// The pseudo-terminal could not be opened or `ssh` could not be spawned.
    PtySpawn(anyhow::Error),
    /// Reading from or writing to the pseudo-terminal failed.
    Io(std::io::Error),
    /// The password file (named here) could not be read.
    PasswordFileNotFound(String),
    /// The environment variable (named here) is not set.
    EnvVarNotSet(String),
    /// No host was given.
    SshNotFound,
    /// `ssh` reported that the password was refused.
    AuthenticationFailed,
    /// No password prompt, or no end of output, came in time.
    Timeout,
    /// `ssh` exited with this non-zero code.
    ExitCode(i32),
}

pub type Result<T> = std::result::Result<T, Error>;

} // verus!
