//! Error types of std and of the pseudo-terminal crate that the library
//! carries through unchanged.
use vstd::prelude::*;

use anyhow::Error as SpawnError;
use std::io::Error as IoError;

verus! {

/// `anyhow::Error`, the error the pseudo-terminal crate reports when it
/// cannot open a terminal or spawn a process.
#[verifier::external_type_specification]
#[verifier::external_body]
pub struct ExSpawnError(SpawnError);

/// `std::io::Error`, the error of reads and writes on the pseudo-terminal.
#[verifier::external_type_specification]
#[verifier::external_body]
pub struct ExIoError(IoError);

} // verus!
