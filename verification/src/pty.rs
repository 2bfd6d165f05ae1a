//! The command line handed to the pseudo-terminal.
use vstd::prelude::*;

use portable_pty::CommandBuilder;

verus! {

/// `portable_pty::CommandBuilder`, the program and arguments (and
/// environment) of a process to spawn in a pseudo-terminal.
#[verifier::external_type_specification]
#[verifier::external_body]
pub struct ExCommandBuilder(CommandBuilder);

/// The argument vector of a command (`get_argv`), program first, each
/// argument as the characters it was given as.
pub uninterp spec fn command_argv(cmd: CommandBuilder) -> Seq<Seq<char>>;

/// Calls `CommandBuilder::new`, which starts the argument vector with the
/// program name alone.
#[verifier::external_body]
pub(crate) fn new_command(program: &str) -> (cmd: CommandBuilder)
    ensures
        command_argv(cmd) == seq![program@],
{
    CommandBuilder::new(program)
}

/// Calls `CommandBuilder::arg`, which appends one argument to the argument
/// vector (it panics on a builder without a program, which `requires`
/// leaves out).
#[verifier::external_body]
pub(crate) fn push_arg(cmd: &mut CommandBuilder, arg: &str)
    requires
        command_argv(*old(cmd)).len() > 0,
    ensures
        command_argv(*final(cmd)) == command_argv(*old(cmd)).push(arg@),
{
    cmd.arg(arg)
}

} // verus!
