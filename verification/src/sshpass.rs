//! Non-interactive SSH password authentication: the password source, the
//! connection builder, the `ssh` command line, password-prompt detection
//! while the session runs, and the classification of its outcome.
use vstd::prelude::*;

use portable_pty::CommandBuilder;
use std::time::Duration;

use crate::error::Error;
use crate::pty::{command_argv, new_command, push_arg};
use crate::text::{
    ascii_lowercase, ascii_text, chars_of, contains_chars, decimal, decimal_string,
    ends_with_chars, first_line, first_line_of, lowercase_chars, occurs_at, seq_contains,
    seq_ends_with, to_lowercase, utf8_lossy, utf8_lossy_chars,
};

verus! {

/// Seconds a connection may take unless the builder says otherwise.
pub const DEFAULT_TIMEOUT_SECS: u64 = 30;

/// What `Duration::from_secs` returns for a number of seconds.
pub uninterp spec fn secs_duration(secs: u64) -> Duration;

/// Calls `Duration::from_secs`; its result is named by `secs_duration`.
#[verifier::external_body]
fn duration_from_secs(secs: u64) -> (d: Duration)
    ensures
        d == secs_duration(secs),
{
    Duration::from_secs(secs)
}

/// Source of the SSH password.
#[derive(Debug)]
pub enum PasswordSource {
    /// Password provided directly as a string.
    Plain(String),
    /// Password read from a file (its first line); the file's path.
    File(String),
    /// Password read from an environment variable; the variable's name.
    Env(String),
}

impl Clone for PasswordSource {
    fn clone(&self) -> (r: PasswordSource)
        ensures
            r == *self,
    {
        match self {
            PasswordSource::Plain(p) => PasswordSource::Plain(p.clone()),
            PasswordSource::File(p) => PasswordSource::File(p.clone()),
            PasswordSource::Env(v) => PasswordSource::Env(v.clone()),
        }
    }
}

fn clone_strings(v: &Vec<String>) -> (r: Vec<String>)
    ensures
        r@ == v@,
{
    let mut r: Vec<String> = Vec::new();
    let mut i: usize = 0;
    while i < v.len()
        invariant
            i <= v.len(),
            r@ == v@.take(i as int),
        decreases v.len() - i,
    {
        r.push(v[i].clone());
        i += 1;
        proof {
            assert(r@ =~= v@.take(i as int));
        }
    }
    proof {
        assert(r@ =~= v@);
    }
    r
}

fn clone_opt_string(v: &Option<String>) -> (r: Option<String>)
    ensures
        r == *v,
{
    match v {
        Some(s) => Some(s.clone()),
        None => None,
    }
}

/// Two optional argument lists hold the same arguments.
pub open spec fn same_args(a: Option<Vec<String>>, b: Option<Vec<String>>) -> bool {
    match (a, b) {
        (Some(x), Some(y)) => x@ == y@,
        (None, None) => true,
        _ => false,
    }
}

fn clone_opt_strings(v: &Option<Vec<String>>) -> (r: Option<Vec<String>>)
    ensures
        same_args(r, *v),
{
    match v {
        Some(s) => Some(clone_strings(s)),
        None => None,
    }
}

impl PasswordSource {
    /// Resolves the password. `fetched` is what the caller read for a file
    /// source (the file's text) or an environment source (the variable's
    /// value), or `None` when it could not be read; a plain source ignores it.
    pub fn resolve(&self, fetched: Option<String>) -> (r: Result<String, Error>)
        ensures
            match self {
                PasswordSource::Plain(password) => r matches Ok(p) && p@ == password@,
                PasswordSource::File(path) => match fetched {
                    Some(text) => r matches Ok(p) && p@ == first_line(text@),
                    None => r matches Err(Error::PasswordFileNotFound(name)) && name@ == path@,
                },
                PasswordSource::Env(var) => match fetched {
                    Some(value) => r matches Ok(p) && p@ == value@,
                    None => r matches Err(Error::EnvVarNotSet(name)) && name@ == var@,
                },
            },
    {
        match self {
            PasswordSource::Plain(password) => Ok(password.clone()),
            PasswordSource::File(path) => match fetched {
                Some(text) => Ok(first_line_of(text.as_str())),
                None => Err(Error::PasswordFileNotFound(path.clone())),
            },
            PasswordSource::Env(var) => match fetched {
                Some(value) => Ok(value),
                None => Err(Error::EnvVarNotSet(var.clone())),
            },
        }
    }
}

/// Builder for SSH connections with password authentication.
#[derive(Debug)]
pub struct SshPassBuilder {
    pub password_source: PasswordSource,
    pub host: Option<String>,
    pub port: Option<u16>,
    pub user: Option<String>,
    pub command: Option<Vec<String>>,
    pub timeout: Duration,
    pub ssh_options: Vec<String>,
}

/// A builder that holds only its password source and the defaults.
pub open spec fn is_fresh_builder(b: SshPassBuilder) -> bool {
    &&& b.host is None
    &&& b.port is None
    &&& b.user is None
    &&& b.command is None
    &&& b.timeout == secs_duration(DEFAULT_TIMEOUT_SECS)
    &&& b.ssh_options@.len() == 0
}

/// `b` equals `a` in every field but the host.
pub open spec fn same_but_host(a: SshPassBuilder, b: SshPassBuilder) -> bool {
    &&& b.password_source == a.password_source
    &&& b.port == a.port
    &&& b.user == a.user
    &&& b.command == a.command
    &&& b.timeout == a.timeout
    &&& b.ssh_options == a.ssh_options
}

impl Clone for SshPassBuilder {
    fn clone(&self) -> (r: SshPassBuilder)
        ensures
            r.password_source == self.password_source,
            r.host == self.host,
            r.port == self.port,
            r.user == self.user,
            same_args(r.command, self.command),
            r.timeout == self.timeout,
            r.ssh_options@ == self.ssh_options@,
    {
        SshPassBuilder {
            password_source: self.password_source.clone(),
            host: clone_opt_string(&self.host),
            port: self.port,
            user: clone_opt_string(&self.user),
            command: clone_opt_strings(&self.command),
            timeout: self.timeout,
            ssh_options: clone_strings(&self.ssh_options),
        }
    }
}

impl SshPassBuilder {
    /// Creates a builder with the given password.
    pub fn new(password: &str) -> (b: SshPassBuilder)
        ensures
            b.password_source matches PasswordSource::Plain(p) && p@ == password@,
            is_fresh_builder(b),
    {
        SshPassBuilder::with_source(PasswordSource::Plain(String::from_str(password)))
    }

    /// Creates a builder with a password source.
    pub fn with_source(source: PasswordSource) -> (b: SshPassBuilder)
        ensures
            b.password_source == source,
            is_fresh_builder(b),
    {
        SshPassBuilder {
            password_source: source,
            host: None,
            port: None,
            user: None,
            command: None,
            timeout: duration_from_secs(DEFAULT_TIMEOUT_SECS),
            ssh_options: Vec::new(),
        }
    }

    /// Sets the target host (it may include a `user@` prefix).
    pub fn host(self, host: &str) -> (b: SshPassBuilder)
        ensures
            b.host matches Some(h) && h@ == host@,
            same_but_host(self, b),
    {
        SshPassBuilder { host: Some(String::from_str(host)), ..self }
    }

    /// Sets the SSH port.
    pub fn port(self, port: u16) -> (b: SshPassBuilder)
        ensures
            b == (SshPassBuilder { port: Some(port), ..self }),
    {
        SshPassBuilder { port: Some(port), ..self }
    }

    /// Sets the user name.
    pub fn user(self, user: &str) -> (b: SshPassBuilder)
        ensures
            b.user matches Some(u) && u@ == user@,
            b == (SshPassBuilder { user: b.user, ..self }),
    {
        SshPassBuilder { user: Some(String::from_str(user)), ..self }
    }

    /// Sets a command to execute on the remote host.
    pub fn command(self, args: Vec<String>) -> (b: SshPassBuilder)
        ensures
            b == (SshPassBuilder { command: Some(args), ..self }),
    {
        SshPassBuilder { command: Some(args), ..self }
    }

    /// Sets the timeout: it bounds the whole of a non-interactive run, and
    /// the wait for the password prompt of an interactive one.
    pub fn timeout(self, timeout: Duration) -> (b: SshPassBuilder)
        ensures
            b == (SshPassBuilder { timeout, ..self }),
    {
        SshPassBuilder { timeout, ..self }
    }

    /// Adds an SSH option (passed as `-o option`).
    pub fn ssh_option(self, option: &str) -> (b: SshPassBuilder)
        ensures
            b.ssh_options@.len() == self.ssh_options@.len() + 1,
            b.ssh_options@.take(self.ssh_options@.len() as int) == self.ssh_options@,
            b.ssh_options@.last()@ == option@,
            b == (SshPassBuilder { ssh_options: b.ssh_options, ..self }),
    {
        let mut b = self;
        b.ssh_options.push(String::from_str(option));
        proof {
            assert(b.ssh_options@.take(self.ssh_options@.len() as int) =~= self.ssh_options@);
        }
        b
    }

    /// Builds the connection; a host is required.
    pub fn build(self) -> (r: Result<SshPass, Error>)
        ensures
            match self.host {
                None => r matches Err(Error::SshNotFound),
                Some(host) => r == Ok::<SshPass, Error>(
                    SshPass {
                        password_source: self.password_source,
                        host,
                        port: self.port,
                        user: self.user,
                        command: self.command,
                        timeout: self.timeout,
                        ssh_options: self.ssh_options,
                    },
                ),
            },
    {
        match self.host {
            None => Err(Error::SshNotFound),
            Some(host) => Ok(
                SshPass {
                    password_source: self.password_source,
                    host,
                    port: self.port,
                    user: self.user,
                    command: self.command,
                    timeout: self.timeout,
                    ssh_options: self.ssh_options,
                },
            ),
        }
    }
}

/// SSH connection with password authentication.
#[derive(Debug)]
pub struct SshPass {
    pub password_source: PasswordSource,
    pub host: String,
    pub port: Option<u16>,
    pub user: Option<String>,
    pub command: Option<Vec<String>>,
    pub timeout: Duration,
    pub ssh_options: Vec<String>,
}

/// `-o option` for each SSH option, in order.
pub open spec fn option_args(options: Seq<String>) -> Seq<Seq<char>> {
    Seq::new(2 * options.len(), |i: int| if i % 2 == 0 { "-o"@ } else { options[i / 2]@ })
}

/// `-p port` when a port is set.
pub open spec fn port_args(port: Option<u16>) -> Seq<Seq<char>> {
    match port {
        Some(p) => seq!["-p"@, decimal(p as nat)],
        None => seq![],
    }
}

/// `user@host` when a user is set, else the host.
pub open spec fn destination(user: Option<String>, host: String) -> Seq<char> {
    match user {
        Some(u) => u@ + seq!['@'] + host@,
        None => host@,
    }
}

/// The remote command's arguments, when one is set.
pub open spec fn remote_args(command: Option<Vec<String>>) -> Seq<Seq<char>> {
    match command {
        Some(args) => args@.map_values(|a: String| a@),
        None => seq![],
    }
}

/// The `ssh` argument vector of a connection: host-key checking off, the
/// custom options, the port, the destination, the remote command.
pub open spec fn ssh_argv(p: SshPass) -> Seq<Seq<char>> {
    seq!["ssh"@, "-o"@, "StrictHostKeyChecking=no"@, "-o"@, "UserKnownHostsFile=/dev/null"@]
        + option_args(p.ssh_options@) + port_args(p.port) + seq![destination(p.user, p.host)]
        + remote_args(p.command)
}

/// The `ssh` command line, position by position: the program, the two
/// host-key options, `-o` before each custom option, `-p` and the port in
/// decimal when a port is set, then the destination, which is
/// `user@host` whenever a user is set (with or without a port) and the host
/// alone otherwise, then the remote command's arguments.
pub proof fn lemma_ssh_argv_layout(p: SshPass)
    ensures
        ({
            let argv = ssh_argv(p);
            let n = p.ssh_options@.len() as int;
            let pc: int = if p.port is Some { 2 } else { 0 };
            let d = 5 + 2 * n + pc;
            let rc: int = match p.command {
                Some(c) => c@.len() as int,
                None => 0,
            };
            &&& argv.len() == d + 1 + rc
            &&& argv[0] == "ssh"@
            &&& argv[1] == "-o"@
            &&& argv[2] == "StrictHostKeyChecking=no"@
            &&& argv[3] == "-o"@
            &&& argv[4] == "UserKnownHostsFile=/dev/null"@
            &&& forall|i: int| 0 <= i < n ==> argv[5 + 2 * i] == "-o"@ && argv[6 + 2 * i] == (
            #[trigger] p.ssh_options@[i])@
            &&& (p.port matches Some(q) ==> argv[5 + 2 * n] == "-p"@ && argv[6 + 2 * n] == decimal(
                q as nat,
            ))
            &&& (p.user matches Some(u) ==> argv[d] == u@ + seq!['@'] + p.host@)
            &&& (p.user is None ==> argv[d] == p.host@)
            &&& (p.command matches Some(c) ==> forall|k: int|
                0 <= k < rc ==> argv[d + 1 + k] == (#[trigger] c@[k])@)
        }),
{
    let argv = ssh_argv(p);
    let n = p.ssh_options@.len() as int;
    let head = seq!["ssh"@, "-o"@, "StrictHostKeyChecking=no"@, "-o"@, "UserKnownHostsFile=/dev/null"@];
    let opts = option_args(p.ssh_options@);
    assert forall|i: int| 0 <= i < n implies argv[5 + 2 * i] == "-o"@ && argv[6 + 2 * i] == (
    #[trigger] p.ssh_options@[i])@ by {
        assert(argv[5 + 2 * i] == opts[2 * i]);
        assert(argv[6 + 2 * i] == opts[2 * i + 1]);
    }
}

/// The lowered text shows a password prompt.
pub open spec fn prompt_text(lower: Seq<char>) -> bool {
    ||| seq_contains(lower, "password:"@)
    ||| seq_contains(lower, "password for"@)
    ||| seq_ends_with(lower, "password: "@)
    ||| seq_ends_with(lower, "'s password:"@)
}

/// A text ending with `password: ` or `'s password:` contains `password:`,
/// so prompt detection comes down to two substring tests.
pub proof fn lemma_prompt_is_two_searches(lower: Seq<char>)
    ensures
        prompt_text(lower) == (seq_contains(lower, "password:"@) || seq_contains(
            lower,
            "password for"@,
        )),
{
    reveal_strlit("password:");
    reveal_strlit("password: ");
    reveal_strlit("'s password:");
    let p = "password:"@;
    assert("password: "@.len() == 10);
    assert("'s password:"@.len() == 12);
    assert("password: "@.take(9) =~= p);
    assert("'s password:"@.skip(3) =~= p);
    if seq_ends_with(lower, "password: "@) {
        let i = lower.len() - 10;
        assert(lower.subrange(i, i + 9) =~= lower.subrange(i, i + 10).take(9));
        assert(crate::text::occurs_at(lower, p, i));
    }
    if seq_ends_with(lower, "'s password:"@) {
        let i = lower.len() - 12;
        assert(lower.subrange(i + 3, i + 12) =~= lower.subrange(i, i + 12).skip(3));
        assert(crate::text::occurs_at(lower, p, i + 3));
    }
}

/// Text around a prompt does not hide it: a lowered text that shows a
/// prompt still shows one with anything before and after it.
pub proof fn lemma_prompt_text_monotone(a: Seq<char>, lower: Seq<char>, b: Seq<char>)
    ensures
        prompt_text(lower) ==> prompt_text(a + lower + b),
{
    lemma_prompt_is_two_searches(lower);
    lemma_prompt_is_two_searches(a + lower + b);
    let whole = a + lower + b;
    if seq_contains(lower, "password:"@) {
        let i = choose|i: int| #[trigger] occurs_at(lower, "password:"@, i);
        let n = "password:"@.len();
        assert(whole.subrange(a.len() + i, a.len() + i + n) =~= lower.subrange(i, i + n));
        assert(occurs_at(whole, "password:"@, a.len() + i));
    } else if seq_contains(lower, "password for"@) {
        let i = choose|i: int| #[trigger] occurs_at(lower, "password for"@, i);
        let n = "password for"@.len();
        assert(whole.subrange(a.len() + i, a.len() + i + n) =~= lower.subrange(i, i + n));
        assert(occurs_at(whole, "password for"@, a.len() + i));
    }
}

/// More output never hides a detected prompt: for ASCII texts, once a text
/// shows a password prompt (in any letter case), so does any text that
/// contains it.
pub proof fn lemma_ascii_prompt_kept(a: Seq<char>, text: Seq<char>, b: Seq<char>)
    requires
        ascii_text(a),
        ascii_text(text),
        ascii_text(b),
    ensures
        ascii_text(a + text + b),
        prompt_text(ascii_lowercase(text)) ==> prompt_text(ascii_lowercase(a + text + b)),
{
    let whole = a + text + b;
    assert forall|i: int| 0 <= i < whole.len() implies (#[trigger] whole[i] as u32) < 0x80 by {
        if i < a.len() {
            assert(whole[i] == a[i]);
        } else if i < a.len() + text.len() {
            assert(whole[i] == text[i - a.len()]);
        } else {
            assert(whole[i] == b[i - a.len() - text.len()]);
        }
    }
    assert(ascii_lowercase(whole) =~= ascii_lowercase(a) + ascii_lowercase(text) + ascii_lowercase(b));
    lemma_prompt_text_monotone(ascii_lowercase(a), ascii_lowercase(text), ascii_lowercase(b));
}

/// The text shows a password prompt, whatever its letter case.
pub open spec fn is_prompt(text: Seq<char>) -> bool {
    prompt_text(lowercase_chars(text))
}

/// The text reports that the password was refused.
pub open spec fn reports_auth_failure(text: Seq<char>) -> bool {
    seq_contains(text, "Permission denied"@) || seq_contains(text, "Authentication failed"@)
}

impl Clone for SshPass {
    fn clone(&self) -> (r: SshPass)
        ensures
            r.password_source == self.password_source,
            r.host == self.host,
            r.port == self.port,
            r.user == self.user,
            same_args(r.command, self.command),
            r.timeout == self.timeout,
            r.ssh_options@ == self.ssh_options@,
    {
        SshPass {
            password_source: self.password_source.clone(),
            host: self.host.clone(),
            port: self.port,
            user: clone_opt_string(&self.user),
            command: clone_opt_strings(&self.command),
            timeout: self.timeout,
            ssh_options: clone_strings(&self.ssh_options),
        }
    }
}

impl SshPass {
    /// Creates a builder with a plain password.
    pub fn new(password: &str) -> (b: SshPassBuilder)
        ensures
            b.password_source matches PasswordSource::Plain(p) && p@ == password@,
            is_fresh_builder(b),
    {
        SshPassBuilder::new(password)
    }

    /// Creates a builder whose password is the first line of a file.
    pub fn from_file(path: &str) -> (b: SshPassBuilder)
        ensures
            b.password_source matches PasswordSource::File(p) && p@ == path@,
            is_fresh_builder(b),
    {
        SshPassBuilder::with_source(PasswordSource::File(String::from_str(path)))
    }

    /// Creates a builder whose password is an environment variable's value.
    pub fn from_env(var: &str) -> (b: SshPassBuilder)
        ensures
            b.password_source matches PasswordSource::Env(v) && v@ == var@,
            is_fresh_builder(b),
    {
        SshPassBuilder::with_source(PasswordSource::Env(String::from_str(var)))
    }

    /// The `ssh` command to spawn for this connection.
    pub fn build_command(&self) -> (cmd: CommandBuilder)
        ensures
            command_argv(cmd) == ssh_argv(*self),
    {
        let mut cmd = new_command("ssh");
        push_arg(&mut cmd, "-o");
        push_arg(&mut cmd, "StrictHostKeyChecking=no");
        push_arg(&mut cmd, "-o");
        push_arg(&mut cmd, "UserKnownHostsFile=/dev/null");
        let ghost fixed = command_argv(cmd);

        let mut i: usize = 0;
        while i < self.ssh_options.len()
            invariant
                i <= self.ssh_options.len(),
                fixed.len() > 0,
                command_argv(cmd) == fixed + option_args(self.ssh_options@.take(i as int)),
            decreases self.ssh_options.len() - i,
        {
            push_arg(&mut cmd, "-o");
            push_arg(&mut cmd, self.ssh_options[i].as_str());
            proof {
                assert(option_args(self.ssh_options@.take(i + 1)) =~= option_args(
                    self.ssh_options@.take(i as int),
                ).push("-o"@).push(self.ssh_options@[i as int]@));
                assert(command_argv(cmd) =~= fixed + option_args(self.ssh_options@.take(i + 1)));
            }
            i += 1;
        }
        proof {
            assert(self.ssh_options@.take(i as int) =~= self.ssh_options@);
        }

        if let Some(port) = self.port {
            push_arg(&mut cmd, "-p");
            let port_text = decimal_string(port);
            push_arg(&mut cmd, port_text.as_str());
        }
        proof {
            assert(command_argv(cmd) =~= fixed + option_args(self.ssh_options@) + port_args(self.port));
        }

        let host_text = match &self.user {
            Some(user) => {
                let mut s = String::from_str(user.as_str());
                s.append("@");
                s.append(self.host.as_str());
                proof {
                    reveal_strlit("@");
                    assert(s@ =~= destination(self.user, self.host));
                }
                s
            },
            None => self.host.clone(),
        };
        push_arg(&mut cmd, host_text.as_str());
        let ghost head = command_argv(cmd);

        if let Some(remote) = &self.command {
            let mut k: usize = 0;
            while k < remote.len()
                invariant
                    k <= remote.len(),
                    head.len() > 0,
                    command_argv(cmd) == head + remote@.take(k as int).map_values(|a: String| a@),
                decreases remote.len() - k,
            {
                push_arg(&mut cmd, remote[k].as_str());
                proof {
                    assert(remote@.take(k + 1).map_values(|a: String| a@) =~= remote@.take(
                        k as int,
                    ).map_values(|a: String| a@).push(remote@[k as int]@));
                    assert(command_argv(cmd) =~= head + remote@.take(k + 1).map_values(
                        |a: String| a@,
                    ));
                }
                k += 1;
            }
            proof {
                assert(remote@.take(k as int) =~= remote@);
            }
        }
        proof {
            assert(command_argv(cmd) =~= ssh_argv(*self));
        }
        cmd
    }

    /// Whether a lowered text shows a password prompt.
    pub fn matches_password_prompt(lower: &Vec<char>) -> (b: bool)
        ensures
            b == prompt_text(lower@),
    {
        let colon = chars_of("password:");
        let for_user = chars_of("password for");
        let colon_space = chars_of("password: ");
        let possessive = chars_of("'s password:");
        contains_chars(lower, &colon) || contains_chars(lower, &for_user) || ends_with_chars(
            lower,
            &colon_space,
        ) || ends_with_chars(lower, &possessive)
    }

    /// Whether a text shows a password prompt, whatever its letter case.
    pub fn is_password_prompt(text: &str) -> (b: bool)
        ensures
            b == is_prompt(text@),
            ascii_text(text@) ==> b == prompt_text(ascii_lowercase(text@)),
    {
        let lower = to_lowercase(text);
        let chars = chars_of(lower.as_str());
        Self::matches_password_prompt(&chars)
    }

    /// Fails with the exit code of `ssh` unless it is zero.
    pub fn check_exit_code(exit_code: i32) -> (r: Result<(), Error>)
        ensures
            exit_code == 0 ==> r is Ok,
            exit_code != 0 ==> (r matches Err(Error::ExitCode(c)) && c == exit_code),
    {
        if exit_code != 0 {
            Err(Error::ExitCode(exit_code))
        } else {
            Ok(())
        }
    }

    /// Classifies a finished session from everything `ssh` printed and its
    /// exit code: a refused password first, then a non-zero exit code, else
    /// the output.
    pub fn finish(output: Vec<u8>, exit_code: i32) -> (r: Result<SshPassOutput, Error>)
        ensures
            reports_auth_failure(utf8_lossy_chars(output@)) ==> r matches Err(
                Error::AuthenticationFailed,
            ),
            !reports_auth_failure(utf8_lossy_chars(output@)) && exit_code != 0 ==> (r matches Err(
                Error::ExitCode(c),
            ) && c == exit_code),
            !reports_auth_failure(utf8_lossy_chars(output@)) && exit_code == 0 ==> (r matches Ok(o)
                && o.stdout@ == output@ && o.exit_code == exit_code),
            r matches Ok(o) ==> o.exit_code == 0,
    {
        let text = utf8_lossy(output.as_slice());
        let chars = chars_of(text.as_str());
        let denied = chars_of("Permission denied");
        let failed = chars_of("Authentication failed");
        if contains_chars(&chars, &denied) || contains_chars(&chars, &failed) {
            return Err(Error::AuthenticationFailed);
        }
        match Self::check_exit_code(exit_code) {
            Err(e) => Err(e),
            Ok(()) => Ok(SshPassOutput { stdout: output, exit_code }),
        }
    }
}

/// Output from an SSH command execution.
#[derive(Debug)]
pub struct SshPassOutput {
    /// Raw stdout/stderr output.
    pub stdout: Vec<u8>,
    /// Exit code of the SSH process.
    pub exit_code: i32,
}

impl SshPassOutput {
    /// The output as text (invalid UTF-8 replaced).
    pub fn as_str(&self) -> (s: String)
        ensures
            s@ == utf8_lossy_chars(self.stdout@),
            vstd::utf8::valid_utf8(self.stdout@) ==> s@ == vstd::utf8::decode_utf8(self.stdout@),
    {
        utf8_lossy(self.stdout.as_slice())
    }

    /// Whether the command succeeded (exit code 0).
    pub fn success(&self) -> (b: bool)
        ensures
            b == (self.exit_code == 0),
    {
        self.exit_code == 0
    }
}


/// Everything `ssh` printed so far shows a password prompt.
pub open spec fn prompt_in_output(output: Seq<u8>) -> bool {
    is_prompt(utf8_lossy_chars(output))
}

/// How many times the password is sent when the chunks arrive one after the
/// other, starting from the printed `output` and the `sent` flag.
pub open spec fn sends(output: Seq<u8>, sent: bool, chunks: Seq<Seq<u8>>) -> nat
    decreases chunks.len(),
{
    if chunks.len() == 0 {
        0
    } else {
        let next = output + chunks[0];
        let send = !sent && prompt_in_output(next);
        (if send { 1nat } else { 0nat }) + sends(next, sent || send, chunks.drop_first())
    }
}

/// The password is sent at most once in a session, and never again once it
/// was sent.
pub proof fn lemma_password_sent_at_most_once(output: Seq<u8>, sent: bool, chunks: Seq<Seq<u8>>)
    ensures
        sends(output, sent, chunks) <= 1,
        sent ==> sends(output, sent, chunks) == 0,
    decreases chunks.len(),
{
    if chunks.len() > 0 {
        let next = output + chunks[0];
        let send = !sent && prompt_in_output(next);
        lemma_password_sent_at_most_once(next, sent || send, chunks.drop_first());
    }
}

/// What a read from the pseudo-terminal gave: bytes (none at the end of the
/// output), nothing yet, or an error.
pub enum ReadOutcome {
    Data(Vec<u8>),
    WouldBlock,
    Failed,
}

/// What a session does next.
#[derive(Clone, Copy, Debug, PartialEq, Eq, Structural)]
pub enum SessionAction {
    /// Write the password and a line feed.
    SendPassword,
    /// Read on.
    KeepReading,
    /// Pause briefly, then read again.
    Wait,
    /// The output ended.
    Finish,
    /// End the session with the read's error.
    Fail,
}

/// What `Duration`'s `>` says of two durations.
pub uninterp spec fn duration_exceeds(a: Duration, b: Duration) -> bool;

/// Calls `>` on two durations; its result is named by `duration_exceeds`.
#[verifier::external_body]
fn exceeds(a: Duration, b: Duration) -> (r: bool)
    ensures
        r == duration_exceeds(a, b),
{
    a > b
}

/// Whether the timeout still bounds a session: a non-interactive run is
/// bounded as a whole; an interactive one only until the password is sent.
pub open spec fn timeout_bounds(interactive: bool, password_sent: bool) -> bool {
    !interactive || !password_sent
}

impl SshPass {
    /// Whether the timeout still bounds the session (see `timeout_bounds`).
    pub fn timeout_applies(interactive: bool, watcher: &PromptWatcher) -> (b: bool)
        ensures
            b == timeout_bounds(interactive, watcher.sent()),
    {
        !interactive || !watcher.password_sent()
    }

    /// A non-interactive session, bounded by the timeout as a whole, has run
    /// longer than the timeout.
    pub fn timed_out(&self, elapsed: Duration) -> (b: bool)
        ensures
            b == duration_exceeds(elapsed, self.timeout),
    {
        exceeds(elapsed, self.timeout)
    }

    /// An interactive session keeps waiting for the prompt: the timeout
    /// still bounds it (the password was not sent yet) and the elapsed time
    /// is still below the timeout.
    pub fn awaiting_prompt(&self, watcher: &PromptWatcher, elapsed: Duration) -> (b: bool)
        ensures
            b == (timeout_bounds(true, watcher.sent()) && duration_exceeds(self.timeout, elapsed)),
    {
        Self::timeout_applies(true, watcher) && exceeds(self.timeout, elapsed)
    }
}

/// Watches what `ssh` prints while it starts, and says when to send the
/// password: the first time the output so far shows a password prompt.
pub struct PromptWatcher {
    output: Vec<u8>,
    password_sent: bool,
}

impl PromptWatcher {
    /// Everything received so far.
    pub closed spec fn seen(&self) -> Seq<u8> {
        self.output@
    }

    /// Whether the password was sent.
    pub closed spec fn sent(&self) -> bool {
        self.password_sent
    }

    /// A watcher that has seen nothing and sent nothing.
    pub fn new() -> (w: PromptWatcher)
        ensures
            w.seen() == Seq::<u8>::empty(),
            !w.sent(),
    {
        PromptWatcher { output: Vec::new(), password_sent: false }
    }

    /// Records a chunk of output; returns whether the password must be sent
    /// now. The chunk is one step of `sends`.
    pub fn receive(&mut self, chunk: &[u8]) -> (send_password: bool)
        ensures
            final(self).seen() == old(self).seen() + chunk@,
            send_password == (!old(self).sent() && prompt_in_output(final(self).seen())),
            final(self).sent() == (old(self).sent() || send_password),
    {
        let mut i: usize = 0;
        let ghost before = self.output@;
        while i < chunk.len()
            invariant
                i <= chunk.len(),
                self.output@ == before + chunk@.take(i as int),
                self.password_sent == old(self).password_sent,
                before == old(self).output@,
            decreases chunk.len() - i,
        {
            self.output.push(chunk[i]);
            i += 1;
            proof {
                assert(self.output@ =~= before + chunk@.take(i as int));
            }
        }
        proof {
            assert(chunk@.take(i as int) =~= chunk@);
        }
        if !self.password_sent {
            let text = utf8_lossy(self.output.as_slice());
            if SshPass::is_password_prompt(text.as_str()) {
                self.password_sent = true;
                return true;
            }
        }
        false
    }

    /// Decides what to do after a read from the pseudo-terminal: an empty
    /// read ends the output, data is recorded (sending the password at the
    /// first prompt), a read that would block is retried after a pause, and
    /// a failed read ends the session with that error.
    pub fn on_read(&mut self, outcome: ReadOutcome) -> (action: SessionAction)
        ensures
            match outcome {
                ReadOutcome::Data(bytes) => if bytes@.len() == 0 {
                    action == SessionAction::Finish && *final(self) == *old(self)
                } else {
                    &&& final(self).seen() == old(self).seen() + bytes@
                    &&& final(self).sent() == (old(self).sent() || action == SessionAction::SendPassword)
                    &&& action == if !old(self).sent() && prompt_in_output(final(self).seen()) {
                        SessionAction::SendPassword
                    } else {
                        SessionAction::KeepReading
                    }
                },
                ReadOutcome::WouldBlock => action == SessionAction::Wait && *final(self) == *old(self),
                ReadOutcome::Failed => action == SessionAction::Fail && *final(self) == *old(self),
            },
    {
        match outcome {
            ReadOutcome::Data(bytes) => {
                if bytes.len() == 0 {
                    SessionAction::Finish
                } else if self.receive(bytes.as_slice()) {
                    SessionAction::SendPassword
                } else {
                    SessionAction::KeepReading
                }
            },
            ReadOutcome::WouldBlock => SessionAction::Wait,
            ReadOutcome::Failed => SessionAction::Fail,
        }
    }

    /// The end of the prompt phase of an interactive session: it times out
    /// unless the password was sent.
    pub fn prompt_result(&self) -> (r: Result<(), Error>)
        ensures
            self.sent() ==> r is Ok,
            !self.sent() ==> r matches Err(Error::Timeout),
    {
        if self.password_sent {
            Ok(())
        } else {
            Err(Error::Timeout)
        }
    }

    /// Whether the password was sent.
    pub fn password_sent(&self) -> (b: bool)
        ensures
            b == self.sent(),
    {
        self.password_sent
    }

    /// Everything received, in order.
    pub fn into_output(self) -> (output: Vec<u8>)
        ensures
            output@ == self.seen(),
    {
        self.output
    }
}

} // verus!
