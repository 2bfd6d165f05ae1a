use std::time::Duration;

use gpui_term::sshpass::{ReadOutcome, SessionAction, DEFAULT_TIMEOUT_SECS};
use gpui_term::text::first_line_of;
use gpui_term::{Error, PasswordSource, PromptWatcher, SshPass, SshPassBuilder, SshPassOutput};

fn argv(pass: &SshPass) -> Vec<String> {
    pass.build_command()
        .get_argv()
        .iter()
        .map(|a| a.to_string_lossy().into_owned())
        .collect()
}

#[test]
fn test_password_prompt_detection() {
    assert!(SshPass::is_password_prompt("user@host's password:"));
    assert!(SshPass::is_password_prompt("Password:"));
    assert!(SshPass::is_password_prompt("password for user:"));
    assert!(!SshPass::is_password_prompt("Hello world"));
}

#[test]
fn test_password_source_plain() {
    let source = PasswordSource::Plain("secret".to_string());
    assert_eq!(source.resolve(None).unwrap(), "secret");
}

#[test]
fn test_builder() {
    let sshpass = SshPass::new("password")
        .host("example.com")
        .port(2222)
        .user("admin")
        .timeout(Duration::from_secs(60))
        .build()
        .unwrap();

    assert_eq!(sshpass.host, "example.com");
    assert_eq!(sshpass.port, Some(2222));
    assert_eq!(sshpass.user, Some("admin".to_string()));
    assert_eq!(sshpass.timeout, Duration::from_secs(60));
}

#[test]
fn prompt_detection_ignores_letter_case() {
    assert!(SshPass::is_password_prompt("ADMIN@HOST'S PASSWORD: "));
    assert!(SshPass::is_password_prompt("[sudo] PassWord For admin"));
    assert!(!SshPass::is_password_prompt("passwd:"));
}

#[test]
fn prompt_matching_on_lowered_text() {
    let lower: Vec<char> = "enter password:".chars().collect();
    assert!(SshPass::matches_password_prompt(&lower));
    let upper: Vec<char> = "ENTER PASSWORD:".chars().collect();
    assert!(!SshPass::matches_password_prompt(&upper));
}

#[test]
fn builder_defaults() {
    let b = SshPassBuilder::new("pw");
    assert!(b.host.is_none());
    assert!(b.port.is_none());
    assert!(b.user.is_none());
    assert!(b.command.is_none());
    assert!(b.ssh_options.is_empty());
    assert_eq!(b.timeout, Duration::from_secs(DEFAULT_TIMEOUT_SECS));
    assert_eq!(b.timeout, Duration::from_secs(30));
    assert!(matches!(b.password_source, PasswordSource::Plain(ref p) if p == "pw"));
}

#[test]
fn builder_sources() {
    let f = SshPass::from_file("/tmp/pw.txt");
    assert!(matches!(f.password_source, PasswordSource::File(ref p) if p == "/tmp/pw.txt"));
    let e = SshPass::from_env("SSH_PASSWORD");
    assert!(matches!(e.password_source, PasswordSource::Env(ref v) if v == "SSH_PASSWORD"));
}

#[test]
fn build_without_host_fails() {
    let r = SshPass::new("pw").port(22).build();
    assert!(matches!(r, Err(Error::SshNotFound)));
}

#[test]
fn ssh_options_accumulate() {
    let b = SshPass::new("pw").ssh_option("A=1").ssh_option("B=2");
    assert_eq!(b.ssh_options, vec!["A=1".to_string(), "B=2".to_string()]);
}

#[test]
fn command_line_minimal() {
    let p = SshPass::new("pw").host("example.com").build().unwrap();
    assert_eq!(
        argv(&p),
        vec![
            "ssh",
            "-o",
            "StrictHostKeyChecking=no",
            "-o",
            "UserKnownHostsFile=/dev/null",
            "example.com"
        ]
    );
}

#[test]
fn command_line_full() {
    let p = SshPass::new("pw")
        .host("example.com")
        .user("admin")
        .port(2222)
        .ssh_option("ConnectTimeout=5")
        .ssh_option("LogLevel=ERROR")
        .command(vec!["ls".to_string(), "-la".to_string()])
        .build()
        .unwrap();
    assert_eq!(
        argv(&p),
        vec![
            "ssh",
            "-o",
            "StrictHostKeyChecking=no",
            "-o",
            "UserKnownHostsFile=/dev/null",
            "-o",
            "ConnectTimeout=5",
            "-o",
            "LogLevel=ERROR",
            "-p",
            "2222",
            "admin@example.com",
            "ls",
            "-la"
        ]
    );
}

#[test]
fn command_line_port_digits() {
    for (port, text) in [(0u16, "0"), (7, "7"), (10, "10"), (65535, "65535")] {
        let p = SshPass::new("pw").host("h").port(port).build().unwrap();
        let args = argv(&p);
        assert_eq!(args[5], "-p");
        assert_eq!(args[6], text);
    }
}

#[test]
fn resolve_file_and_env() {
    let file = PasswordSource::File("/etc/pw".to_string());
    assert_eq!(file.resolve(Some("hunter2\r\nsecond line\n".to_string())).unwrap(), "hunter2");
    assert_eq!(file.resolve(Some(String::new())).unwrap(), "");
    match file.resolve(None) {
        Err(Error::PasswordFileNotFound(p)) => assert_eq!(p, "/etc/pw"),
        other => panic!("unexpected {:?}", other),
    }
    let env = PasswordSource::Env("PW".to_string());
    assert_eq!(env.resolve(Some("from env".to_string())).unwrap(), "from env");
    match env.resolve(None) {
        Err(Error::EnvVarNotSet(v)) => assert_eq!(v, "PW"),
        other => panic!("unexpected {:?}", other),
    }
    let plain = PasswordSource::Plain("p".to_string());
    assert_eq!(plain.resolve(Some("ignored".to_string())).unwrap(), "p");
}

#[test]
fn first_line_matches_std_lines() {
    for text in ["", "abc", "abc\n", "abc\r\n", "abc\r", "\nxyz", "a\rb\nc", "\r\n", "ünï\ncode"] {
        let expected = text.lines().next().unwrap_or("");
        assert_eq!(first_line_of(text), expected, "text {:?}", text);
    }
}

#[test]
fn finish_classifies_outcomes() {
    match SshPass::finish(b"user@h: Permission denied (publickey)".to_vec(), 255) {
        Err(Error::AuthenticationFailed) => {}
        other => panic!("unexpected {:?}", other),
    }
    match SshPass::finish(b"Authentication failed.".to_vec(), 0) {
        Err(Error::AuthenticationFailed) => {}
        other => panic!("unexpected {:?}", other),
    }
    match SshPass::finish(b"no such file".to_vec(), 2) {
        Err(Error::ExitCode(2)) => {}
        other => panic!("unexpected {:?}", other),
    }
    let out = SshPass::finish(b"hello\n".to_vec(), 0).unwrap();
    assert_eq!(out.stdout, b"hello\n".to_vec());
    assert_eq!(out.exit_code, 0);
    assert!(out.success());
}

#[test]
fn check_exit_code_values() {
    assert!(SshPass::check_exit_code(0).is_ok());
    assert!(matches!(SshPass::check_exit_code(-1), Err(Error::ExitCode(-1))));
}

#[test]
fn output_as_text() {
    let out = SshPassOutput { stdout: vec![b'o', b'k', 0xff, b'!'], exit_code: 1 };
    assert_eq!(out.as_str(), "ok\u{FFFD}!");
    assert!(!out.success());
}

#[test]
fn watcher_sends_password_once() {
    let mut w = PromptWatcher::new();
    assert!(!w.password_sent());
    assert!(!w.receive(b"Warning: added host\r\nadmin@host's pass"));
    assert!(w.receive(b"word: "));
    assert!(w.password_sent());
    assert!(!w.receive(b"\r\nPassword: "));
    assert!(!w.receive(b"Last login"));
    assert_eq!(
        w.into_output(),
        b"Warning: added host\r\nadmin@host's password: \r\nPassword: Last login".to_vec()
    );
}

#[test]
fn watcher_without_prompt_never_sends() {
    let mut w = PromptWatcher::new();
    assert!(!w.receive(b"Welcome"));
    assert!(!w.receive(&[]));
    assert!(!w.password_sent());
}

#[test]
fn builder_clone_keeps_fields() {
    let b = SshPass::new("pw").host("h").user("u").port(1).ssh_option("X=y");
    let c = b.clone();
    assert_eq!(c.host, b.host);
    assert_eq!(c.user, b.user);
    assert_eq!(c.port, b.port);
    assert_eq!(c.ssh_options, b.ssh_options);
    let p = c.build().unwrap();
    let q = p.clone();
    assert_eq!(argv(&p), argv(&q));
}

#[test]
fn session_reads_decide_actions() {
    let mut w = PromptWatcher::new();
    assert_eq!(w.on_read(ReadOutcome::WouldBlock), SessionAction::Wait);
    assert_eq!(w.on_read(ReadOutcome::Data(b"Hello".to_vec())), SessionAction::KeepReading);
    assert!(w.prompt_result().is_err());
    assert_eq!(w.on_read(ReadOutcome::Data(b" password:".to_vec())), SessionAction::SendPassword);
    assert_eq!(w.on_read(ReadOutcome::Data(b"password:".to_vec())), SessionAction::KeepReading);
    assert_eq!(w.on_read(ReadOutcome::Failed), SessionAction::Fail);
    assert_eq!(w.on_read(ReadOutcome::Data(vec![])), SessionAction::Finish);
    assert!(w.prompt_result().is_ok());
    assert_eq!(w.into_output(), b"Hello password:password:".to_vec());
}

#[test]
fn session_timeouts() {
    let p = SshPass::new("pw").host("h").timeout(Duration::from_secs(5)).build().unwrap();
    assert!(!p.timed_out(Duration::from_secs(5)));
    assert!(p.timed_out(Duration::from_millis(5001)));
    let mut w = PromptWatcher::new();
    assert!(p.awaiting_prompt(&w, Duration::from_secs(4)));
    assert!(!p.awaiting_prompt(&w, Duration::from_secs(5)));
    assert!(w.receive(b"Password:"));
    assert!(!p.awaiting_prompt(&w, Duration::from_secs(1)));
    match PromptWatcher::new().prompt_result() {
        Err(Error::Timeout) => {}
        other => panic!("unexpected {:?}", other),
    }
}

#[test]
fn prompt_kept_in_longer_output() {
    for t in ["Password:", "root@box's password: ", "[sudo] password for me"] {
        assert!(SshPass::is_password_prompt(t));
        let longer = format!("Last login: Mon\r\n{}\r\nmore", t);
        assert!(SshPass::is_password_prompt(&longer));
    }
}

#[test]
fn timeout_scope() {
    let mut w = PromptWatcher::new();
    assert!(SshPass::timeout_applies(false, &w));
    assert!(SshPass::timeout_applies(true, &w));
    assert!(w.receive(b"password:"));
    assert!(SshPass::timeout_applies(false, &w));
    assert!(!SshPass::timeout_applies(true, &w));
}

#[test]
fn valid_utf8_output_is_unchanged() {
    let out = SshPassOutput { stdout: "héllo ✓".as_bytes().to_vec(), exit_code: 0 };
    assert_eq!(out.as_str(), "héllo ✓");
}
