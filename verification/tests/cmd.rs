use nixos_limine::cmd::{CmdError, Invocation, Output};

fn failed(program: &str, status: &str, stdout: &[u8], stderr: &[u8]) -> CmdError {
    Output::new(program, false, status, stdout, stderr).success().unwrap_err()
}

#[test]
fn captures_stdout_and_stderr_together() {
    let output = Output::new("/bin/program", true, "exit status: 0", b"out\n", b"err\n");

    assert!(output.succeeded);
    assert_eq!(output.text, "out\nerr\n");
}

#[test]
fn a_non_zero_exit_is_not_an_error_by_itself() {
    let output = Output::new("/bin/program", false, "exit status: 3", b"", b"");

    assert!(!output.succeeded);
    assert_eq!(output.status, "exit status: 3");
}

#[test]
fn success_turns_a_non_zero_exit_into_an_error() {
    let message = failed("/tmp/x/program", "exit status: 3", b"", b"").message();

    assert!(message.contains("/tmp/x/program"), "{message}");
    assert!(message.contains("exit status: 3"), "{message}");
}

#[test]
fn a_failure_carries_what_the_program_printed() {
    let error = failed("/tmp/x/program", "exit status: 1", b"", b"setup mode is disabled\n");

    assert_eq!(error.message(), "/tmp/x/program failed: exit status: 1\n  setup mode is disabled");
}

#[test]
fn success_is_quiet_when_the_program_succeeds() {
    assert!(Output::new("/tmp/x/program", true, "exit status: 0", b"fine\n", b"").success().is_ok());
}

#[test]
fn a_program_that_is_not_there_fails_to_spawn() {
    let message = CmdError::Spawn { program: "/nonexistent/program".to_owned() }.message();

    assert!(message.contains("could not run"), "{message}");
    assert!(message.contains("/nonexistent/program"), "{message}");
}

#[test]
fn arguments_reach_the_program() {
    let invocation = Invocation::new("/bin/sbctl").arg("enroll-keys").args(&vec!["--microsoft".to_owned(), "--firmware-builtin".to_owned()]);

    assert_eq!(invocation.program(), "/bin/sbctl");
    assert_eq!(invocation.arguments(), &vec!["enroll-keys".to_owned(), "--microsoft".to_owned(), "--firmware-builtin".to_owned()]);
    assert_eq!(invocation.line(), "/bin/sbctl enroll-keys --microsoft --firmware-builtin");
}

#[test]
fn a_quiet_failure_says_only_how_it_ended() {
    let error = failed("/tmp/x/program", "exit status: 2", b"", b"\n\n");

    assert_eq!(error.message(), "/tmp/x/program failed: exit status: 2");
}

#[test]
fn indents_every_line_the_program_printed() {
    let error = failed("p", "signal: 9", b"first\r\nsecond\n", b"third  \n");

    assert_eq!(error.message(), "p failed: signal: 9\n  first\n  second\n  third");
}

#[test]
fn reads_invalid_utf8_output_lossily() {
    let output = Output::new("p", true, "exit status: 0", b"ok \xff", b"");

    assert_eq!(output.text, "ok \u{fffd}");
}
