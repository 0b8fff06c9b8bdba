use coffee_break::notification::Invocation;
use coffee_break::shell::{run_smart_shell, ShellStep};

fn bash(cmd: &str) -> ShellStep {
    ShellStep::Run(Invocation {
        program: "bash".to_string(),
        args: vec!["-c".to_string(), cmd.to_string()],
    })
}

#[test]
fn rm_declined_is_cancelled() {
    assert_eq!(run_smart_shell("rm -rf /tmp/x", None), ShellStep::Confirm);
    assert_eq!(run_smart_shell("rm -rf /tmp/x", Some("n")), ShellStep::Cancelled);
    assert_eq!(run_smart_shell("rm -rf /tmp/x", Some("n\n")), ShellStep::Cancelled);
}

#[test]
fn rm_accepted_is_run() {
    assert_eq!(run_smart_shell("rm /tmp/sentinel", None), ShellStep::Confirm);
    assert_eq!(run_smart_shell("rm /tmp/sentinel", Some("y\n")), bash("rm /tmp/sentinel"));
    assert_eq!(run_smart_shell("rm /tmp/sentinel", Some("  y  ")), bash("rm /tmp/sentinel"));
}

#[test]
fn only_the_letter_y_confirms() {
    for answer in ["", "\n", "Y", "yes", "y y", "n", "yy", "ok"] {
        assert_eq!(run_smart_shell("sudo rm -rf /", Some(answer)), ShellStep::Cancelled, "{answer}");
    }
}

#[test]
fn rm_inside_a_command_asks_too() {
    assert_eq!(run_smart_shell("cd x && rm y", None), ShellStep::Confirm);
    assert_eq!(run_smart_shell("find . | xargs rm -f", None), ShellStep::Confirm);
}

#[test]
fn other_commands_run_at_once() {
    assert_eq!(run_smart_shell("ls -la", None), bash("ls -la"));
    assert_eq!(run_smart_shell("", None), bash(""));
    assert_eq!(run_smart_shell("rmdir x", None), bash("rmdir x"));
    assert_eq!(run_smart_shell("rm", None), bash("rm"));
    assert_eq!(run_smart_shell("echo farm", None), bash("echo farm"));
    assert_eq!(run_smart_shell("cat x; rm", None), bash("cat x; rm"));
    assert_eq!(run_smart_shell("ls", Some("n")), bash("ls"));
}
