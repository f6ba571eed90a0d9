use skem::hooks::{evaluate_hook, HookError, HookOutput};

fn output(success: bool, code: Option<i32>, stdout: &str, stderr: &str) -> HookOutput {
    HookOutput { success, code, stdout: stdout.to_string(), stderr: stderr.to_string() }
}

#[test]
fn hook_success_with_output() {
    let result = evaluate_hook("echo 'test'", output(true, Some(0), "test\n", ""));
    assert_eq!(result, Ok(Some("test\n".to_string())));
    let result = evaluate_hook("true", output(true, Some(0), "", "noise"));
    assert_eq!(result, Ok(None));
}

#[test]
fn hook_failure_message() {
    let err = evaluate_hook("exit 42", output(false, Some(42), "", "")).unwrap_err();
    let msg = err.message();
    assert!(msg.contains("failed with exit code"));
    assert_eq!(msg, "Hook 'exit 42' failed with exit code Some(42)\nStdout: \nStderr: ");
    let err = evaluate_hook("x", output(false, Some(-3), "o", "e")).unwrap_err();
    assert_eq!(err.message(), "Hook 'x' failed with exit code Some(-3)\nStdout: o\nStderr: e");
    let err = evaluate_hook("x", output(false, None, "", "")).unwrap_err();
    assert_eq!(err.message(), "Hook 'x' failed with exit code None\nStdout: \nStderr: ");
    let err = evaluate_hook("x", output(false, Some(i32::MIN), "", "")).unwrap_err();
    assert_eq!(err.message(), format!("Hook 'x' failed with exit code {:?}\nStdout: \nStderr: ", Some(i32::MIN)));
}

#[test]
fn hook_spawn_message() {
    let err = HookError::Spawn { hook: "h".to_string(), reason: "No such file".to_string() };
    assert_eq!(err.message(), "Failed to execute hook 'h': No such file");
}
