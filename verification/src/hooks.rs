//! What the outcome of a hook command means: success with output to show, or
//! a failure and its message.

use vstd::prelude::*;
use vstd::string::*;
use crate::text::{concat2, push_signed_decimal, signed_decimal};

verus! {

/// What a finished hook process reported.
#[derive(Debug, PartialEq)]
pub struct HookOutput {
    /// Whether the process exited successfully
    pub success: bool,
    /// Its exit code, when it exited with one
    pub code: Option<i32>,
    /// Its standard output, as text
    pub stdout: String,
    /// Its standard error, as text
    pub stderr: String,
}

/// Why a hook failed.
#[derive(Debug, PartialEq)]
pub enum HookError {
    /// The command could not be started.
    Spawn { hook: String, reason: String },
    /// The command ran and failed.
    Failed { hook: String, code: Option<i32>, stdout: String, stderr: String },
}

/// `{:?}` of an exit code: `Some(n)` or `None`.
pub open spec fn debug_code(code: Option<i32>) -> Seq<char> {
    match code {
        Some(n) => "Some("@ + signed_decimal(n as int) + ")"@,
        None => "None"@,
    }
}

impl HookError {
    /// The message shown to the user.
    pub fn message(&self) -> (res: String)
        ensures
            match self {
                HookError::Spawn { hook, reason } =>
                    res@ == "Failed to execute hook '"@ + hook@ + "': "@ + reason@,
                HookError::Failed { hook, code, stdout, stderr } =>
                    res@ == "Hook '"@ + hook@ + "' failed with exit code "@ + debug_code(*code)
                        + "\nStdout: "@ + stdout@ + "\nStderr: "@ + stderr@,
            },
    {
        match self {
            HookError::Spawn { hook, reason } => {
                let mut s = concat2("Failed to execute hook '", hook.as_str());
                s.append("': ");
                s.append(reason.as_str());
                s
            },
            HookError::Failed { hook, code, stdout, stderr } => {
                let mut s = concat2("Hook '", hook.as_str());
                s.append("' failed with exit code ");
                match code {
                    Some(n) => {
                        s.append("Some(");
                        push_signed_decimal(&mut s, *n);
                        s.append(")");
                    },
                    None => s.append("None"),
                }
                s.append("\nStdout: ");
                s.append(stdout.as_str());
                s.append("\nStderr: ");
                s.append(stderr.as_str());
                s
            },
        }
    }
}

/// Judge a finished hook: a failure becomes `HookError::Failed`; a success
/// gives its standard output when there is any, to be shown.
pub fn evaluate_hook(hook: &str, output: HookOutput) -> (res: Result<Option<String>, HookError>)
    ensures
        match res {
            Ok(Some(out)) => output.success && out == output.stdout && out@.len() > 0,
            Ok(None) => output.success && output.stdout@.len() == 0,
            Err(e) => !output.success && (e matches HookError::Failed { hook: h, code, stdout, stderr }
                && h@ == hook@ && code == output.code && stdout == output.stdout && stderr == output.stderr),
        },
{
    if !output.success {
        return Err(HookError::Failed {
            hook: String::from_str(hook),
            code: output.code,
            stdout: output.stdout,
            stderr: output.stderr,
        });
    }
    if output.stdout.as_str().is_empty() {
        Ok(None)
    } else {
        Ok(Some(output.stdout))
    }
}

} // verus!
