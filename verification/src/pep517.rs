//! Build hooks handed to an attached Python runtime, when one is attached.
use vstd::prelude::*;

verus! {

/// What a build hook needs: the build environment, the script, the source tree, the
/// environment variables and the `PATH`.
#[derive(Debug)]
pub struct HookRequest {
    pub venv: String,
    pub script: String,
    pub source_tree: String,
    pub env: Vec<(String, String)>,
    pub path: String,
}

/// What a build hook printed, and its exit code.
#[derive(Debug)]
pub struct HookOutput {
    pub stdout: Vec<String>,
    pub stderr: Vec<String>,
    pub code: i32,
}

impl HookOutput {
    /// Whether the hook exited with code zero.
    pub fn success(&self) -> (r: bool)
        ensures
            r == (self.code == 0),
    {
        self.code == 0
    }
}

/// Why a build hook did not run to completion.
#[derive(Debug)]
pub enum HookError {
    NoRuntimeAttached,
    Failed(String),
}

/// The sentence each failure displays as.
pub open spec fn hook_message(e: HookError) -> Seq<char> {
    match e {
        HookError::NoRuntimeAttached => "Building a source distribution requires a Python runtime, and none is attached; attach one with `attachPyodide` or install only wheels"@,
        HookError::Failed(m) => "The attached Python runtime failed: "@ + m@,
    }
}

impl HookError {
    /// The sentence the failure displays as.
    pub fn message(&self) -> (m: String)
        ensures
            m@ == hook_message(*self),
    {
        match self {
            HookError::NoRuntimeAttached => String::from_str(
                "Building a source distribution requires a Python runtime, and none is attached; attach one with `attachPyodide` or install only wheels",
            ),
            HookError::Failed(message) => String::from_str("The attached Python runtime failed: ").concat(
                message.as_str(),
            ),
        }
    }
}

/// The slot that holds the attached runtime, if any.
#[derive(Debug)]
pub struct RunnerSlot<R> {
    runner: Option<R>,
}

impl<R> RunnerSlot<R> {
    /// No runtime attached.
    pub fn new() -> (s: Self)
        ensures
            s.held() is None,
    {
        RunnerSlot { runner: None }
    }

    /// The attached runtime, if any.
    pub closed spec fn held(&self) -> Option<R> {
        self.runner
    }
}

/// Attaches `runner`, replacing any runtime attached before.
pub fn set_runner<R>(slot: &mut RunnerSlot<R>, runner: R)
    ensures
        final(slot).held() == Some(runner),
{
    slot.runner = Some(runner);
}

/// Detaches the runtime.
pub fn clear_runner<R>(slot: &mut RunnerSlot<R>)
    ensures
        final(slot).held() is None,
{
    slot.runner = None;
}

/// Whether a runtime is attached.
pub fn is_attached<R>(slot: &RunnerSlot<R>) -> (r: bool)
    ensures
        r == slot.held() is Some,
{
    slot.runner.is_some()
}

/// The runtime a hook request goes to, with the request; without a runtime the build
/// cannot run.
pub fn dispatch<R>(slot: &RunnerSlot<R>, request: HookRequest) -> (r: Result<(&R, HookRequest), HookError>)
    ensures
        match slot.held() {
            Some(runner) => r matches Ok((x, q)) && *x == runner && q == request,
            None => r matches Err(e) && e is NoRuntimeAttached,
        },
{
    match &slot.runner {
        Some(runner) => Ok((runner, request)),
        None => Err(HookError::NoRuntimeAttached),
    }
}

} // verus!
