//! Window-scoped desktop automation: the records a session keeps, the requests it
//! accepts, and the safety rules applied before any input reaches a window.

use vstd::prelude::*;
use crate::context::{OperationContext, clone_opt, opt_eq, opt_view};
use crate::error::{RuntimeError, RuntimeResult};
use crate::text::{byte_len, utf8_len};

pub mod policy;
pub mod input;
pub mod overlay;
pub mod capture;
pub mod focus;
pub mod state;

verus! {

pub const OBSERVATION_TTL_MS: u64 = 120000;
pub const MAX_OBSERVATIONS: usize = 16;
pub const MAX_INPUT_ACTIONS: usize = 32;
pub const MAX_DESKTOP_KEY_BYTES: usize = 32;
pub const MAX_DESKTOP_TEXT_BYTES: usize = 32768;

/// A window the caller may automate.
#[derive(Debug, Clone)]
pub struct DesktopWindowInfo {
    pub window_id: String,
    pub title: String,
    pub application: String,
    pub process_id: u32,
    pub width: u32,
    pub height: u32,
    pub minimized: bool,
}

/// The windows offered to a caller, and how many were withheld.
#[derive(Debug, Clone)]
pub struct DesktopWindowList {
    pub windows: Vec<DesktopWindowInfo>,
    pub excluded_window_count: usize,
}

/// A request to observe a listed window.
#[derive(Debug, Clone)]
pub struct DesktopObserveRequest {
    pub window_id: String,
    pub include_screenshot: bool,
    pub include_elements: bool,
}

/// A rectangle in window coordinates.
#[derive(Debug, Clone, Copy, PartialEq, Eq, Structural)]
pub struct DesktopRect {
    pub x: i32,
    pub y: i32,
    pub width: u32,
    pub height: u32,
}

/// An element of an observed window.
#[derive(Debug, Clone)]
pub struct DesktopElement {
    pub element_id: String,
    pub name: String,
    pub automation_id: String,
    pub control_type: String,
    pub class_name: String,
    pub bounds: Option<DesktopRect>,
    pub enabled: bool,
    pub offscreen: bool,
    pub password: bool,
    pub supported_actions: Vec<String>,
}

/// What an observation of a window found.
#[derive(Debug, Clone)]
pub struct DesktopObservation {
    pub observation_id: String,
    pub window: DesktopWindowInfo,
    pub elements: Vec<DesktopElement>,
    pub elements_truncated: bool,
    pub screenshot_base64: Option<String>,
}

/// An action on one observed element.
#[derive(Debug, Clone)]
pub enum DesktopElementAction {
    Invoke,
    SetValue { text: String },
    Toggle,
    Select,
    Expand,
    Collapse,
}

/// A request to act on an element of an earlier observation.
#[derive(Debug, Clone)]
pub struct DesktopElementActRequest {
    pub observation_id: String,
    pub element_id: String,
    pub observe_after: bool,
    pub include_screenshot: bool,
    pub include_elements: bool,
    pub action: DesktopElementAction,
}

/// The kind of verification warning.
#[derive(Debug, Clone, Copy, PartialEq, Eq, Structural)]
pub enum DesktopVerificationWarningCode {
    PostActionObservationFailed,
}

/// What the caller should do after a verification warning.
#[derive(Debug, Clone, Copy, PartialEq, Eq, Structural)]
pub enum DesktopVerificationRecovery {
    ObserveAgainWithoutRepeatingAction,
}

/// The action completed but could not be verified by a new observation.
#[derive(Debug, Clone)]
pub struct DesktopVerificationWarning {
    pub code: DesktopVerificationWarningCode,
    pub message: String,
    pub action_completed: bool,
    pub retry_action: bool,
    pub recovery: DesktopVerificationRecovery,
}

impl DesktopVerificationWarning {
    /// The warning given when the observation after an action failed: the action is done
    /// and must not be repeated.
    pub fn post_action_observation_failed() -> (w: Self)
        ensures
            w.code == DesktopVerificationWarningCode::PostActionObservationFailed,
            w.message@ == "action completed, but post-action observation failed; observe again without repeating the action"@,
            w.action_completed,
            !w.retry_action,
            w.recovery == DesktopVerificationRecovery::ObserveAgainWithoutRepeatingAction,
    {
        DesktopVerificationWarning {
            code: DesktopVerificationWarningCode::PostActionObservationFailed,
            message: "action completed, but post-action observation failed; observe again without repeating the action".to_owned(),
            action_completed: true,
            retry_action: false,
            recovery: DesktopVerificationRecovery::ObserveAgainWithoutRepeatingAction,
        }
    }
}

/// The kind of input execution warning.
#[derive(Debug, Clone, Copy, PartialEq, Eq, Structural)]
pub enum DesktopInputExecutionWarningCode {
    PartialInputExecution,
}

/// What the caller should do after an input execution warning.
#[derive(Debug, Clone, Copy, PartialEq, Eq, Structural)]
pub enum DesktopInputExecutionRecovery {
    ObserveAgainWithoutRepeatingInput,
}

/// An input batch that may have run only in part.
#[derive(Debug, Clone)]
pub struct DesktopInputExecutionWarning {
    pub code: DesktopInputExecutionWarningCode,
    pub message: String,
    pub retry_action: bool,
    pub recovery: DesktopInputExecutionRecovery,
}

impl DesktopInputExecutionWarning {
    /// The warning given when an input batch may have executed partially: observe again
    /// and do not repeat the input.
    pub fn partial_input_execution() -> (w: Self)
        ensures
            w.code == DesktopInputExecutionWarningCode::PartialInputExecution,
            w.message@ == "input batch may have executed partially; observe again without repeating input"@,
            !w.retry_action,
            w.recovery == DesktopInputExecutionRecovery::ObserveAgainWithoutRepeatingInput,
    {
        DesktopInputExecutionWarning {
            code: DesktopInputExecutionWarningCode::PartialInputExecution,
            message: "input batch may have executed partially; observe again without repeating input".to_owned(),
            retry_action: false,
            recovery: DesktopInputExecutionRecovery::ObserveAgainWithoutRepeatingInput,
        }
    }
}

/// The outcome of an element action.
#[derive(Debug, Clone)]
pub struct DesktopActionResult {
    pub completed: bool,
    pub observation_invalidated: bool,
    pub observation: Option<DesktopObservation>,
    pub verification_warning: Option<DesktopVerificationWarning>,
}

/// A request to take over input for a window.
#[derive(Debug, Clone)]
pub struct DesktopInputBeginRequest {
    pub window_id: String,
}

/// An input session.
#[derive(Debug, Clone)]
pub struct DesktopInputSessionInfo {
    pub input_session_id: String,
    pub window_id: String,
    pub active: bool,
    pub escape_to_stop: bool,
    pub overlay_visible: bool,
    pub observation: Option<DesktopObservation>,
    pub verification_warning: Option<DesktopVerificationWarning>,
    pub completed_action_count: Option<usize>,
    pub execution_warning: Option<DesktopInputExecutionWarning>,
}

/// A mouse button.
#[derive(Debug, Clone, Copy, PartialEq, Eq, Structural)]
pub enum DesktopMouseButton {
    Left,
    Right,
    Middle,
}

impl Default for DesktopMouseButton {
    fn default() -> (b: Self)
        ensures
            b == DesktopMouseButton::Left,
    {
        DesktopMouseButton::Left
    }
}

/// One input action, in window coordinates.
#[derive(Debug, Clone)]
pub enum DesktopInputAction {
    Click { x: i32, y: i32, button: DesktopMouseButton },
    DoubleClick { x: i32, y: i32, button: DesktopMouseButton },
    Move { x: i32, y: i32 },
    Drag { start_x: i32, start_y: i32, end_x: i32, end_y: i32, duration_ms: u64 },
    Scroll { x: i32, y: i32, delta_x: i32, delta_y: i32 },
    Keypress { keys: Vec<String> },
    Type { text: String },
    Wait { duration_ms: u64 },
}

/// A batch of input actions for an input session.
#[derive(Debug, Clone)]
pub struct DesktopInputActRequest {
    pub input_session_id: String,
    pub actions: Vec<DesktopInputAction>,
    pub observe_after: bool,
    pub include_screenshot: bool,
    pub include_elements: bool,
}

/// A request to end an input session.
#[derive(Debug, Clone)]
pub struct DesktopInputEndRequest {
    pub input_session_id: String,
}

/// An element action may set at most 32 KiB of text.
pub fn validate_element_action(action: &DesktopElementAction) -> (r: RuntimeResult<()>)
    ensures
        r is Ok <==> !(action matches DesktopElementAction::SetValue { text } && byte_len(text@) > MAX_DESKTOP_TEXT_BYTES),
        r matches Err(e) ==> e.code@ == "invalid_arguments"@,
{
    if let DesktopElementAction::SetValue { text } = action {
        if utf8_len(text.as_str()) > MAX_DESKTOP_TEXT_BYTES {
            return Err(RuntimeError::new("invalid_arguments", "text exceeds the 32 KiB action limit"));
        }
    }
    Ok(())
}

/// A key list that a keypress refuses: empty, more than eight keys, or a key name
/// longer than 32 bytes.
pub open spec fn keys_invalid(keys: Seq<String>) -> bool {
    keys.len() == 0 || keys.len() > 8
        || exists|i: int| 0 <= i < keys.len() && byte_len((#[trigger] keys[i])@) > MAX_DESKTOP_KEY_BYTES
}

/// An input action that is refused before anything runs.
pub open spec fn input_action_invalid(a: DesktopInputAction) -> bool {
    match a {
        DesktopInputAction::Drag { duration_ms, .. } => !(1 <= duration_ms <= 5000),
        DesktopInputAction::Wait { duration_ms } => !(1 <= duration_ms <= 10000),
        DesktopInputAction::Keypress { keys } => keys_invalid(keys@),
        DesktopInputAction::Type { text } => byte_len(text@) > MAX_DESKTOP_TEXT_BYTES,
        _ => false,
    }
}

fn keys_ok(keys: &Vec<String>) -> (r: bool)
    ensures
        r == !keys_invalid(keys@),
{
    if keys.len() == 0 || keys.len() > 8 {
        return false;
    }
    let mut i: usize = 0;
    while i < keys.len()
        invariant
            i <= keys@.len(),
            forall|k: int| 0 <= k < i ==> byte_len((#[trigger] keys@[k])@) <= MAX_DESKTOP_KEY_BYTES,
        decreases keys.len() - i,
    {
        if utf8_len(keys[i].as_str()) > MAX_DESKTOP_KEY_BYTES {
            assert(byte_len(keys@[i as int]@) > MAX_DESKTOP_KEY_BYTES);
            return false;
        }
        i = i + 1;
    }
    true
}

fn action_ok(action: &DesktopInputAction) -> (r: bool)
    ensures
        r == !input_action_invalid(*action),
{
    match action {
        DesktopInputAction::Drag { duration_ms, .. } => 1 <= *duration_ms && *duration_ms <= 5000,
        DesktopInputAction::Wait { duration_ms } => 1 <= *duration_ms && *duration_ms <= 10000,
        DesktopInputAction::Keypress { keys } => keys_ok(keys),
        DesktopInputAction::Type { text } => utf8_len(text.as_str()) <= MAX_DESKTOP_TEXT_BYTES,
        _ => true,
    }
}

/// A batch holds 1 to 32 actions, each within its limits.
pub fn validate_input_actions(actions: &Vec<DesktopInputAction>) -> (r: RuntimeResult<()>)
    ensures
        r is Ok <==> (1 <= actions@.len() <= MAX_INPUT_ACTIONS
            && forall|i: int| 0 <= i < actions@.len() ==> !input_action_invalid(#[trigger] actions@[i])),
        r matches Err(e) ==> e.code@ == "invalid_arguments"@,
{
    if actions.len() == 0 || actions.len() > MAX_INPUT_ACTIONS {
        return Err(RuntimeError::new("invalid_arguments", "actions must contain between 1 and 32 items"));
    }
    let mut i: usize = 0;
    while i < actions.len()
        invariant
            i <= actions@.len(),
            forall|k: int| 0 <= k < i ==> !input_action_invalid(#[trigger] actions@[k]),
        decreases actions.len() - i,
    {
        if !action_ok(&actions[i]) {
            return Err(RuntimeError::new("invalid_arguments", "input action exceeds its limits"));
        }
        i = i + 1;
    }
    Ok(())
}

/// The agent and task that own desktop records.
#[derive(Debug, Clone)]
pub struct Owner {
    pub agent_id: String,
    pub task_id: Option<String>,
}

pub open spec fn desktop_owner_view(o: Owner) -> (Seq<char>, Option<Seq<char>>) {
    (o.agent_id@, opt_view(o.task_id))
}

pub open spec fn context_desktop_owner(c: OperationContext) -> (Seq<char>, Option<Seq<char>>) {
    (c.agent_id@, opt_view(c.task_id))
}

/// The owner of records made in `context`.
pub fn owner(context: &OperationContext) -> (o: Owner)
    ensures
        desktop_owner_view(o) == context_desktop_owner(*context),
{
    Owner { agent_id: context.agent_id.clone(), task_id: clone_opt(&context.task_id) }
}

/// Records of another agent or task do not exist for the caller: they fail with `code`.
pub fn ensure_owner(value: &Owner, context: &OperationContext, code: &str) -> (r: RuntimeResult<()>)
    ensures
        r is Ok <==> desktop_owner_view(*value) == context_desktop_owner(*context),
        r matches Err(e) ==> e.code@ == code@,
{
    if value.agent_id == context.agent_id && opt_eq(&value.task_id, &context.task_id) {
        Ok(())
    } else {
        Err(RuntimeError::new(code, "resource was not found"))
    }
}

/// A top-level window as the platform reports it.
#[derive(Debug, Clone)]
pub struct NativeWindow {
    pub handle: isize,
    pub process_id: u32,
    pub title: String,
    pub application: String,
    pub width: u32,
    pub height: u32,
    pub minimized: bool,
}

/// What a caller is told about a native window listed under `id`.
pub fn window_info(id: &str, native: &NativeWindow) -> (w: DesktopWindowInfo)
    ensures
        w.window_id@ == id@,
        w.title@ == native.title@,
        w.application@ == native.application@,
        w.process_id == native.process_id,
        w.width == native.width,
        w.height == native.height,
        w.minimized == native.minimized,
{
    DesktopWindowInfo {
        window_id: id.to_owned(),
        title: native.title.clone(),
        application: native.application.clone(),
        process_id: native.process_id,
        width: native.width,
        height: native.height,
        minimized: native.minimized,
    }
}

/// The error every desktop operation fails with where the platform has no desktop backend.
pub fn unsupported() -> (e: RuntimeError)
    ensures
        e.code@ == "desktop_unsupported"@,
        !e.retryable,
{
    RuntimeError::new("desktop_unsupported", "desktop computer use is currently available on Windows only")
}

} // verus!
