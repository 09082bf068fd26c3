//! Bounded, non-interactive command execution: request validation, command
//! identities, and the results that every execution ends with.

use vstd::prelude::*;
use vstd::utf8::encode_utf8;
use crate::context::{OperationContext, clone_opt, opt_view};
use crate::digest::{sha256_hex, spec_sha256_hex};
use crate::error::{RuntimeError, RuntimeResult};
use crate::text::{
    all_space, byte_len, chars_of, concat_str, contains_char, eq_str, is_blank, starts_with_seq,
    starts_with_str, upper_chars, upper_seq, utf8_len,
};

pub mod registry;
pub mod journal;
pub mod source;

verus! {

pub const MAX_ARGUMENTS: usize = 256;
pub const MAX_ARGUMENT_BYTES: usize = 262144;
pub const MAX_ENVIRONMENT_ENTRIES: usize = 128;
pub const MAX_ENVIRONMENT_BYTES: usize = 262144;
pub const MAX_IDEMPOTENCY_KEY_BYTES: usize = 200;
pub const MAX_MESSAGE_PREVIEW: usize = 1024;

/// A command to run: no shell, explicit arguments and environment overrides.
#[derive(Debug, Clone)]
pub struct CommandRunRequest {
    pub executable: String,
    pub arguments: Vec<String>,
    pub cwd: String,
    /// Environment overrides as (name, value) pairs, in name order.
    pub environment: Vec<(String, String)>,
    pub idempotency_key: Option<String>,
    pub max_stdout_bytes: usize,
    pub max_stderr_bytes: usize,
    pub max_artifact_bytes: u64,
    pub timeout_ms: u64,
    pub kill_on_output_limit: bool,
}

pub fn default_stdout_bytes() -> (r: usize)
    ensures
        r == 524288,
{
    524288
}

pub fn default_stderr_bytes() -> (r: usize)
    ensures
        r == 131072,
{
    131072
}

pub fn default_artifact_bytes() -> (r: u64)
    ensures
        r == 268435456,
{
    268435456
}

pub fn default_timeout_ms() -> (r: u64)
    ensures
        r == 30000,
{
    30000
}

/// How an execution ended.
#[derive(Debug, Clone, Copy, PartialEq, Eq, Structural)]
pub enum CommandTerminalState {
    Unknown,
    Exited,
    Signaled,
    TimedOut,
    Cancelled,
    OutputLimit,
    SpawnFailed,
}

/// What was run, without the argument values themselves.
#[derive(Debug, Clone)]
pub struct CommandIdentity {
    pub executable: String,
    pub argument_count: usize,
    pub arguments_sha256: String,
}

/// A digest of the source inputs of a workspace, taken before and after a command.
#[derive(Debug, Clone)]
pub struct CommandSourceState {
    pub schema_version: u16,
    pub algorithm: String,
    pub digest: String,
    pub scope: String,
    pub files_scanned: u64,
    pub bytes_hashed: u64,
    pub complete: bool,
    pub limitation: Option<String>,
    pub excluded_directories: Vec<String>,
}

/// The record of one execution.
#[derive(Debug, Clone)]
pub struct CommandExecutionResult {
    pub execution_id: String,
    pub terminal_state: CommandTerminalState,
    pub command: CommandIdentity,
    pub cwd: String,
    pub exit_code: Option<i32>,
    pub signal: Option<i32>,
    pub timed_out: bool,
    pub cancelled: bool,
    pub started_at_unix_ms: u64,
    pub finished_at_unix_ms: u64,
    pub elapsed_ms: u64,
    pub stdout: String,
    pub stderr: String,
    pub stdout_bytes: u64,
    pub stderr_bytes: u64,
    pub truncated: bool,
    pub truncation_reason: Option<String>,
    pub artifact_ref: Option<String>,
    pub artifact_bytes: u64,
    pub artifact_sha256: Option<String>,
    pub source_state_before: Option<CommandSourceState>,
    pub source_state_after: Option<CommandSourceState>,
    pub reused: bool,
}

/// Total UTF-8 size of the arguments.
pub open spec fn args_bytes(a: Seq<String>) -> int
    decreases a.len(),
{
    if a.len() == 0 {
        0
    } else {
        args_bytes(a.drop_last()) + byte_len(a.last()@)
    }
}

/// Total UTF-8 size of the environment names and values.
pub open spec fn env_bytes(e: Seq<(String, String)>) -> int
    decreases e.len(),
{
    if e.len() == 0 {
        0
    } else {
        env_bytes(e.drop_last()) + byte_len(e.last().0@) + byte_len(e.last().1@)
    }
}

/// Environment names a command may not override (compared without regard to ASCII case).
pub open spec fn protected_name(k: Seq<char>) -> bool {
    let u = upper_seq(k);
    ||| u == "PATH"@
    ||| u == "HOME"@
    ||| u == "USERPROFILE"@
    ||| u == "CODEX_HOME"@
    ||| u == "LD_PRELOAD"@
    ||| starts_with_seq(u, "DYLD_"@)
    ||| starts_with_seq(u, "CHATCMD_"@)
}

/// An environment override that is refused.
pub open spec fn invalid_env(k: Seq<char>, v: Seq<char>) -> bool {
    k.len() == 0 || k.contains('=') || k.contains('\0') || v.contains('\0') || protected_name(k)
}

/// A request that may run.
pub open spec fn request_valid(r: CommandRunRequest) -> bool {
    &&& !all_space(r.executable@)
    &&& !r.executable@.contains('\0')
    &&& r.arguments@.len() <= MAX_ARGUMENTS
    &&& args_bytes(r.arguments@) <= MAX_ARGUMENT_BYTES
    &&& forall|i: int| 0 <= i < r.arguments@.len() ==> !(#[trigger] r.arguments@[i])@.contains('\0')
    &&& r.environment@.len() <= MAX_ENVIRONMENT_ENTRIES
    &&& env_bytes(r.environment@) <= MAX_ENVIRONMENT_BYTES
    &&& forall|i: int| 0 <= i < r.environment@.len() ==> !invalid_env((#[trigger] r.environment@[i]).0@, r.environment@[i].1@)
    &&& (r.idempotency_key matches Some(k) ==> !(all_space(k@) || byte_len(k@) > MAX_IDEMPOTENCY_KEY_BYTES || k@.contains('\0')))
    &&& r.timeout_ms != 0
}

fn invalid(message: &str) -> (e: RuntimeError)
    ensures
        e.code@ == "invalid_arguments"@,
{
    RuntimeError::new("invalid_arguments", message)
}

/// Refuses an environment override: empty or malformed names, NUL bytes, and names that
/// control how programs are found or loaded.
pub fn invalid_environment(key: &str, value: &str) -> (r: bool)
    ensures
        r == invalid_env(key@, value@),
{
    if key.unicode_len() == 0 || contains_char(key, '=') || contains_char(key, '\0') || contains_char(value, '\0') {
        return true;
    }
    let upper = upper_chars(chars_of(key).as_slice());
    eq_str(upper.as_slice(), "PATH") || eq_str(upper.as_slice(), "HOME") || eq_str(upper.as_slice(), "USERPROFILE")
        || eq_str(upper.as_slice(), "CODEX_HOME") || eq_str(upper.as_slice(), "LD_PRELOAD")
        || starts_with_str(upper.as_slice(), "DYLD_") || starts_with_str(upper.as_slice(), "CHATCMD_")
}

fn arguments_ok(arguments: &Vec<String>) -> (r: bool)
    ensures
        r == (arguments@.len() <= MAX_ARGUMENTS && args_bytes(arguments@) <= MAX_ARGUMENT_BYTES
            && forall|i: int| 0 <= i < arguments@.len() ==> !(#[trigger] arguments@[i])@.contains('\0')),
{
    if arguments.len() > MAX_ARGUMENTS {
        return false;
    }
    let mut total: usize = 0;
    let mut i: usize = 0;
    while i < arguments.len()
        invariant
            i <= arguments@.len(),
            total == args_bytes(arguments@.subrange(0, i as int)),
            total <= MAX_ARGUMENT_BYTES,
            forall|k: int| 0 <= k < i ==> !(#[trigger] arguments@[k])@.contains('\0'),
        decreases arguments.len() - i,
    {
        let ghost p = arguments@.subrange(0, i + 1);
        assert(p.drop_last() =~= arguments@.subrange(0, i as int));
        let n = utf8_len(arguments[i].as_str());
        if n > MAX_ARGUMENT_BYTES - total {
            proof {
                lemma_args_bytes_prefix(arguments@, i + 1);
            }
            return false;
        }
        total = total + n;
        if contains_char(arguments[i].as_str(), '\0') {
            return false;
        }
        i = i + 1;
    }
    assert(arguments@.subrange(0, arguments@.len() as int) =~= arguments@);
    true
}

proof fn lemma_args_bytes_prefix(a: Seq<String>, k: int)
    requires
        0 <= k <= a.len(),
    ensures
        args_bytes(a.subrange(0, k)) <= args_bytes(a),
    decreases a.len() - k,
{
    if k < a.len() {
        lemma_args_bytes_prefix(a, k + 1);
        assert(a.subrange(0, k + 1).drop_last() =~= a.subrange(0, k));
    } else {
        assert(a.subrange(0, k) =~= a);
    }
}

proof fn lemma_env_bytes_prefix(e: Seq<(String, String)>, k: int)
    requires
        0 <= k <= e.len(),
    ensures
        env_bytes(e.subrange(0, k)) <= env_bytes(e),
    decreases e.len() - k,
{
    if k < e.len() {
        lemma_env_bytes_prefix(e, k + 1);
        assert(e.subrange(0, k + 1).drop_last() =~= e.subrange(0, k));
    } else {
        assert(e.subrange(0, k) =~= e);
    }
}

fn environment_ok(environment: &Vec<(String, String)>) -> (r: bool)
    ensures
        r == (environment@.len() <= MAX_ENVIRONMENT_ENTRIES && env_bytes(environment@) <= MAX_ENVIRONMENT_BYTES
            && forall|i: int| 0 <= i < environment@.len() ==> !invalid_env((#[trigger] environment@[i]).0@, environment@[i].1@)),
{
    if environment.len() > MAX_ENVIRONMENT_ENTRIES {
        return false;
    }
    let mut total: usize = 0;
    let mut i: usize = 0;
    while i < environment.len()
        invariant
            i <= environment@.len(),
            total == env_bytes(environment@.subrange(0, i as int)),
            total <= MAX_ENVIRONMENT_BYTES,
        decreases environment.len() - i,
    {
        let ghost p = environment@.subrange(0, i + 1);
        assert(p.drop_last() =~= environment@.subrange(0, i as int));
        let k = utf8_len(environment[i].0.as_str());
        let v = utf8_len(environment[i].1.as_str());
        if k > MAX_ENVIRONMENT_BYTES - total || v > MAX_ENVIRONMENT_BYTES - total - k {
            proof {
                lemma_env_bytes_prefix(environment@, i + 1);
            }
            return false;
        }
        total = total + k + v;
        i = i + 1;
    }
    assert(environment@.subrange(0, environment@.len() as int) =~= environment@);
    let mut j: usize = 0;
    while j < environment.len()
        invariant
            j <= environment@.len(),
            forall|k: int| 0 <= k < j ==> !invalid_env((#[trigger] environment@[k]).0@, environment@[k].1@),
        decreases environment.len() - j,
    {
        if invalid_environment(environment[j].0.as_str(), environment[j].1.as_str()) {
            return false;
        }
        j = j + 1;
    }
    true
}

/// Checks a request before anything runs: a named executable, bounded arguments and
/// environment overrides without NUL bytes or protected names, a sane idempotency key
/// and a positive timeout.
pub fn validate_request(request: &CommandRunRequest) -> (r: RuntimeResult<()>)
    ensures
        r is Ok <==> request_valid(*request),
        r matches Err(e) ==> e.code@ == "invalid_arguments"@,
{
    if is_blank(request.executable.as_str()) || contains_char(request.executable.as_str(), '\0') {
        return Err(invalid("executable must be non-empty and contain no NUL byte"));
    }
    if !arguments_ok(&request.arguments) {
        return Err(invalid("command arguments exceed count/byte limits or contain NUL"));
    }
    if !environment_ok(&request.environment) {
        return Err(invalid("environment overrides are invalid, protected, or exceed limits"));
    }
    if let Some(key) = &request.idempotency_key {
        if is_blank(key.as_str()) || utf8_len(key.as_str()) > MAX_IDEMPOTENCY_KEY_BYTES || contains_char(key.as_str(), '\0') {
            return Err(invalid("idempotencyKey must be 1..200 bytes without NUL"));
        }
    }
    if request.timeout_ms == 0 {
        return Err(invalid("timeoutMs must be greater than zero"));
    }
    Ok(())
}

/// The task of the caller, which command execution requires.
pub fn required_task_id(context: &OperationContext) -> (r: RuntimeResult<&str>)
    ensures
        match context.task_id {
            Some(t) => if all_space(t@) {
                r matches Err(e) && e.code@ == "task_id_required"@
            } else {
                r matches Ok(s) && s@ == t@
            },
            None => r matches Err(e) && e.code@ == "task_id_required"@,
        },
{
    match &context.task_id {
        Some(t) => {
            if is_blank(t.as_str()) {
                Err(RuntimeError::new("task_id_required", "command execution requires taskId"))
            } else {
                Ok(t.as_str())
            }
        },
        None => Err(RuntimeError::new("task_id_required", "command execution requires taskId")),
    }
}

/// The bytes the arguments are hashed over: each argument's UTF-8 bytes followed by a NUL.
pub open spec fn joined_arguments(a: Seq<String>) -> Seq<u8>
    decreases a.len(),
{
    if a.len() == 0 {
        Seq::empty()
    } else {
        joined_arguments(a.drop_last()) + encode_utf8(a.last()@) + seq![0u8]
    }
}

/// Identifies a command by its executable, its argument count and a digest of its
/// arguments.
pub fn command_identity(request: &CommandRunRequest) -> (c: CommandIdentity)
    ensures
        c.executable@ == request.executable@,
        c.argument_count == request.arguments@.len(),
        c.arguments_sha256@ == "sha256:"@ + spec_sha256_hex(joined_arguments(request.arguments@)),
{
    let mut bytes: Vec<u8> = Vec::new();
    let mut i: usize = 0;
    while i < request.arguments.len()
        invariant
            i <= request.arguments@.len(),
            bytes@ == joined_arguments(request.arguments@.subrange(0, i as int)),
        decreases request.arguments.len() - i,
    {
        let ghost p = request.arguments@.subrange(0, i + 1);
        assert(p.drop_last() =~= request.arguments@.subrange(0, i as int));
        let b = request.arguments[i].as_str().as_bytes();
        let ghost start = bytes@;
        let mut j: usize = 0;
        while j < b.len()
            invariant
                j <= b@.len(),
                bytes@ == start + b@.subrange(0, j as int),
            decreases b.len() - j,
        {
            bytes.push(b[j]);
            j = j + 1;
            assert(b@.subrange(0, j as int) =~= b@.subrange(0, j - 1).push(b@[j - 1]));
        }
        assert(b@.subrange(0, b@.len() as int) =~= b@);
        bytes.push(0u8);
        assert(bytes@ =~= joined_arguments(p));
        i = i + 1;
    }
    assert(request.arguments@.subrange(0, request.arguments@.len() as int) =~= request.arguments@);
    let hex = sha256_hex(bytes.as_slice());
    CommandIdentity {
        executable: request.executable.clone(),
        argument_count: request.arguments.len(),
        arguments_sha256: concat_str("sha256:", hex.as_str()),
    }
}

/// The idempotency digest of a request, given the request's canonical JSON encoding.
pub fn request_digest(encoded: &[u8]) -> (d: String)
    ensures
        d@ == "sha256:"@ + spec_sha256_hex(encoded@),
{
    let hex = sha256_hex(encoded);
    concat_str("sha256:", hex.as_str())
}

/// What the process runner reports of a finished process.
#[derive(Debug, Clone)]
pub struct ProcessOutcome {
    pub exit_code: Option<i32>,
    pub signal: Option<i32>,
    pub timed_out: bool,
    pub cancelled: bool,
    pub elapsed_ms: u64,
    pub stdout: String,
    pub stderr: String,
    pub stdout_bytes: u64,
    pub stderr_bytes: u64,
    pub truncated: bool,
    pub truncation_reason: Option<String>,
    pub artifact_ref: Option<String>,
    pub artifact_bytes: u64,
    pub artifact_sha256: Option<String>,
}

/// How a process that ran ended: cancellation first, then the timeout, the output
/// limit, a signal, and otherwise a normal exit.
pub open spec fn terminal_state_of(o: ProcessOutcome) -> CommandTerminalState {
    if o.cancelled {
        CommandTerminalState::Cancelled
    } else if o.timed_out {
        CommandTerminalState::TimedOut
    } else if opt_view(o.truncation_reason) == Some("outputLimit"@) {
        CommandTerminalState::OutputLimit
    } else if o.signal is Some {
        CommandTerminalState::Signaled
    } else {
        CommandTerminalState::Exited
    }
}

/// The result of a process that ran.
pub fn completed_result(
    execution_id: String,
    command: CommandIdentity,
    cwd: String,
    started_at_unix_ms: u64,
    finished_at_unix_ms: u64,
    output: ProcessOutcome,
) -> (r: CommandExecutionResult)
    ensures
        r.terminal_state == terminal_state_of(output),
        r.execution_id == execution_id,
        r.command == command,
        r.cwd == cwd,
        r.exit_code == output.exit_code,
        r.signal == output.signal,
        r.timed_out == output.timed_out,
        r.cancelled == output.cancelled,
        r.started_at_unix_ms == started_at_unix_ms,
        r.finished_at_unix_ms == finished_at_unix_ms,
        r.elapsed_ms == output.elapsed_ms,
        r.stdout == output.stdout,
        r.stderr == output.stderr,
        r.stdout_bytes == output.stdout_bytes,
        r.stderr_bytes == output.stderr_bytes,
        r.truncated == output.truncated,
        r.truncation_reason == output.truncation_reason,
        r.artifact_ref == output.artifact_ref,
        r.artifact_bytes == output.artifact_bytes,
        r.artifact_sha256 == output.artifact_sha256,
        r.source_state_before is None,
        r.source_state_after is None,
        !r.reused,
{
    let output_limit = match &output.truncation_reason {
        Some(reason) => crate::text::str_eq(reason.as_str(), "outputLimit"),
        None => false,
    };
    let terminal_state = if output.cancelled {
        CommandTerminalState::Cancelled
    } else if output.timed_out {
        CommandTerminalState::TimedOut
    } else if output_limit {
        CommandTerminalState::OutputLimit
    } else if output.signal.is_some() {
        CommandTerminalState::Signaled
    } else {
        CommandTerminalState::Exited
    };
    CommandExecutionResult {
        execution_id,
        terminal_state,
        command,
        cwd,
        exit_code: output.exit_code,
        signal: output.signal,
        timed_out: output.timed_out,
        cancelled: output.cancelled,
        started_at_unix_ms,
        finished_at_unix_ms,
        elapsed_ms: output.elapsed_ms,
        stdout: output.stdout,
        stderr: output.stderr,
        stdout_bytes: output.stdout_bytes,
        stderr_bytes: output.stderr_bytes,
        truncated: output.truncated,
        truncation_reason: output.truncation_reason,
        artifact_ref: output.artifact_ref,
        artifact_bytes: output.artifact_bytes,
        artifact_sha256: output.artifact_sha256,
        source_state_before: None,
        source_state_after: None,
        reused: false,
    }
}

/// The first `n` characters of `s` (all of it when shorter).
pub open spec fn take_chars(s: Seq<char>, n: int) -> Seq<char> {
    if s.len() <= n {
        s
    } else {
        s.subrange(0, n)
    }
}

/// `r` is the result of an execution that produced no output, ending in `state` with
/// `message` as its error preview.
pub open spec fn is_empty_result(
    r: CommandExecutionResult,
    execution_id: Seq<char>,
    command: CommandIdentity,
    cwd: Seq<char>,
    started_at_unix_ms: u64,
    finished_at_unix_ms: u64,
    state: CommandTerminalState,
    message: Seq<char>,
) -> bool {
    let long = byte_len(message) > MAX_MESSAGE_PREVIEW;
    &&& r.execution_id@ == execution_id
    &&& r.terminal_state == state
    &&& r.command == command
    &&& r.cwd@ == cwd
    &&& r.exit_code is None
    &&& r.signal is None
    &&& !r.timed_out
    &&& r.cancelled == (state == CommandTerminalState::Cancelled)
    &&& r.started_at_unix_ms == started_at_unix_ms
    &&& r.finished_at_unix_ms == finished_at_unix_ms
    &&& r.elapsed_ms == 0
    &&& r.stdout@.len() == 0
    &&& r.stderr@ == take_chars(message, MAX_MESSAGE_PREVIEW as int)
    &&& r.stdout_bytes == 0
    &&& r.stderr_bytes == (if long { MAX_MESSAGE_PREVIEW } else { byte_len(message) })
    &&& r.truncated == long
    &&& opt_view(r.truncation_reason) == (if long { Some("previewLimit"@) } else { None })
    &&& r.artifact_ref is None
    &&& r.artifact_bytes == 0
    &&& r.artifact_sha256 is None
    &&& r.source_state_before is None
    &&& r.source_state_after is None
    &&& !r.reused
}

/// The result of an execution that never produced output.
pub fn empty_result(
    execution_id: String,
    command: CommandIdentity,
    cwd: String,
    started_at_unix_ms: u64,
    finished_at_unix_ms: u64,
    terminal_state: CommandTerminalState,
    message: &str,
) -> (r: CommandExecutionResult)
    ensures
        is_empty_result(r, execution_id@, command, cwd@, started_at_unix_ms, finished_at_unix_ms, terminal_state, message@),
{
    let chars = chars_of(message);
    let mut preview: Vec<char> = Vec::new();
    let mut i: usize = 0;
    while i < chars.len() && i < MAX_MESSAGE_PREVIEW
        invariant
            chars@ == message@,
            i <= chars@.len(),
            i <= MAX_MESSAGE_PREVIEW,
            preview@ == chars@.subrange(0, i as int),
        decreases chars.len() - i,
    {
        preview.push(chars[i]);
        i = i + 1;
    }
    assert(preview@ =~= take_chars(message@, MAX_MESSAGE_PREVIEW as int));
    let bytes = utf8_len(message);
    let long = bytes > MAX_MESSAGE_PREVIEW;
    CommandExecutionResult {
        execution_id,
        terminal_state,
        command,
        cwd,
        exit_code: None,
        signal: None,
        timed_out: false,
        cancelled: terminal_state == CommandTerminalState::Cancelled,
        started_at_unix_ms,
        finished_at_unix_ms,
        elapsed_ms: 0,
        stdout: String::new(),
        stderr: crate::text::string_from_chars(preview.as_slice()),
        stdout_bytes: 0,
        stderr_bytes: if long { MAX_MESSAGE_PREVIEW as u64 } else { bytes as u64 },
        truncated: long,
        truncation_reason: if long { Some("previewLimit".to_owned()) } else { None },
        artifact_ref: None,
        artifact_bytes: 0,
        artifact_sha256: None,
        source_state_before: None,
        source_state_after: None,
        reused: false,
    }
}

/// The result of an execution cancelled before its process was spawned.
pub fn cancelled_result(
    execution_id: String,
    command: CommandIdentity,
    cwd: String,
    started_at_unix_ms: u64,
    finished_at_unix_ms: u64,
) -> (r: CommandExecutionResult)
    ensures
        is_empty_result(r, execution_id@, command, cwd@, started_at_unix_ms, finished_at_unix_ms,
            CommandTerminalState::Cancelled, "command was cancelled before spawn"@),
{
    empty_result(execution_id, command, cwd, started_at_unix_ms, finished_at_unix_ms,
        CommandTerminalState::Cancelled, "command was cancelled before spawn")
}

/// The result of an execution whose process could not be spawned.
pub fn spawn_failed_result(
    execution_id: String,
    command: CommandIdentity,
    cwd: String,
    started_at_unix_ms: u64,
    finished_at_unix_ms: u64,
    error: &RuntimeError,
) -> (r: CommandExecutionResult)
    ensures
        is_empty_result(r, execution_id@, command, cwd@, started_at_unix_ms, finished_at_unix_ms,
            CommandTerminalState::SpawnFailed, error.message@),
{
    empty_result(execution_id, command, cwd, started_at_unix_ms, finished_at_unix_ms,
        CommandTerminalState::SpawnFailed, error.message.as_str())
}

/// The texts of a list of strings.
pub open spec fn texts(v: Seq<String>) -> Seq<Seq<char>> {
    v.map_values(|s: String| s@)
}

/// Two identities name the same command.
pub open spec fn same_identity(a: CommandIdentity, b: CommandIdentity) -> bool {
    a.executable@ == b.executable@ && a.argument_count == b.argument_count && a.arguments_sha256@ == b.arguments_sha256@
}

/// Two source states carry the same data.
pub open spec fn same_source(a: Option<CommandSourceState>, b: Option<CommandSourceState>) -> bool {
    match (a, b) {
        (None, None) => true,
        (Some(x), Some(y)) => {
            &&& x.schema_version == y.schema_version
            &&& x.algorithm@ == y.algorithm@
            &&& x.digest@ == y.digest@
            &&& x.scope@ == y.scope@
            &&& x.files_scanned == y.files_scanned
            &&& x.bytes_hashed == y.bytes_hashed
            &&& x.complete == y.complete
            &&& opt_view(x.limitation) == opt_view(y.limitation)
            &&& texts(x.excluded_directories@) == texts(y.excluded_directories@)
        },
        _ => false,
    }
}

/// Two results carry the same data.
pub open spec fn same_result(a: CommandExecutionResult, b: CommandExecutionResult) -> bool {
    &&& a.execution_id@ == b.execution_id@
    &&& a.terminal_state == b.terminal_state
    &&& same_identity(a.command, b.command)
    &&& a.cwd@ == b.cwd@
    &&& a.exit_code == b.exit_code
    &&& a.signal == b.signal
    &&& a.timed_out == b.timed_out
    &&& a.cancelled == b.cancelled
    &&& a.started_at_unix_ms == b.started_at_unix_ms
    &&& a.finished_at_unix_ms == b.finished_at_unix_ms
    &&& a.elapsed_ms == b.elapsed_ms
    &&& a.stdout@ == b.stdout@
    &&& a.stderr@ == b.stderr@
    &&& a.stdout_bytes == b.stdout_bytes
    &&& a.stderr_bytes == b.stderr_bytes
    &&& a.truncated == b.truncated
    &&& opt_view(a.truncation_reason) == opt_view(b.truncation_reason)
    &&& opt_view(a.artifact_ref) == opt_view(b.artifact_ref)
    &&& a.artifact_bytes == b.artifact_bytes
    &&& opt_view(a.artifact_sha256) == opt_view(b.artifact_sha256)
    &&& same_source(a.source_state_before, b.source_state_before)
    &&& same_source(a.source_state_after, b.source_state_after)
    &&& a.reused == b.reused
}

fn copy_texts(v: &Vec<String>) -> (r: Vec<String>)
    ensures
        texts(r@) == texts(v@),
{
    let mut r: Vec<String> = Vec::new();
    let mut i: usize = 0;
    while i < v.len()
        invariant
            i <= v@.len(),
            r@.len() == i,
            forall|k: int| 0 <= k < i ==> (#[trigger] r@[k])@ == v@[k]@,
        decreases v.len() - i,
    {
        r.push(v[i].clone());
        i = i + 1;
    }
    assert(texts(r@) =~= texts(v@));
    r
}

fn copy_source(s: &Option<CommandSourceState>) -> (r: Option<CommandSourceState>)
    ensures
        same_source(r, *s),
{
    match s {
        None => None,
        Some(x) => Some(CommandSourceState {
            schema_version: x.schema_version,
            algorithm: x.algorithm.clone(),
            digest: x.digest.clone(),
            scope: x.scope.clone(),
            files_scanned: x.files_scanned,
            bytes_hashed: x.bytes_hashed,
            complete: x.complete,
            limitation: clone_opt(&x.limitation),
            excluded_directories: copy_texts(&x.excluded_directories),
        }),
    }
}

/// A copy of an identity.
pub fn copy_identity(c: &CommandIdentity) -> (r: CommandIdentity)
    ensures
        same_identity(r, *c),
{
    CommandIdentity {
        executable: c.executable.clone(),
        argument_count: c.argument_count,
        arguments_sha256: c.arguments_sha256.clone(),
    }
}

/// A copy of a result.
pub fn copy_result(r: &CommandExecutionResult) -> (c: CommandExecutionResult)
    ensures
        same_result(c, *r),
{
    CommandExecutionResult {
        execution_id: r.execution_id.clone(),
        terminal_state: r.terminal_state,
        command: copy_identity(&r.command),
        cwd: r.cwd.clone(),
        exit_code: r.exit_code,
        signal: r.signal,
        timed_out: r.timed_out,
        cancelled: r.cancelled,
        started_at_unix_ms: r.started_at_unix_ms,
        finished_at_unix_ms: r.finished_at_unix_ms,
        elapsed_ms: r.elapsed_ms,
        stdout: r.stdout.clone(),
        stderr: r.stderr.clone(),
        stdout_bytes: r.stdout_bytes,
        stderr_bytes: r.stderr_bytes,
        truncated: r.truncated,
        truncation_reason: clone_opt(&r.truncation_reason),
        artifact_ref: clone_opt(&r.artifact_ref),
        artifact_bytes: r.artifact_bytes,
        artifact_sha256: clone_opt(&r.artifact_sha256),
        source_state_before: copy_source(&r.source_state_before),
        source_state_after: copy_source(&r.source_state_after),
        reused: r.reused,
    }
}

} // verus!
