//! Isolated browser sessions driven over the DevTools protocol: session ownership,
//! request limits, browser discovery and the key events an input action produces.

use vstd::prelude::*;
use crate::context::{OperationContext, clone_opt, opt_eq, opt_view};
use crate::error::{RuntimeError, RuntimeResult};
use crate::text::{byte_len, chars_of, concat_str, eq_str, str_eq, string_from_chars, upper_chars, upper_seq, utf8_len};

pub mod sessions;

verus! {

pub const MAX_SESSIONS: usize = 4;
pub const MAX_KEYS: usize = 8;
pub const MAX_KEY_BYTES: usize = 64;
pub const MAX_TYPED_BYTES: usize = 32768;

/// Which browser a session runs.
#[derive(Debug, Clone, Copy, PartialEq, Eq, Structural)]
pub enum ComputerBrowser {
    Chrome,
    Edge,
    Brave,
}

impl Default for ComputerBrowser {
    fn default() -> (b: Self)
        ensures
            b == ComputerBrowser::Chrome,
    {
        ComputerBrowser::Chrome
    }
}

/// A request to start a browser session.
#[derive(Debug, Clone)]
pub struct ComputerSessionStartRequest {
    pub browser: ComputerBrowser,
    pub start_url: String,
    pub width: u32,
    pub height: u32,
}

pub fn default_width() -> (r: u32)
    ensures
        r == 1280,
{
    1280
}

pub fn default_height() -> (r: u32)
    ensures
        r == 800,
{
    800
}

pub fn default_start_url() -> (r: String)
    ensures
        r@ == "about:blank"@,
{
    "about:blank".to_owned()
}

pub fn default_drag_duration_ms() -> (r: u64)
    ensures
        r == 500,
{
    500
}

/// A mouse button.
#[derive(Debug, Clone, Copy, PartialEq, Eq, Structural)]
pub enum MouseButton {
    Left,
    Right,
    Middle,
}

impl Default for MouseButton {
    fn default() -> (b: Self)
        ensures
            b == MouseButton::Left,
    {
        MouseButton::Left
    }
}

impl MouseButton {
    /// The button's name in DevTools input events.
    pub fn as_cdp(self) -> (r: &'static str)
        ensures
            r@ == (match self {
                MouseButton::Left => "left"@,
                MouseButton::Right => "right"@,
                MouseButton::Middle => "middle"@,
            }),
    {
        match self {
            MouseButton::Left => "left",
            MouseButton::Right => "right",
            MouseButton::Middle => "middle",
        }
    }
}

/// A started session.
#[derive(Debug, Clone)]
pub struct ComputerSessionInfo {
    pub session_id: String,
    pub browser: ComputerBrowser,
    pub width: u32,
    pub height: u32,
    pub headless: bool,
    pub isolated_profile: bool,
}

/// Why a batch of actions stopped early.
#[derive(Debug, Clone)]
pub struct ComputerExecutionWarning {
    pub completed_action_count: usize,
    pub retry_action: bool,
    pub message: String,
}

/// What a session shows.
#[derive(Debug, Clone)]
pub struct ComputerObservation {
    pub session_id: String,
    pub url: String,
    pub title: String,
    pub width: u32,
    pub height: u32,
    pub screenshot_base64: Option<String>,
    pub verification_warning: Option<String>,
    pub completed_action_count: Option<usize>,
    pub execution_warning: Option<ComputerExecutionWarning>,
}

/// The agent and task a session belongs to.
#[derive(Debug, Clone)]
pub struct SessionOwner {
    pub agent_id: String,
    pub task_id: Option<String>,
}

pub open spec fn session_owner_view(o: SessionOwner) -> (Seq<char>, Option<Seq<char>>) {
    (o.agent_id@, opt_view(o.task_id))
}

/// The owner of sessions started in `context`.
pub fn owner(context: &OperationContext) -> (o: SessionOwner)
    ensures
        session_owner_view(o) == (context.agent_id@, opt_view(context.task_id)),
{
    SessionOwner { agent_id: context.agent_id.clone(), task_id: clone_opt(&context.task_id) }
}

/// A session is visible only to the agent and task that started it; to anyone else it
/// does not exist.
pub fn ensure_owner(owner: &SessionOwner, context: &OperationContext) -> (r: RuntimeResult<()>)
    ensures
        r is Ok <==> session_owner_view(*owner) == (context.agent_id@, opt_view(context.task_id)),
        r matches Err(e) ==> e.code@ == "computer_session_not_found"@,
{
    if owner.agent_id == context.agent_id && opt_eq(&owner.task_id, &context.task_id) {
        Ok(())
    } else {
        Err(RuntimeError::new("computer_session_not_found", "session was not found"))
    }
}

/// Browser windows are between 640x480 and 1920x1080.
pub fn validate_dimensions(width: u32, height: u32) -> (r: RuntimeResult<()>)
    ensures
        r is Ok <==> (640 <= width <= 1920 && 480 <= height <= 1080),
        r matches Err(e) ==> e.code@ == "invalid_arguments"@,
{
    if !(640 <= width && width <= 1920) || !(480 <= height && height <= 1080) {
        return Err(RuntimeError::new("invalid_arguments", "browser dimensions must be within 640x480 and 1920x1080"));
    }
    Ok(())
}

/// An observation of a session that has no page yet.
pub fn empty_observation(session_id: &str, width: u32, height: u32) -> (o: ComputerObservation)
    ensures
        o.session_id@ == session_id@,
        o.url@.len() == 0,
        o.title@.len() == 0,
        o.width == width,
        o.height == height,
        o.screenshot_base64 is None,
        o.verification_warning is None,
        o.completed_action_count is None,
        o.execution_warning is None,
{
    ComputerObservation {
        session_id: session_id.to_owned(),
        url: String::new(),
        title: String::new(),
        width,
        height,
        screenshot_base64: None,
        verification_warning: None,
        completed_action_count: None,
        execution_warning: None,
    }
}

fn invalid_action(message: &str) -> (e: RuntimeError)
    ensures
        e.code@ == "invalid_arguments"@,
{
    RuntimeError::new("invalid_arguments", message)
}

/// A keypress names one to eight keys of at most 64 bytes each.
pub fn validate_keys(keys: &Vec<String>) -> (r: RuntimeResult<()>)
    ensures
        r is Ok <==> (1 <= keys@.len() <= MAX_KEYS && forall|i: int| 0 <= i < keys@.len() ==> byte_len((#[trigger] keys@[i])@) <= MAX_KEY_BYTES),
        r matches Err(e) ==> e.code@ == "invalid_arguments"@,
{
    if keys.len() == 0 || keys.len() > MAX_KEYS {
        return Err(invalid_action("keypress requires between 1 and 8 keys"));
    }
    let mut i: usize = 0;
    while i < keys.len()
        invariant
            i <= keys@.len(),
            forall|k: int| 0 <= k < i ==> byte_len((#[trigger] keys@[k])@) <= MAX_KEY_BYTES,
        decreases keys.len() - i,
    {
        if utf8_len(keys[i].as_str()) > MAX_KEY_BYTES {
            return Err(invalid_action("keypress key names are limited to 64 bytes"));
        }
        i = i + 1;
    }
    Ok(())
}

/// Typed text is at most 32 KiB.
pub fn validate_typed_text(text: &str) -> (r: RuntimeResult<()>)
    ensures
        r is Ok <==> byte_len(text@) <= MAX_TYPED_BYTES,
        r matches Err(e) ==> e.code@ == "invalid_arguments"@,
{
    if utf8_len(text) > MAX_TYPED_BYTES {
        return Err(invalid_action("typed text exceeds the 32 KiB action limit"));
    }
    Ok(())
}

/// A wait lasts 1 to 10000 milliseconds.
pub fn validate_wait(duration_ms: u64) -> (r: RuntimeResult<()>)
    ensures
        r is Ok <==> (1 <= duration_ms <= 10000),
        r matches Err(e) ==> e.code@ == "invalid_arguments"@,
{
    if !(1 <= duration_ms && duration_ms <= 10000) {
        return Err(invalid_action("wait durationMs must be between 1 and 10000"));
    }
    Ok(())
}

/// A drag lasts 1 to 5000 milliseconds.
pub fn validate_drag_duration(duration_ms: u64) -> (r: RuntimeResult<()>)
    ensures
        r is Ok <==> (1 <= duration_ms <= 5000),
        r matches Err(e) ==> e.code@ == "invalid_arguments"@,
{
    if !(1 <= duration_ms && duration_ms <= 5000) {
        return Err(invalid_action("drag durationMs must be between 1 and 5000"));
    }
    Ok(())
}

/// The name a browser is reported under.
pub fn browser_name(browser: ComputerBrowser) -> (r: &'static str)
    ensures
        r@ == (match browser {
            ComputerBrowser::Chrome => "Chrome"@,
            ComputerBrowser::Edge => "Edge"@,
            ComputerBrowser::Brave => "Brave"@,
        }),
{
    match browser {
        ComputerBrowser::Chrome => "Chrome",
        ComputerBrowser::Edge => "Edge",
        ComputerBrowser::Brave => "Brave",
    }
}

/// Where each browser is installed on Linux, in order of preference.
pub open spec fn candidates_spec(browser: ComputerBrowser) -> Seq<Seq<char>> {
    match browser {
        ComputerBrowser::Chrome => seq!["/usr/bin/google-chrome"@, "/usr/bin/chromium"@, "/usr/bin/chromium-browser"@],
        ComputerBrowser::Edge => seq!["/usr/bin/microsoft-edge"@, "/usr/bin/microsoft-edge-stable"@],
        ComputerBrowser::Brave => seq!["/usr/bin/brave-browser"@, "/usr/bin/brave-browser-stable"@],
    }
}

/// The executables a browser may be found at, in order of preference.
pub fn browser_candidates(browser: ComputerBrowser) -> (r: Vec<String>)
    ensures
        r@.map_values(|s: String| s@) == candidates_spec(browser),
{
    let mut r: Vec<String> = Vec::new();
    match browser {
        ComputerBrowser::Chrome => {
            r.push("/usr/bin/google-chrome".to_owned());
            r.push("/usr/bin/chromium".to_owned());
            r.push("/usr/bin/chromium-browser".to_owned());
        },
        ComputerBrowser::Edge => {
            r.push("/usr/bin/microsoft-edge".to_owned());
            r.push("/usr/bin/microsoft-edge-stable".to_owned());
        },
        ComputerBrowser::Brave => {
            r.push("/usr/bin/brave-browser".to_owned());
            r.push("/usr/bin/brave-browser-stable".to_owned());
        },
    }
    assert(r@.map_values(|s: String| s@) =~= candidates_spec(browser));
    r
}

/// The first candidate that exists (`present[i]` tells whether candidate `i` is a file),
/// or the error that the browser was not found.
pub fn find_browser(browser: ComputerBrowser, present: &Vec<bool>) -> (r: RuntimeResult<String>)
    ensures
        match r {
            Ok(p) => exists|i: int| 0 <= i < candidates_spec(browser).len() && i < present@.len() && present@[i]
                && p@ == candidates_spec(browser)[i]
                && forall|j: int| 0 <= j < i && j < present@.len() ==> !#[trigger] present@[j],
            Err(e) => e.code@ == "computer_browser_not_found"@
                && forall|j: int| 0 <= j < candidates_spec(browser).len() && j < present@.len() ==> !#[trigger] present@[j],
        },
{
    let candidates = browser_candidates(browser);
    let mut i: usize = 0;
    while i < candidates.len()
        invariant
            candidates@.map_values(|s: String| s@) == candidates_spec(browser),
            i <= candidates@.len(),
            forall|j: int| 0 <= j < i && j < present@.len() ==> !#[trigger] present@[j],
        decreases candidates.len() - i,
    {
        if i < present.len() && present[i] {
            let p = candidates[i].clone();
            assert(candidates@.map_values(|s: String| s@)[i as int] == candidates@[i as int]@);
            return Ok(p);
        }
        i = i + 1;
    }
    let message = concat_str(browser_name(browser), " executable was not found");
    Err(RuntimeError::new("computer_browser_not_found", message.as_str()))
}

/// The modifier bit of a key name (any ASCII case): Alt, Control, Meta, Shift.
pub open spec fn modifier_spec(k: Seq<char>) -> Option<u8> {
    let u = upper_seq(k);
    if u == "ALT"@ {
        Some(1u8)
    } else if u == "CTRL"@ || u == "CONTROL"@ {
        Some(2u8)
    } else if u == "META"@ || u == "CMD"@ || u == "COMMAND"@ {
        Some(4u8)
    } else if u == "SHIFT"@ {
        Some(8u8)
    } else {
        None
    }
}

/// The modifier bit a key name sets, if it names a modifier.
pub fn modifier_bit(key: &str) -> (r: Option<u8>)
    ensures
        r == modifier_spec(key@),
{
    let u = upper_chars(chars_of(key).as_slice());
    let s = u.as_slice();
    if eq_str(s, "ALT") {
        Some(1)
    } else if eq_str(s, "CTRL") || eq_str(s, "CONTROL") {
        Some(2)
    } else if eq_str(s, "META") || eq_str(s, "CMD") || eq_str(s, "COMMAND") {
        Some(4)
    } else if eq_str(s, "SHIFT") {
        Some(8)
    } else {
        None
    }
}

/// The DevTools key, code and virtual key code of a named key (matched in any ASCII
/// case); a single character stands for itself, anything else is passed through.
pub open spec fn key_spec(k: Seq<char>) -> (Seq<char>, Seq<char>, u32) {
    let u = upper_seq(k);
    if u == "ENTER"@ || u == "RETURN"@ {
        ("Enter"@, "Enter"@, 13)
    } else if u == "TAB"@ {
        ("Tab"@, "Tab"@, 9)
    } else if u == "ESC"@ || u == "ESCAPE"@ {
        ("Escape"@, "Escape"@, 27)
    } else if u == "BACKSPACE"@ {
        ("Backspace"@, "Backspace"@, 8)
    } else if u == "DELETE"@ {
        ("Delete"@, "Delete"@, 46)
    } else if u == "ARROWUP"@ || u == "UP"@ {
        ("ArrowUp"@, "ArrowUp"@, 38)
    } else if u == "ARROWDOWN"@ || u == "DOWN"@ {
        ("ArrowDown"@, "ArrowDown"@, 40)
    } else if u == "ARROWLEFT"@ || u == "LEFT"@ {
        ("ArrowLeft"@, "ArrowLeft"@, 37)
    } else if u == "ARROWRIGHT"@ || u == "RIGHT"@ {
        ("ArrowRight"@, "ArrowRight"@, 39)
    } else if u == "CTRL"@ || u == "CONTROL"@ {
        ("Control"@, "ControlLeft"@, 17)
    } else if u == "ALT"@ {
        ("Alt"@, "AltLeft"@, 18)
    } else if u == "SHIFT"@ {
        ("Shift"@, "ShiftLeft"@, 16)
    } else if u == "META"@ || u == "CMD"@ || u == "COMMAND"@ {
        ("Meta"@, "MetaLeft"@, 91)
    } else if u.len() == 1 {
        (seq![u[0]], "Key"@ + seq![u[0]], u[0] as u32)
    } else {
        (k, k, 0)
    }
}

fn key_triple(key: &str, code: &str, virtual_key: u32) -> (r: (String, String, u32))
    ensures
        r.0@ == key@,
        r.1@ == code@,
        r.2 == virtual_key,
{
    (key.to_owned(), code.to_owned(), virtual_key)
}

/// The DevTools key, code and virtual key code of a key name.
pub fn normalize_key(key: &str) -> (r: (String, String, u32))
    ensures
        (r.0@, r.1@, r.2) == key_spec(key@),
{
    let u = upper_chars(chars_of(key).as_slice());
    let s = u.as_slice();
    if eq_str(s, "ENTER") || eq_str(s, "RETURN") {
        key_triple("Enter", "Enter", 13)
    } else if eq_str(s, "TAB") {
        key_triple("Tab", "Tab", 9)
    } else if eq_str(s, "ESC") || eq_str(s, "ESCAPE") {
        key_triple("Escape", "Escape", 27)
    } else if eq_str(s, "BACKSPACE") {
        key_triple("Backspace", "Backspace", 8)
    } else if eq_str(s, "DELETE") {
        key_triple("Delete", "Delete", 46)
    } else if eq_str(s, "ARROWUP") || eq_str(s, "UP") {
        key_triple("ArrowUp", "ArrowUp", 38)
    } else if eq_str(s, "ARROWDOWN") || eq_str(s, "DOWN") {
        key_triple("ArrowDown", "ArrowDown", 40)
    } else if eq_str(s, "ARROWLEFT") || eq_str(s, "LEFT") {
        key_triple("ArrowLeft", "ArrowLeft", 37)
    } else if eq_str(s, "ARROWRIGHT") || eq_str(s, "RIGHT") {
        key_triple("ArrowRight", "ArrowRight", 39)
    } else if eq_str(s, "CTRL") || eq_str(s, "CONTROL") {
        key_triple("Control", "ControlLeft", 17)
    } else if eq_str(s, "ALT") {
        key_triple("Alt", "AltLeft", 18)
    } else if eq_str(s, "SHIFT") {
        key_triple("Shift", "ShiftLeft", 16)
    } else if eq_str(s, "META") || eq_str(s, "CMD") || eq_str(s, "COMMAND") {
        key_triple("Meta", "MetaLeft", 91)
    } else if u.len() == 1 {
        let c = u[0];
        let one = string_from_chars(u.as_slice());
        assert(u@ =~= seq![c]);
        let code = concat_str("Key", one.as_str());
        (one, code, c as u32)
    } else {
        (key.to_owned(), key.to_owned(), 0)
    }
}

/// One key event of a keypress.
#[derive(Debug, Clone)]
pub struct KeyEvent {
    pub down: bool,
    pub key: String,
    pub modifiers: u8,
}

pub open spec fn event_view(e: KeyEvent) -> (bool, Seq<char>, u8) {
    (e.down, e.key@, e.modifiers)
}

/// The modifiers held after pressing the first `n` keys.
pub open spec fn held_after(keys: Seq<String>, n: int) -> u8
    decreases n,
{
    if n <= 0 {
        0u8
    } else {
        let m = held_after(keys, n - 1);
        match modifier_spec(keys[n - 1]@) {
            Some(bit) => m | bit,
            None => m,
        }
    }
}

/// The events of pressing the first `n` keys in order: a modifier goes down and stays
/// down; any other key goes down and up, with the modifiers held so far.
pub open spec fn press_events(keys: Seq<String>, n: int) -> Seq<(bool, Seq<char>, u8)>
    decreases n,
{
    if n <= 0 {
        Seq::empty()
    } else {
        let k = keys[n - 1]@;
        let m = held_after(keys, n);
        match modifier_spec(k) {
            Some(_) => press_events(keys, n - 1).push((true, k, m)),
            None => press_events(keys, n - 1).push((true, k, m)).push((false, k, m)),
        }
    }
}

/// The modifiers still held after releasing the modifiers among keys `n..` in reverse.
pub open spec fn held_before_release(keys: Seq<String>, n: int) -> u8
    decreases keys.len() - n,
{
    if n >= keys.len() {
        held_after(keys, keys.len() as int)
    } else {
        let m = held_before_release(keys, n + 1);
        match modifier_spec(keys[n]@) {
            Some(bit) => m & !bit,
            None => m,
        }
    }
}

/// The events of releasing the modifiers among keys `n..`, last key first.
pub open spec fn release_events(keys: Seq<String>, n: int) -> Seq<(bool, Seq<char>, u8)>
    decreases keys.len() - n,
{
    if n >= keys.len() {
        Seq::empty()
    } else {
        let tail = release_events(keys, n + 1);
        match modifier_spec(keys[n]@) {
            Some(_) => tail.push((false, keys[n]@, held_before_release(keys, n + 1))),
            None => tail,
        }
    }
}

/// One of the four modifier bits.
pub open spec fn is_modifier_bit(b: u8) -> bool {
    b == 1u8 || b == 2u8 || b == 4u8 || b == 8u8
}

/// A modifier key among the first `p` keys of a chord sets bit `b`.
pub open spec fn pressed_before(keys: Seq<String>, p: int, b: u8) -> bool {
    exists|q: int| 0 <= q < p && #[trigger] modifier_spec(keys[q]@) == Some(b)
}

proof fn lemma_or_bit(m: u8, bit: u8, b: u8)
    requires
        is_modifier_bit(bit),
        is_modifier_bit(b),
        m & 0xF0u8 == 0,
    ensures
        ((m | bit) & b != 0) == ((m & b != 0) || bit == b),
        (m | bit) & 0xF0u8 == 0,
{
    assert(((m | bit) & b != 0) == ((m & b != 0) || bit == b)) by (bit_vector)
        requires
            bit == 1u8 || bit == 2u8 || bit == 4u8 || bit == 8u8,
            b == 1u8 || b == 2u8 || b == 4u8 || b == 8u8;
    assert((m | bit) & 0xF0u8 == 0) by (bit_vector)
        requires
            bit == 1u8 || bit == 2u8 || bit == 4u8 || bit == 8u8,
            m & 0xF0u8 == 0;
}

/// The modifiers held after the first `n` keys are exactly the bits of the modifier keys
/// among them.
proof fn lemma_held_bits(keys: Seq<String>, n: int)
    requires
        0 <= n <= keys.len(),
    ensures
        held_after(keys, n) & 0xF0u8 == 0,
        forall|b: u8| is_modifier_bit(b) ==> ((held_after(keys, n) & b != 0) <==> #[trigger] pressed_before(keys, n, b)),
    decreases n,
{
    if n == 0 {
        assert(0u8 & 0xF0u8 == 0) by (bit_vector);
        assert forall|b: u8| is_modifier_bit(b) implies ((held_after(keys, n) & b != 0) <==> #[trigger] pressed_before(keys, n, b)) by {
            assert(0u8 & b == 0) by (bit_vector);
        }
    } else {
        lemma_held_bits(keys, n - 1);
        let m = held_after(keys, n - 1);
        match modifier_spec(keys[n - 1]@) {
            Some(bit) => {
                assert(is_modifier_bit(bit));
                assert forall|b: u8| is_modifier_bit(b) implies ((held_after(keys, n) & b != 0) <==> #[trigger] pressed_before(keys, n, b)) by {
                    lemma_or_bit(m, bit, b);
                    if pressed_before(keys, n, b) && bit != b {
                        let q = choose|q: int| 0 <= q < n && #[trigger] modifier_spec(keys[q]@) == Some(b);
                        assert(q < n - 1);
                        assert(pressed_before(keys, n - 1, b));
                    }
                    if pressed_before(keys, n - 1, b) {
                        let q = choose|q: int| 0 <= q < n - 1 && #[trigger] modifier_spec(keys[q]@) == Some(b);
                        assert(pressed_before(keys, n, b));
                    }
                    if bit == b {
                        assert(modifier_spec(keys[n - 1]@) == Some(b));
                        assert(pressed_before(keys, n, b));
                    }
                }
                lemma_or_bit(m, bit, 1u8);
            },
            None => {
                assert forall|b: u8| is_modifier_bit(b) implies ((held_after(keys, n) & b != 0) <==> #[trigger] pressed_before(keys, n, b)) by {
                    if pressed_before(keys, n, b) {
                        let q = choose|q: int| 0 <= q < n && #[trigger] modifier_spec(keys[q]@) == Some(b);
                        assert(q != n - 1);
                        assert(pressed_before(keys, n - 1, b));
                    }
                    if pressed_before(keys, n - 1, b) {
                        let q = choose|q: int| 0 <= q < n - 1 && #[trigger] modifier_spec(keys[q]@) == Some(b);
                        assert(pressed_before(keys, n, b));
                    }
                }
            },
        }
    }
}

proof fn lemma_press_prefix(keys: Seq<String>, p: int, n: int)
    requires
        0 <= p <= n <= keys.len(),
    ensures
        press_events(keys, p).len() <= press_events(keys, n).len(),
        press_events(keys, n).subrange(0, press_events(keys, p).len() as int) == press_events(keys, p),
    decreases n,
{
    if p < n {
        lemma_press_prefix(keys, p, n - 1);
        let a = press_events(keys, n - 1);
        let b = press_events(keys, n);
        let l = press_events(keys, p).len() as int;
        assert(b.subrange(0, a.len() as int) =~= a);
        assert(b.subrange(0, l) =~= a.subrange(0, l));
    } else {
        assert(press_events(keys, n).subrange(0, press_events(keys, n).len() as int) =~= press_events(keys, n));
    }
}

/// In a key chord, every key that is not a modifier goes down and then up, and both events
/// carry exactly the modifier bits of the modifier keys listed before it (so `Control`, `a`
/// sends `a` with Control held).
pub proof fn lemma_chord_keys_carry_earlier_modifiers(keys: Seq<String>, p: int)
    requires
        0 <= p < keys.len(),
        modifier_spec(keys[p]@) is None,
    ensures
        ({
            let events = press_events(keys, keys.len() as int);
            let at = press_events(keys, p).len() as int;
            let m = events[at].2;
            &&& at + 1 < events.len()
            &&& events[at].0 && events[at].1 == keys[p]@
            &&& !events[at + 1].0 && events[at + 1].1 == keys[p]@ && events[at + 1].2 == m
            &&& m & 0xF0u8 == 0
            &&& forall|b: u8| is_modifier_bit(b) ==> ((m & b != 0) <==> #[trigger] pressed_before(keys, p, b))
        }),
{
    lemma_press_prefix(keys, p + 1, keys.len() as int);
    lemma_held_bits(keys, p + 1);
    let events = press_events(keys, keys.len() as int);
    let at = press_events(keys, p).len() as int;
    let mine = press_events(keys, p + 1);
    assert(mine == press_events(keys, p).push((true, keys[p]@, held_after(keys, p + 1))).push((false, keys[p]@, held_after(keys, p + 1))));
    assert(events[at] == mine[at]);
    assert(events[at + 1] == mine[at + 1]);
    assert forall|b: u8| is_modifier_bit(b) implies (pressed_before(keys, p + 1, b) <==> #[trigger] pressed_before(keys, p, b)) by {
        if pressed_before(keys, p + 1, b) {
            let q = choose|q: int| 0 <= q < p + 1 && #[trigger] modifier_spec(keys[q]@) == Some(b);
            assert(q != p);
            assert(pressed_before(keys, p, b));
        }
        if pressed_before(keys, p, b) {
            let q = choose|q: int| 0 <= q < p && #[trigger] modifier_spec(keys[q]@) == Some(b);
            assert(pressed_before(keys, p + 1, b));
        }
    }
}

/// The key events of a keypress: every key pressed in order, then the modifiers released
/// in reverse order.
pub fn keypress_events(keys: &Vec<String>) -> (r: Vec<KeyEvent>)
    ensures
        r@.map_values(|e: KeyEvent| event_view(e)) == press_events(keys@, keys@.len() as int) + release_events(keys@, 0),
{
    let mut events: Vec<KeyEvent> = Vec::new();
    let mut modifiers: u8 = 0;
    let mut i: usize = 0;
    while i < keys.len()
        invariant
            i <= keys@.len(),
            modifiers == held_after(keys@, i as int),
            events@.map_values(|e: KeyEvent| event_view(e)) == press_events(keys@, i as int),
        decreases keys.len() - i,
    {
        let key = &keys[i];
        let ghost before = events@.map_values(|e: KeyEvent| event_view(e));
        match modifier_bit(key.as_str()) {
            Some(bit) => {
                modifiers = modifiers | bit;
                events.push(KeyEvent { down: true, key: key.clone(), modifiers });
                assert(events@.map_values(|e: KeyEvent| event_view(e)) =~= before.push((true, key@, modifiers)));
            },
            None => {
                events.push(KeyEvent { down: true, key: key.clone(), modifiers });
                events.push(KeyEvent { down: false, key: key.clone(), modifiers });
                assert(events@.map_values(|e: KeyEvent| event_view(e)) =~= before.push((true, key@, modifiers)).push((false, key@, modifiers)));
            },
        }
        i = i + 1;
    }
    let ghost pressed = events@.map_values(|e: KeyEvent| event_view(e));
    let mut j: usize = keys.len();
    while j > 0
        invariant
            j <= keys@.len(),
            modifiers == held_before_release(keys@, j as int),
            pressed == press_events(keys@, keys@.len() as int),
            events@.map_values(|e: KeyEvent| event_view(e)) == pressed + release_events(keys@, j as int),
        decreases j,
    {
        let key = &keys[j - 1];
        let ghost before = events@.map_values(|e: KeyEvent| event_view(e));
        match modifier_bit(key.as_str()) {
            Some(bit) => {
                events.push(KeyEvent { down: false, key: key.clone(), modifiers });
                proof {
                    assert(release_events(keys@, j - 1) == release_events(keys@, j as int).push((false, keys@[j - 1]@, modifiers)));
                    assert(events@.map_values(|e: KeyEvent| event_view(e)) =~= before.push((false, key@, modifiers)));
                    assert(events@.map_values(|e: KeyEvent| event_view(e)) =~= pressed + release_events(keys@, j - 1));
                }
                modifiers = modifiers & !bit;
            },
            None => {
                assert(release_events(keys@, j - 1) == release_events(keys@, j as int));
            },
        }
        j = j - 1;
    }
    events
}

/// The scheme of `url` as `reqwest::Url::parse` reads it; `None` when the text does not
/// parse as an absolute URL.
pub uninterp spec fn spec_url_scheme(url: Seq<char>) -> Option<Seq<char>>;

/// `reqwest::Url::parse` (the `url` crate's WHATWG parser) followed by `Url::scheme`. The
/// result is `spec_url_scheme` of the text: parsing depends on the text alone. Nothing
/// else of the parser is stated.
#[verifier::external_body]
fn url_scheme(url: &str) -> (r: Option<String>)
    ensures
        opt_view(r) == spec_url_scheme(url@),
{
    match reqwest::Url::parse(url) {
        Ok(parsed) => Some(parsed.scheme().to_owned()),
        Err(_) => None,
    }
}

/// Why a page may not be opened, given the URL and the scheme it parsed to: only
/// `about:blank` and http(s) URLs are allowed.
pub open spec fn navigation_error(url: Seq<char>, scheme: Option<Seq<char>>) -> Option<Seq<char>> {
    if url == "about:blank"@ {
        None
    } else {
        match scheme {
            None => Some("invalid_arguments"@),
            Some(s) => if s == "http"@ || s == "https"@ { None } else { Some("computer_url_denied"@) },
        }
    }
}

/// Decides whether a URL whose parsed scheme is `scheme` may be opened.
pub fn check_navigation(url: &str, scheme: Option<&str>) -> (r: RuntimeResult<()>)
    ensures
        match navigation_error(url@, match scheme { Some(s) => Some(s@), None => None }) {
            None => r is Ok,
            Some(code) => r matches Err(e) && e.code@ == code,
        },
{
    if str_eq(url, "about:blank") {
        return Ok(());
    }
    match scheme {
        None => Err(RuntimeError::new("invalid_arguments", "URL must be an absolute http(s) URL")),
        Some(s) => {
            if str_eq(s, "http") || str_eq(s, "https") {
                Ok(())
            } else {
                Err(RuntimeError::new("computer_url_denied", "only http(s) URLs and about:blank are allowed"))
            }
        },
    }
}

/// Refuses navigation to anything but `about:blank` and http(s) URLs (local files and
/// scripts in particular).
pub fn validate_navigation_url(url: &str) -> (r: RuntimeResult<()>)
    ensures
        match navigation_error(url@, spec_url_scheme(url@)) {
            None => r is Ok,
            Some(code) => r matches Err(e) && e.code@ == code,
        },
{
    if str_eq(url, "about:blank") {
        return Ok(());
    }
    match url_scheme(url) {
        Some(s) => check_navigation(url, Some(s.as_str())),
        None => check_navigation(url, None),
    }
}

} // verus!
