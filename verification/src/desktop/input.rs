//! The input events a desktop action becomes: virtual keys, mouse button flags, drag
//! paths and scroll wheel data. The caller sends the events to the window.

use vstd::prelude::*;
use super::DesktopMouseButton;
use crate::error::{RuntimeError, RuntimeResult};
use crate::text::{chars_of, concat_str, eq_str, lower_chars, lower_seq, trim_chars, trim_seq};
use super::policy::{forbidden_key, is_forbidden_key};

verus! {

pub const VK_F1: u16 = 0x70;

/// An ASCII letter or digit.
pub open spec fn ascii_alnum(c: char) -> bool {
    ('0' <= c && c <= '9') || ('a' <= c && c <= 'z') || ('A' <= c && c <= 'Z')
}

/// An ASCII decimal digit.
pub open spec fn ascii_digit(c: char) -> bool {
    '0' <= c && c <= '9'
}

/// The value of a string of decimal digits.
pub open spec fn digits_value(d: Seq<char>) -> int
    decreases d.len(),
{
    if d.len() == 0 {
        0
    } else {
        digits_value(d.drop_last()) * 10 + (d.last() as int - '0' as int)
    }
}

/// The digits of a number: the text without one leading `+`.
pub open spec fn unsigned_digits(s: Seq<char>) -> Seq<char> {
    if s.len() > 0 && s[0] == '+' { s.drop_first() } else { s }
}

/// Every character is a decimal digit.
pub open spec fn all_digits(d: Seq<char>) -> bool {
    forall|i: int| 0 <= i < d.len() ==> ascii_digit(#[trigger] d[i])
}

/// `str::parse::<u16>`: an optional `+` and one or more decimal digits, at most 65535.
pub open spec fn parse_u16_spec(s: Seq<char>) -> Option<int> {
    let d = unsigned_digits(s);
    if d.len() == 0 || !all_digits(d) {
        None
    } else if digits_value(d) > 65535 {
        None
    } else {
        Some(digits_value(d))
    }
}

proof fn lemma_digits_value_grows(d: Seq<char>, k: int)
    requires
        0 <= k <= d.len(),
        forall|i: int| 0 <= i < d.len() ==> ascii_digit(#[trigger] d[i]),
    ensures
        0 <= digits_value(d.subrange(0, k)) <= digits_value(d),
    decreases d.len() - k,
{
    if k == d.len() {
        assert(d.subrange(0, k) =~= d);
        lemma_digits_value_nonneg(d);
    } else {
        lemma_digits_value_grows(d, k + 1);
        assert(d.subrange(0, k + 1).drop_last() =~= d.subrange(0, k));
        lemma_digits_value_nonneg(d.subrange(0, k));
    }
}

proof fn lemma_digits_value_nonneg(d: Seq<char>)
    requires
        forall|i: int| 0 <= i < d.len() ==> ascii_digit(#[trigger] d[i]),
    ensures
        digits_value(d) >= 0,
    decreases d.len(),
{
    if d.len() > 0 {
        lemma_digits_value_nonneg(d.drop_last());
    }
}

/// Parses a decimal `u16` as `str::parse` does.
pub fn parse_u16(s: &[char]) -> (r: Option<u16>)
    ensures
        match r {
            Some(v) => parse_u16_spec(s@) == Some(v as int),
            None => parse_u16_spec(s@) is None,
        },
{
    let start: usize = if s.len() > 0 && s[0] == '+' { 1 } else { 0 };
    let ghost d = unsigned_digits(s@);
    assert(d =~= s@.subrange(start as int, s@.len() as int));
    if s.len() == start {
        return None;
    }
    let mut i: usize = start;
    while i < s.len()
        invariant
            start <= i <= s@.len(),
            d =~= s@.subrange(start as int, s@.len() as int),
            d == unsigned_digits(s@),
            forall|k: int| start <= k < i ==> ascii_digit(#[trigger] s@[k]),
        decreases s.len() - i,
    {
        if !('0' <= s[i] && s[i] <= '9') {
            assert(d[i - start] == s@[i as int]);
            assert(!ascii_digit(d[i - start]));
            assert(!(forall|k: int| 0 <= k < d.len() ==> ascii_digit(#[trigger] d[k])));
            assert(!all_digits(d));
            return None;
        }
        i = i + 1;
    }
    assert(forall|k: int| 0 <= k < d.len() ==> ascii_digit(#[trigger] d[k])) by {
        assert forall|k: int| 0 <= k < d.len() implies ascii_digit(#[trigger] d[k]) by {
            assert(d[k] == s@[k + start]);
        }
    }
    let mut value: u32 = 0;
    let mut j: usize = start;
    while j < s.len()
        invariant
            start <= j <= s@.len(),
            d =~= s@.subrange(start as int, s@.len() as int),
            d == unsigned_digits(s@),
            forall|k: int| 0 <= k < d.len() ==> ascii_digit(#[trigger] d[k]),
            value == digits_value(d.subrange(0, j - start)),
            value <= 65535,
        decreases s.len() - j,
    {
        assert(d[j - start] == s@[j as int]);
        assert(ascii_digit(d[j - start]));
        let digit = (s[j] as u32) - ('0' as u32);
        assert(d.subrange(0, j + 1 - start).drop_last() =~= d.subrange(0, j - start));
        assert(d.subrange(0, j + 1 - start).last() == s@[j as int]);
        if value > 6553 || value * 10 + digit > 65535 {
            proof {
                lemma_digits_value_grows(d, j + 1 - start);
                assert(digits_value(d.subrange(0, j + 1 - start)) == value * 10 + digit);
            }
            return None;
        }
        value = value * 10 + digit;
        j = j + 1;
    }
    assert(d.subrange(0, d.len() as int) =~= d);
    Some(value as u16)
}

/// The Windows virtual key of a key name (trimmed, in any ASCII case), if it has one.
pub open spec fn vk_spec(k: Seq<char>) -> Option<u16> {
    let n = lower_seq(trim_seq(k));
    if n == "ctrl"@ || n == "control"@ || n == "control_l"@ {
        Some(0x11u16)
    } else if n == "shift"@ || n == "shift_l"@ {
        Some(0x10u16)
    } else if n == "alt"@ || n == "menu"@ || n == "alt_l"@ {
        Some(0x12u16)
    } else if n == "enter"@ || n == "return"@ {
        Some(0x0Du16)
    } else if n == "tab"@ {
        Some(0x09u16)
    } else if n == "backspace"@ {
        Some(0x08u16)
    } else if n == "delete"@ {
        Some(0x2Eu16)
    } else if n == "space"@ {
        Some(0x20u16)
    } else if n == "left"@ || n == "arrowleft"@ {
        Some(0x25u16)
    } else if n == "right"@ || n == "arrowright"@ {
        Some(0x27u16)
    } else if n == "up"@ || n == "arrowup"@ {
        Some(0x26u16)
    } else if n == "down"@ || n == "arrowdown"@ {
        Some(0x28u16)
    } else if n == "home"@ {
        Some(0x24u16)
    } else if n == "end"@ {
        Some(0x23u16)
    } else if n == "pageup"@ {
        Some(0x21u16)
    } else if n == "pagedown"@ {
        Some(0x22u16)
    } else if n.len() == 1 && ascii_alnum(n[0]) {
        Some(crate::text::upper_char(n[0]) as u16)
    } else if n.len() > 0 && n[0] == 'f' {
        match parse_u16_spec(n.drop_first()) {
            Some(v) => if 1 <= v <= 12 { Some((VK_F1 + v - 1) as u16) } else { None },
            None => None,
        }
    } else {
        None
    }
}

/// Which key a normalized key name denotes, whatever its spelling: a named key (by its
/// place in the list Control, Shift, Alt, Enter, Tab, Backspace, Delete, Space, Left,
/// Right, Up, Down, Home, End, Page Up, Page Down), a letter or digit (by its upper-case
/// character), or a function key F1 to F12 (by its number).
pub open spec fn key_identity(n: Seq<char>) -> Option<(int, int)> {
    if n == "ctrl"@ || n == "control"@ || n == "control_l"@ {
        Some((0int, 1int))
    } else if n == "shift"@ || n == "shift_l"@ {
        Some((0int, 2int))
    } else if n == "alt"@ || n == "menu"@ || n == "alt_l"@ {
        Some((0int, 3int))
    } else if n == "enter"@ || n == "return"@ {
        Some((0int, 4int))
    } else if n == "tab"@ {
        Some((0int, 5int))
    } else if n == "backspace"@ {
        Some((0int, 6int))
    } else if n == "delete"@ {
        Some((0int, 7int))
    } else if n == "space"@ {
        Some((0int, 8int))
    } else if n == "left"@ || n == "arrowleft"@ {
        Some((0int, 9int))
    } else if n == "right"@ || n == "arrowright"@ {
        Some((0int, 10int))
    } else if n == "up"@ || n == "arrowup"@ {
        Some((0int, 11int))
    } else if n == "down"@ || n == "arrowdown"@ {
        Some((0int, 12int))
    } else if n == "home"@ {
        Some((0int, 13int))
    } else if n == "end"@ {
        Some((0int, 14int))
    } else if n == "pageup"@ {
        Some((0int, 15int))
    } else if n == "pagedown"@ {
        Some((0int, 16int))
    } else if n.len() == 1 && ascii_alnum(n[0]) {
        Some((1int, crate::text::upper_char(n[0]) as int))
    } else if n.len() > 0 && n[0] == 'f' {
        match parse_u16_spec(n.drop_first()) {
            Some(v) => if 1 <= v <= 12 { Some((2int, v)) } else { None },
            None => None,
        }
    } else {
        None
    }
}

/// The Windows virtual-key code of a key: `VK_CONTROL`, `VK_SHIFT`, `VK_MENU`,
/// `VK_RETURN`, `VK_TAB`, `VK_BACK`, `VK_DELETE`, `VK_SPACE`, `VK_LEFT`, `VK_RIGHT`,
/// `VK_UP`, `VK_DOWN`, `VK_HOME`, `VK_END`, `VK_PRIOR`, `VK_NEXT` for the named keys; the
/// upper-case character's code for a letter or digit; `VK_F1` to `VK_F12` (0x70 to 0x7B).
pub open spec fn windows_virtual_key(key: (int, int)) -> int {
    let (kind, id) = key;
    if kind == 0 {
        if id == 1 {
            0x11
        } else if id == 2 {
            0x10
        } else if id == 3 {
            0x12
        } else if id == 4 {
            0x0D
        } else if id == 5 {
            0x09
        } else if id == 6 {
            0x08
        } else if id == 7 {
            0x2E
        } else if id == 8 {
            0x20
        } else if id == 9 {
            0x25
        } else if id == 10 {
            0x27
        } else if id == 11 {
            0x26
        } else if id == 12 {
            0x28
        } else if id == 13 {
            0x24
        } else if id == 14 {
            0x23
        } else if id == 15 {
            0x21
        } else if id == 16 {
            0x22
        } else {
            0
        }
    } else if kind == 1 {
        id
    } else {
        0x70 + id - 1
    }
}

/// A key name has a virtual key exactly when it denotes a key, and it is that key's
/// Windows virtual-key code; two names get the same virtual key only when they denote the
/// same key (so Delete is never sent as Backspace).
pub proof fn lemma_virtual_keys_are_the_windows_codes(a: Seq<char>, b: Seq<char>)
    ensures
        vk_spec(a) is Some <==> key_identity(lower_seq(trim_seq(a))) is Some,
        vk_spec(a) matches Some(v) ==> v as int == windows_virtual_key(key_identity(lower_seq(trim_seq(a)))->0),
        vk_spec(a) is Some && vk_spec(a) == vk_spec(b) ==> key_identity(lower_seq(trim_seq(a))) == key_identity(lower_seq(trim_seq(b))),
{
    lemma_vk_code(a);
    lemma_vk_code(b);
}

proof fn lemma_vk_code(a: Seq<char>)
    ensures
        vk_spec(a) is Some <==> key_identity(lower_seq(trim_seq(a))) is Some,
        vk_spec(a) matches Some(v) ==> v as int == windows_virtual_key(key_identity(lower_seq(trim_seq(a)))->0),
        key_identity(lower_seq(trim_seq(a))) matches Some(k) ==> (k.0 == 0 ==> 1 <= k.1 <= 16)
            && (k.0 == 1 ==> (0x30 <= k.1 <= 0x39 || 0x41 <= k.1 <= 0x5A))
            && (k.0 == 2 ==> 1 <= k.1 <= 12)
            && (k.0 == 0 || k.0 == 1 || k.0 == 2),
{
    let n = lower_seq(trim_seq(a));
    if n.len() == 1 && ascii_alnum(n[0]) {
        let c = n[0];
        if 'a' <= c && c <= 'z' {
            let u = ((c as u32) - 32) as u32;
            vstd::utf8::char_u32_cast(crate::text::upper_char(c), u);
        }
    }
}

/// The virtual key of a key name, or `invalid_arguments` for a name without one.
pub fn virtual_key(key: &str) -> (r: RuntimeResult<u16>)
    ensures
        match vk_spec(key@) {
            Some(v) => r == Ok::<u16, RuntimeError>(v),
            None => r matches Err(e) && e.code@ == "invalid_arguments"@,
        },
{
    let trimmed = trim_chars(chars_of(key).as_slice());
    let n = lower_chars(trimmed.as_slice());
    let s = n.as_slice();
    if eq_str(s, "ctrl") || eq_str(s, "control") || eq_str(s, "control_l") {
        Ok(0x11)
    } else if eq_str(s, "shift") || eq_str(s, "shift_l") {
        Ok(0x10)
    } else if eq_str(s, "alt") || eq_str(s, "menu") || eq_str(s, "alt_l") {
        Ok(0x12)
    } else if eq_str(s, "enter") || eq_str(s, "return") {
        Ok(0x0D)
    } else if eq_str(s, "tab") {
        Ok(0x09)
    } else if eq_str(s, "backspace") {
        Ok(0x08)
    } else if eq_str(s, "delete") {
        Ok(0x2E)
    } else if eq_str(s, "space") {
        Ok(0x20)
    } else if eq_str(s, "left") || eq_str(s, "arrowleft") {
        Ok(0x25)
    } else if eq_str(s, "right") || eq_str(s, "arrowright") {
        Ok(0x27)
    } else if eq_str(s, "up") || eq_str(s, "arrowup") {
        Ok(0x26)
    } else if eq_str(s, "down") || eq_str(s, "arrowdown") {
        Ok(0x28)
    } else if eq_str(s, "home") {
        Ok(0x24)
    } else if eq_str(s, "end") {
        Ok(0x23)
    } else if eq_str(s, "pageup") {
        Ok(0x21)
    } else if eq_str(s, "pagedown") {
        Ok(0x22)
    } else if n.len() == 1 && (('0' <= n[0] && n[0] <= '9') || ('a' <= n[0] && n[0] <= 'z') || ('A' <= n[0] && n[0] <= 'Z')) {
        let c = crate::text::ascii_upper_char(n[0]);
        Ok(c as u16)
    } else if n.len() > 0 && n[0] == 'f' {
        let mut rest: Vec<char> = Vec::new();
        let mut i: usize = 1;
        while i < n.len()
            invariant
                1 <= i <= n@.len(),
                rest@ == n@.subrange(1, i as int),
            decreases n.len() - i,
        {
            rest.push(n[i]);
            i = i + 1;
        }
        assert(rest@ =~= n@.drop_first());
        match parse_u16(rest.as_slice()) {
            Some(v) => {
                if 1 <= v && v <= 12 {
                    Ok(VK_F1 + v - 1)
                } else {
                    Err(unknown_key(key))
                }
            },
            None => Err(unknown_key(key)),
        }
    } else {
        Err(unknown_key(key))
    }
}

fn unknown_key(key: &str) -> (e: RuntimeError)
    ensures
        e.code@ == "invalid_arguments"@,
        e.message@ == "unsupported key name: "@ + key@,
{
    let message = concat_str("unsupported key name: ", key);
    RuntimeError::new("invalid_arguments", message.as_str())
}

/// The key events of a keypress: every key down in order, then every key up in reverse
/// order. Shortcuts with a Windows/Meta/Command key are refused, and so are unknown keys.
pub open spec fn keypress_spec(keys: Seq<String>) -> Result<Seq<(u16, bool)>, Seq<char>> {
    if exists|i: int| 0 <= i < keys.len() && forbidden_key((#[trigger] keys[i])@) {
        Err("desktop_key_denied"@)
    } else if exists|i: int| 0 <= i < keys.len() && (#[trigger] vk_spec(keys[i]@)) is None {
        Err("invalid_arguments"@)
    } else {
        let vks = Seq::new(keys.len(), |i: int| vk_spec(keys[i]@)->0);
        Ok(Seq::new(keys.len(), |i: int| (vks[i], false)) + Seq::new(keys.len(), |i: int| (vks[keys.len() - 1 - i], true)))
    }
}

/// The key events of a keypress, as (virtual key, key up) pairs.
pub fn keypress_inputs(keys: &Vec<String>) -> (r: RuntimeResult<Vec<(u16, bool)>>)
    ensures
        match keypress_spec(keys@) {
            Ok(events) => r matches Ok(v) && v@ == events,
            Err(code) => r matches Err(e) && e.code@ == code,
        },
{
    let mut i: usize = 0;
    while i < keys.len()
        invariant
            i <= keys@.len(),
            forall|k: int| 0 <= k < i ==> !forbidden_key((#[trigger] keys@[k])@),
        decreases keys.len() - i,
    {
        if is_forbidden_key(keys[i].as_str()) {
            assert(forbidden_key(keys@[i as int]@));
            return Err(RuntimeError::new("desktop_key_denied", "Windows/Meta/Command shortcuts are not allowed"));
        }
        i = i + 1;
    }
    let mut vks: Vec<u16> = Vec::new();
    let mut j: usize = 0;
    while j < keys.len()
        invariant
            j <= keys@.len(),
            forall|k: int| 0 <= k < keys@.len() ==> !forbidden_key((#[trigger] keys@[k])@),
            vks@.len() == j,
            forall|k: int| 0 <= k < j ==> (#[trigger] vk_spec(keys@[k]@)) == Some(vks@[k]),
        decreases keys.len() - j,
    {
        let vk = match virtual_key(keys[j].as_str()) {
            Ok(v) => v,
            Err(e) => {
                assert(vk_spec(keys@[j as int]@) is None);
                assert(exists|i: int| 0 <= i < keys@.len() && (#[trigger] vk_spec(keys@[i]@)) is None);
                assert(!(exists|i: int| 0 <= i < keys@.len() && forbidden_key((#[trigger] keys@[i])@)));
                return Err(e);
            },
        };
        vks.push(vk);
        j = j + 1;
    }
    let n = vks.len();
    let mut events: Vec<(u16, bool)> = Vec::new();
    let mut a: usize = 0;
    while a < n
        invariant
            n == vks@.len(),
            a <= n,
            events@ == Seq::new(a as nat, |i: int| (vks@[i], false)),
        decreases n - a,
    {
        events.push((vks[a], false));
        a = a + 1;
        assert(events@ =~= Seq::new(a as nat, |i: int| (vks@[i], false)));
    }
    let mut b: usize = 0;
    while b < n
        invariant
            n == vks@.len(),
            b <= n,
            events@ == Seq::new(n as nat, |i: int| (vks@[i], false)) + Seq::new(b as nat, |i: int| (vks@[n - 1 - i], true)),
        decreases n - b,
    {
        events.push((vks[n - 1 - b], true));
        b = b + 1;
        assert(events@ =~= Seq::new(n as nat, |i: int| (vks@[i], false)) + Seq::new(b as nat, |i: int| (vks@[n - 1 - i], true)));
    }
    proof {
        let spec_vks = Seq::new(keys@.len(), |i: int| vk_spec(keys@[i]@)->0);
        assert(spec_vks =~= vks@);
    }
    Ok(events)
}

/// The Windows mouse event flags (button down, button up) of a button.
pub fn mouse_flags(button: DesktopMouseButton) -> (r: (u32, u32))
    ensures
        r == (match button {
            DesktopMouseButton::Left => (0x0002u32, 0x0004u32),
            DesktopMouseButton::Right => (0x0008u32, 0x0010u32),
            DesktopMouseButton::Middle => (0x0020u32, 0x0040u32),
        }),
{
    match button {
        DesktopMouseButton::Left => (0x0002, 0x0004),
        DesktopMouseButton::Right => (0x0008, 0x0010),
        DesktopMouseButton::Middle => (0x0020, 0x0040),
    }
}

/// The number of intermediate moves of a drag: one per 16 ms, between 1 and 240.
pub fn drag_steps(duration_ms: u64) -> (r: u64)
    ensures
        r == (if duration_ms / 16 < 1 { 1 } else if duration_ms / 16 > 240 { 240 } else { duration_ms / 16 }),
        1 <= r <= 240,
{
    let steps = duration_ms / 16;
    if steps < 1 { 1 } else if steps > 240 { 240 } else { steps }
}

/// Integer division rounding toward zero, as Rust divides signed integers.
pub open spec fn trunc_div(a: int, b: int) -> int {
    if a >= 0 { a / b } else { -((-a) / b) }
}

/// The position `step` of `steps` along the way from `start` to `end`, rounded toward the
/// start and kept within `i32`.
pub open spec fn interpolate_spec(start: i32, end: i32, step: u64, steps: u64) -> i32 {
    let delta = end - start;
    let product = delta * step;
    let sat = if product > i64::MAX { i64::MAX as int } else if product < i64::MIN { i64::MIN as int } else { product };
    let value = start + trunc_div(sat, steps as int);
    if value < i32::MIN { i32::MIN } else if value > i32::MAX { i32::MAX } else { value as i32 }
}

/// A point on a drag path.
pub fn interpolate(start: i32, end: i32, step: u64, steps: u64) -> (r: i32)
    requires
        steps > 0,
        step <= i64::MAX,
        steps <= i64::MAX,
    ensures
        r == interpolate_spec(start, end, step, steps),
{
    let delta: i128 = end as i128 - start as i128;
    assert(-0x1_0000_0000 <= delta <= 0x1_0000_0000);
    assert(-0x1_0000_0000 * 0x7fff_ffff_ffff_ffff <= delta * step <= 0x1_0000_0000 * 0x7fff_ffff_ffff_ffff) by (nonlinear_arith)
        requires
            -0x1_0000_0000 <= delta <= 0x1_0000_0000,
            0 <= step <= 0x7fff_ffff_ffff_ffff;
    let product: i128 = delta * step as i128;
    let sat: i128 = if product > i64::MAX as i128 { i64::MAX as i128 } else if product < i64::MIN as i128 { i64::MIN as i128 } else { product };
    let quotient: i128 = if sat >= 0 { sat / steps as i128 } else { -((-sat) / steps as i128) };
    let value: i128 = start as i128 + quotient;
    if value < i32::MIN as i128 { i32::MIN } else if value > i32::MAX as i128 { i32::MAX } else { value as i32 }
}

fn clamp_i32(v: i64) -> (r: i32)
    ensures
        r == (if v > i32::MAX { i32::MAX as int } else if v < i32::MIN { i32::MIN as int } else { v as int }),
{
    if v > i32::MAX as i64 { i32::MAX } else if v < i32::MIN as i64 { i32::MIN } else { v as i32 }
}

/// Where a cursor move to window point (x, y) lands on screen, for a window with the given
/// screen rectangle; points outside the window are refused.
pub fn move_target(left: i32, top: i32, right: i32, bottom: i32, x: i32, y: i32) -> (r: RuntimeResult<(i32, i32)>)
    ensures
        ({
            let width = if right - left > i32::MAX { i32::MAX as int } else if right - left < i32::MIN { i32::MIN as int } else { right - left };
            let height = if bottom - top > i32::MAX { i32::MAX as int } else if bottom - top < i32::MIN { i32::MIN as int } else { bottom - top };
            if x < 0 || y < 0 || x >= width || y >= height {
                r matches Err(e) && e.code@ == "invalid_arguments"@
            } else {
                r matches Ok(p) && p.0 == (if left + x > i32::MAX { i32::MAX as int } else { left + x })
                    && p.1 == (if top + y > i32::MAX { i32::MAX as int } else { top + y })
            }
        }),
{
    let width = clamp_i32(right as i64 - left as i64);
    let height = clamp_i32(bottom as i64 - top as i64);
    if x < 0 || y < 0 || x >= width || y >= height {
        return Err(RuntimeError::new("invalid_arguments", "input coordinates are outside the target window"));
    }
    Ok((clamp_i32(left as i64 + x as i64), clamp_i32(top as i64 + y as i64)))
}

/// The wheel events of a scroll, as (flags, data): vertical first (inverted, as the
/// wheel counts), then horizontal; a zero delta sends nothing.
pub fn scroll_inputs(delta_x: i32, delta_y: i32) -> (r: Vec<(u32, i32)>)
    ensures
        r@ == (if delta_y != 0 { seq![(0x0800u32, if delta_y == i32::MIN { i32::MAX } else { (-delta_y) as i32 })] } else { Seq::empty() })
            + (if delta_x != 0 { seq![(0x1000u32, delta_x)] } else { Seq::empty() }),
{
    let mut inputs: Vec<(u32, i32)> = Vec::new();
    if delta_y != 0 {
        let inverted = if delta_y == i32::MIN { i32::MAX } else { -delta_y };
        inputs.push((0x0800, inverted));
    }
    if delta_x != 0 {
        inputs.push((0x1000, delta_x));
    }
    assert(inputs@ =~= (if delta_y != 0 { seq![(0x0800u32, if delta_y == i32::MIN { i32::MAX } else { (-delta_y) as i32 })] } else { Seq::empty() })
        + (if delta_x != 0 { seq![(0x1000u32, delta_x)] } else { Seq::empty() }));
    inputs
}

} // verus!
