//! UTF-8 at the edges of a read: how far bytes are valid, a character cut off by the end
//! of a buffer, a byte order mark at the start of a file, and where a byte range that
//! starts inside a character really begins.

use vstd::prelude::*;
use vstd::utf8::{
    decode_first_codepoint, is_continuation_byte, length_of_first_scalar, partial_valid_partial_invalid_utf8,
    partial_valid_utf8, partial_valid_utf8_extend, valid_first_scalar, valid_utf8,
};
use crate::error::{RuntimeError, RuntimeResult};
use crate::text::{push_decimal, extend_str, string_from_chars, utf8_str};

verus! {

/// Where the bytes of `b` stop being whole UTF-8 characters, scanning from `i`: the
/// offset `str::from_utf8` reports as `valid_up_to`.
pub open spec fn valid_up_to(b: Seq<u8>, i: int) -> int
    decreases b.len() - i,
{
    if i < 0 || i >= b.len() {
        b.len() as int
    } else if valid_first_scalar(b.subrange(i, b.len() as int)) {
        if length_of_first_scalar(b.subrange(i, b.len() as int)) >= 1 {
            valid_up_to(b, i + length_of_first_scalar(b.subrange(i, b.len() as int)))
        } else {
            i
        }
    } else {
        i
    }
}

/// How many bytes the character led by `b0` takes (0 for a byte that leads none).
pub open spec fn lead_width(b0: u8) -> int {
    if b0 <= 0x7f {
        1
    } else if 0xc2 <= b0 <= 0xdf {
        2
    } else if 0xe0 <= b0 <= 0xef {
        3
    } else if 0xf0 <= b0 <= 0xf4 {
        4
    } else {
        0
    }
}

/// The second byte of a character led by `b0` may be `b1`: a continuation byte, in the
/// narrower ranges that keep the character from being overlong, a surrogate, or past
/// U+10FFFF.
pub open spec fn second_byte_ok(b0: u8, b1: u8) -> bool {
    if b0 == 0xe0 {
        0xa0 <= b1 <= 0xbf
    } else if b0 == 0xed {
        0x80 <= b1 <= 0x9f
    } else if b0 == 0xf0 {
        0x90 <= b1 <= 0xbf
    } else if b0 == 0xf4 {
        0x80 <= b1 <= 0x8f
    } else {
        is_continuation_byte(b1)
    }
}

/// `t` is the start of a character that the end of the buffer cut off: what
/// `str::from_utf8` reports as an error without a length.
pub open spec fn cut_character(t: Seq<u8>) -> bool {
    &&& 1 <= t.len() < lead_width(t[0])
    &&& t.len() >= 2 ==> second_byte_ok(t[0], t[1])
    &&& t.len() >= 3 ==> is_continuation_byte(t[2])
}

proof fn lemma_valid_scans_to_end(b: Seq<u8>, i: int)
    requires
        0 <= i <= b.len(),
        valid_utf8(b.subrange(i, b.len() as int)),
    ensures
        valid_up_to(b, i) == b.len(),
    decreases b.len() - i,
{
    if i < b.len() {
        let t = b.subrange(i, b.len() as int);
        let k = length_of_first_scalar(t);
        assert(valid_first_scalar(t));
        assert(1 <= k <= t.len());
        assert(vstd::utf8::pop_first_scalar(t) =~= b.subrange(i + k, b.len() as int));
        lemma_valid_scans_to_end(b, i + k);
    }
}

/// Valid UTF-8 has nothing to drop.
pub proof fn lemma_valid_is_untrimmed(b: Seq<u8>)
    requires
        valid_utf8(b),
    ensures
        valid_up_to(b, 0) == b.len(),
        trimmed_tail(b) == Some(b),
{
    assert(b.subrange(0, b.len() as int) =~= b);
    lemma_valid_scans_to_end(b, 0);
}

/// The length of the character that starts at `b[i]`, or 0 when no valid one does.
pub fn first_scalar_len(b: &[u8], i: usize) -> (r: usize)
    requires
        i <= b@.len(),
    ensures
        r > 0 <==> valid_first_scalar(b@.subrange(i as int, b@.len() as int)),
        r > 0 ==> r == length_of_first_scalar(b@.subrange(i as int, b@.len() as int)),
{
    let ghost t = b@.subrange(i as int, b@.len() as int);
    let n = b.len() - i;
    if n == 0 {
        return 0;
    }
    let b0 = b[i];
    assert(t[0] == b0);
    if b0 <= 0x7f {
        let cp: u32 = (b0 & 0x7F) as u32;
        if !(0xD800 <= cp && cp <= 0xDFFF) {
            return 1;
        }
        return 0;
    }
    if 0xc0 <= b0 && b0 <= 0xdf {
        if n < 2 || !(0x80 <= b[i + 1] && b[i + 1] <= 0xbf) {
            return 0;
        }
        assert(t[1] == b[i + 1]);
        let cp: u32 = (((b0 & 0x1F) as u32) << 6) | ((b[i + 1] & 0x3f) as u32);
        assert(cp == decode_first_codepoint(t));
        if 0x80 <= cp && !(0xD800 <= cp && cp <= 0xDFFF) {
            return 2;
        }
        return 0;
    }
    if 0xe0 <= b0 && b0 <= 0xef {
        if n < 3 || !(0x80 <= b[i + 1] && b[i + 1] <= 0xbf) || !(0x80 <= b[i + 2] && b[i + 2] <= 0xbf) {
            return 0;
        }
        assert(t[1] == b[i + 1] && t[2] == b[i + 2]);
        let cp: u32 = (((b0 & 0x0F) as u32) << 12) | (((b[i + 1] & 0x3f) as u32) << 6) | ((b[i + 2] & 0x3f) as u32);
        assert(cp == decode_first_codepoint(t));
        if 0x800 <= cp && !(0xD800 <= cp && cp <= 0xDFFF) {
            return 3;
        }
        return 0;
    }
    if 0xf0 <= b0 && b0 <= 0xf7 {
        if n < 4 || !(0x80 <= b[i + 1] && b[i + 1] <= 0xbf) || !(0x80 <= b[i + 2] && b[i + 2] <= 0xbf)
            || !(0x80 <= b[i + 3] && b[i + 3] <= 0xbf) {
            return 0;
        }
        assert(t[1] == b[i + 1] && t[2] == b[i + 2] && t[3] == b[i + 3]);
        let cp: u32 = (((b0 & 0x07) as u32) << 18) | (((b[i + 1] & 0x3f) as u32) << 12) | (((b[i + 2] & 0x3f) as u32)
            << 6) | ((b[i + 3] & 0x3f) as u32);
        assert(cp == decode_first_codepoint(t));
        if 0x10000 <= cp && cp <= 0x10ffff && !(0xD800 <= cp && cp <= 0xDFFF) {
            return 4;
        }
        return 0;
    }
    0
}

/// How far `b` is valid UTF-8, as `valid_up_to` of `str::from_utf8`'s error tells.
pub fn utf8_valid_up_to(b: &[u8]) -> (r: usize)
    ensures
        r == valid_up_to(b@, 0),
        r <= b@.len(),
        valid_utf8(b@.subrange(0, r as int)),
        r == b@.len() <==> valid_utf8(b@),
{
    let mut i: usize = 0;
    proof {
        assert(b@.subrange(0, 0) =~= Seq::<u8>::empty());
    }
    while i < b.len()
        invariant
            i <= b@.len(),
            valid_up_to(b@, 0) == valid_up_to(b@, i as int),
            partial_valid_utf8(b@, i as int),
        ensures
            i <= b@.len(),
            valid_up_to(b@, 0) == valid_up_to(b@, i as int),
            partial_valid_utf8(b@, i as int),
            i < b@.len() ==> !valid_first_scalar(b@.subrange(i as int, b@.len() as int)),
        decreases b.len() - i,
    {
        let k = first_scalar_len(b, i);
        if k == 0 {
            break;
        }
        proof {
            partial_valid_utf8_extend(b@, i as int);
        }
        i = i + k;
    }
    proof {
        if i < b@.len() {
            let t = b@.subrange(i as int, b@.len() as int);
            assert(!valid_first_scalar(t));
            assert(!valid_utf8(t));
            partial_valid_partial_invalid_utf8(b@, i as int);
        } else {
            assert(b@.subrange(0, i as int) =~= b@);
        }
    }
    i
}

/// The character at the end of `t` was cut off by the end of the buffer.
pub fn is_cut_character(t: &[u8]) -> (r: bool)
    ensures
        r == cut_character(t@),
{
    if t.len() == 0 {
        return false;
    }
    let b0 = t[0];
    let width: usize = if b0 <= 0x7f {
        1
    } else if 0xc2 <= b0 && b0 <= 0xdf {
        2
    } else if 0xe0 <= b0 && b0 <= 0xef {
        3
    } else if 0xf0 <= b0 && b0 <= 0xf4 {
        4
    } else {
        0
    };
    if t.len() >= width {
        return false;
    }
    if t.len() >= 2 {
        let b1 = t[1];
        let ok = if b0 == 0xe0 {
            0xa0 <= b1 && b1 <= 0xbf
        } else if b0 == 0xed {
            0x80 <= b1 && b1 <= 0x9f
        } else if b0 == 0xf0 {
            0x90 <= b1 && b1 <= 0xbf
        } else if b0 == 0xf4 {
            0x80 <= b1 && b1 <= 0x8f
        } else {
            0x80 <= b1 && b1 <= 0xbf
        };
        if !ok {
            return false;
        }
    }
    if t.len() >= 3 && !(0x80 <= t[2] && t[2] <= 0xbf) {
        return false;
    }
    true
}

/// The bytes a buffer keeps once a character cut off at its end is dropped, or `None`
/// when the bytes are not UTF-8 for another reason.
pub open spec fn trimmed_tail(b: Seq<u8>) -> Option<Seq<u8>> {
    let r = valid_up_to(b, 0);
    if r >= b.len() {
        Some(b)
    } else if cut_character(b.subrange(r, b.len() as int)) {
        Some(b.subrange(0, r))
    } else {
        None
    }
}

/// Drops a character cut off at the end of the bytes; any other invalid UTF-8 is an
/// error, which leaves the bytes as they were.
pub fn trim_incomplete_utf8_tail(bytes: &mut Vec<u8>) -> (r: RuntimeResult<()>)
    ensures
        match trimmed_tail(old(bytes)@) {
            Some(t) => r is Ok && final(bytes)@ == t,
            None => (r matches Err(e) && e.code@ == "invalid_utf8"@) && final(bytes)@ == old(bytes)@,
        },
        r is Ok ==> valid_utf8(final(bytes)@),
        final(bytes)@.len() <= old(bytes)@.len(),
{
    let r = utf8_valid_up_to(bytes.as_slice());
    if r == bytes.len() {
        return Ok(());
    }
    let mut tail: Vec<u8> = Vec::new();
    let mut i: usize = r;
    while i < bytes.len()
        invariant
            r <= i <= bytes@.len(),
            tail@ == bytes@.subrange(r as int, i as int),
        decreases bytes.len() - i,
    {
        tail.push(bytes[i]);
        i = i + 1;
        assert(tail@ =~= bytes@.subrange(r as int, i as int));
    }
    if is_cut_character(tail.as_slice()) {
        bytes.truncate(r);
        return Ok(());
    }
    let mut message: Vec<char> = Vec::new();
    extend_str(&mut message, "file contains invalid UTF-8 near byte offset ");
    push_decimal(&mut message, r as u64);
    let text = string_from_chars(message.as_slice());
    Err(RuntimeError::new("invalid_utf8", text.as_str()))
}

/// The bytes of a byte order mark.
pub open spec fn starts_with_bom(b: Seq<u8>) -> bool {
    b.len() >= 3 && b[0] == 0xef && b[1] == 0xbb && b[2] == 0xbf
}

/// The text of bytes read from a file: a character cut off at the end is dropped, and a
/// byte order mark is dropped and reported when the bytes start the file.
pub fn decode_utf8(bytes: Vec<u8>, at_file_start: bool) -> (r: RuntimeResult<(bool, String)>)
    ensures
        match trimmed_tail(bytes@) {
            Some(t) => {
                let bom = at_file_start && starts_with_bom(t);
                let rest = if bom { t.subrange(3, t.len() as int) } else { t };
                r matches Ok((b, s)) && b == bom && valid_utf8(rest) && s@ == vstd::utf8::decode_utf8(rest)
            },
            None => r matches Err(e) && e.code@ == "invalid_utf8"@,
        },
{
    let mut bytes = bytes;
    trim_incomplete_utf8_tail(&mut bytes)?;
    let ghost t = bytes@;
    let bom = at_file_start && bytes.len() >= 3 && bytes[0] == 0xef && bytes[1] == 0xbb && bytes[2] == 0xbf;
    let mut rest: Vec<u8> = Vec::new();
    let mut i: usize = if bom { 3 } else { 0 };
    let start = i;
    while i < bytes.len()
        invariant
            start <= i <= bytes@.len(),
            rest@ == bytes@.subrange(start as int, i as int),
        decreases bytes.len() - i,
    {
        rest.push(bytes[i]);
        i = i + 1;
        assert(rest@ =~= bytes@.subrange(start as int, i as int));
    }
    proof {
        if bom {
            assert(valid_first_scalar(t));
            assert(length_of_first_scalar(t) == 3);
            assert(rest@ =~= vstd::utf8::pop_first_scalar(t));
        } else {
            assert(rest@ =~= t);
        }
    }
    match utf8_str(rest.as_slice()) {
        Some(s) => Ok((bom, s.to_owned())),
        None => Err(RuntimeError::new("invalid_utf8", "file contains invalid UTF-8 near byte offset 0")),
    }
}

} // verus!
