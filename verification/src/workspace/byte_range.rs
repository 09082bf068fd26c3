//! Reading a range of bytes from a text file as UTF-8 text. A range that starts inside a
//! character starts after it instead; at most the output limit is kept, without a
//! character cut off at its end. The file itself is read by the caller, in the steps
//! these functions name.

use vstd::prelude::*;
use vstd::utf8::{is_continuation_byte, valid_utf8};
use crate::budget::sat_sub;
use crate::error::{RuntimeError, RuntimeResult};
use crate::text::utf8_str;
use crate::utf8::{decode_utf8, starts_with_bom, trimmed_tail};
use crate::workspace::read::{ending_kind, endings_from, line_ending_kind, line_endings};

verus! {

/// The width `utf8_width` gives the character a byte leads, if it leads one.
pub open spec fn utf8_width_spec(b: u8) -> Option<int> {
    if b <= 0x7f {
        Some(1)
    } else if 0xc2 <= b <= 0xdf {
        Some(2)
    } else if 0xe0 <= b <= 0xef {
        Some(3)
    } else if 0xf0 <= b <= 0xf4 {
        Some(4)
    } else {
        None
    }
}

/// The width of the character the byte leads, if it leads one.
pub fn utf8_width(b: u8) -> (r: Option<usize>)
    ensures
        match utf8_width_spec(b) {
            Some(w) => r == Some(w as usize),
            None => r is None,
        },
{
    if b <= 0x7f {
        Some(1)
    } else if 0xc2 <= b && b <= 0xdf {
        Some(2)
    } else if 0xe0 <= b && b <= 0xef {
        Some(3)
    } else if 0xf0 <= b && b <= 0xf4 {
        Some(4)
    } else {
        None
    }
}

/// A range starting at the file's start or end needs no look at the bytes around it.
pub fn needs_boundary_check(start: u64, file_size: u64) -> (r: bool)
    ensures
        r == !(start == 0 || start == file_size),
{
    !(start == 0 || start == file_size)
}

/// After the byte at `start` was read (`None` when there was none): the range starts
/// there, with the bytes read so far, unless that byte continues a character.
pub fn start_after_first_byte(start: u64, current: Option<u8>) -> (r: Option<(u64, u64)>)
    ensures
        match current {
            None => r == Some((start, 0u64)),
            Some(b) => if is_continuation_byte(b) { r is None } else { r == Some((start, 1u64)) },
        },
{
    match current {
        None => Some((start, 0)),
        Some(b) => if 0x80 <= b && b <= 0xbf { None } else { Some((start, 1)) },
    }
}

/// The bytes to look at around a start inside a character: from up to three before it to
/// up to four from it, within the file.
pub fn probe_window(start: u64, file_size: u64) -> (r: (u64, usize))
    requires
        0 < start < file_size,
    ensures
        r.0 == sat_sub(start, 3),
        r.1 == (if file_size - start < 4 { file_size as int } else { start + 4 }) - sat_sub(start, 3),
        r.1 <= 7,
{
    let probe_start = if start < 3 { 0 } else { start - 3 };
    let end = if file_size - start < 4 { file_size } else { start + 4 };
    (probe_start, (end - probe_start) as usize)
}

/// The last byte before `j`, from `lo` on, that does not continue a character.
pub open spec fn lead_before(p: Seq<u8>, lo: int, j: int) -> Option<int>
    decreases j - lo,
{
    if j <= lo {
        None
    } else if !is_continuation_byte(p[j - 1]) {
        Some(j - 1)
    } else {
        lead_before(p, lo, j - 1)
    }
}

/// Where a range that starts at `start`, inside a character, really starts, found in the
/// bytes `probe` read from `probe_start`: after the character the start falls in, with
/// the bytes read to find it. It is an error when no character leads within three bytes
/// before the start or the bytes around it are not one valid character.
pub open spec fn start_from_probe_spec(start: u64, probe_start: u64, p: Seq<u8>) -> Result<(u64, u64), ()> {
    let local = start - probe_start;
    let lo = if local < 3 { 0 } else { local - 3 };
    match lead_before(p, lo, local) {
        None => Err(()),
        Some(lead) => match utf8_width_spec(p[lead]) {
            None => Err(()),
            Some(w) => {
                let end = lead + w;
                if end > p.len() || !(lead < local && local < end) {
                    Err(())
                } else if !valid_utf8(p.subrange(lead, end)) {
                    Err(())
                } else {
                    Ok(((probe_start + end) as u64, (1 + p.len()) as u64))
                }
            },
        },
    }
}

/// Finds where a range that starts inside a character really starts.
pub fn start_from_probe(start: u64, probe_start: u64, probe: &[u8]) -> (r: RuntimeResult<(u64, u64)>)
    requires
        probe_start <= start <= probe_start + 3,
        probe@.len() >= start - probe_start,
        probe@.len() <= 7,
        start + 7 <= u64::MAX,
    ensures
        match start_from_probe_spec(start, probe_start, probe@) {
            Ok(v) => r == Ok::<(u64, u64), RuntimeError>(v),
            Err(_) => r matches Err(e) && e.code@ == "invalid_utf8"@,
        },
{
    let local = (start - probe_start) as usize;
    let lo: usize = if local < 3 { 0 } else { local - 3 };
    let mut j = local;
    while j > lo && 0x80 <= probe[j - 1] && probe[j - 1] <= 0xbf
        invariant
            lo <= j <= local <= probe@.len(),
            lead_before(probe@, lo as int, local as int) == lead_before(probe@, lo as int, j as int),
        decreases j,
    {
        j = j - 1;
    }
    if j == lo {
        return Err(RuntimeError::new("invalid_utf8", "byte range starts at an invalid UTF-8 continuation byte"));
    }
    let lead = j - 1;
    let width = match utf8_width(probe[lead]) {
        Some(w) => w,
        None => {
            return Err(RuntimeError::new("invalid_utf8", "byte range starts inside an invalid UTF-8 sequence"));
        },
    };
    let end = lead + width;
    if end > probe.len() || !(lead < local && local < end) {
        return Err(RuntimeError::new("invalid_utf8", "byte range starts at an invalid UTF-8 continuation byte"));
    }
    let mut scalar: Vec<u8> = Vec::new();
    let mut i = lead;
    while i < end
        invariant
            lead <= i <= end <= probe@.len(),
            scalar@ == probe@.subrange(lead as int, i as int),
        decreases end - i,
    {
        scalar.push(probe[i]);
        i = i + 1;
        assert(scalar@ =~= probe@.subrange(lead as int, i as int));
    }
    if utf8_str(scalar.as_slice()).is_none() {
        return Err(RuntimeError::new("invalid_utf8", "byte range starts inside an invalid UTF-8 sequence"));
    }
    Ok((probe_start + end as u64, 1 + probe.len() as u64))
}

/// How much a byte read may keep and read: the output cap (the smaller of the output
/// limit and the range's length, each at least one), three bytes more to finish a
/// character, and no more than the read budget has left.
pub fn byte_read_caps(max_bytes: usize, limit: usize, max_bytes_read: u64, boundary_bytes_read: u64) -> (r: (usize, usize, usize))
    ensures
        r.0 == ({
            let a = if max_bytes < 1 { 1 } else { max_bytes };
            let b = if limit < 1 { 1 } else { limit };
            if a < b { a } else { b }
        }),
        r.1 == (if r.0 + 3 > usize::MAX { usize::MAX as int } else { r.0 + 3 }),
        r.2 == (if sat_sub(max_bytes_read, boundary_bytes_read) < r.1 { sat_sub(max_bytes_read, boundary_bytes_read) as int } else { r.1 as int }),
{
    let a = if max_bytes < 1 { 1 } else { max_bytes };
    let b = if limit < 1 { 1 } else { limit };
    let output_cap = if a < b { a } else { b };
    let desired = output_cap.saturating_add(3);
    let remaining = if max_bytes_read < boundary_bytes_read { 0 } else { max_bytes_read - boundary_bytes_read };
    let read_cap = if remaining < desired as u64 { remaining as usize } else { desired };
    (output_cap, desired, read_cap)
}

/// What a byte read reports.
#[derive(Debug, Clone)]
pub struct ByteReadSummary {
    pub content: String,
    pub bom: bool,
    pub start_byte: u64,
    pub end_byte: u64,
    pub next_byte_offset: Option<u64>,
    pub truncated: bool,
    pub truncation_reason: Option<String>,
    pub bytes_read: u64,
    pub line_ending: String,
}

/// The bytes of the read a byte range keeps: at most `output_cap` of those read.
pub open spec fn kept_bytes(bytes: Seq<u8>, output_cap: usize) -> Seq<u8> {
    if bytes.len() > output_cap { bytes.subrange(0, output_cap as int) } else { bytes }
}

/// The text a byte read gives: `bytes` were read from `actual_start` in a file of
/// `file_size` bytes, after `boundary_bytes_read` bytes read to find the start. The text
/// ends where the kept bytes end; the read is truncated when the file goes on, by the read
/// budget when it ran out before the read could take all it wanted.
pub fn finish_byte_read(
    actual_start: u64,
    file_size: u64,
    bytes: &[u8],
    output_cap: usize,
    read_cap: usize,
    desired_read_cap: usize,
    boundary_bytes_read: u64,
    max_bytes_read: u64,
) -> (r: RuntimeResult<ByteReadSummary>)
    requires
        actual_start as int + bytes@.len() <= u64::MAX,
    ensures
        match trimmed_tail(kept_bytes(bytes@, output_cap)) {
            None => r matches Err(e) && e.code@ == "invalid_utf8"@,
            Some(t) => r matches Ok(s) && {
                let bom = actual_start == 0 && starts_with_bom(t);
                let rest = if bom { t.subrange(3, t.len() as int) } else { t };
                let end = actual_start + t.len();
                let read = boundary_bytes_read as int + bytes@.len();
                let read_total = if read > u64::MAX { u64::MAX as int } else { read };
                let budget_limited = read_total >= max_bytes_read && read_cap < desired_read_cap;
                &&& s.bom == bom
                &&& s.content@ == vstd::utf8::decode_utf8(rest)
                &&& s.start_byte == actual_start
                &&& s.end_byte == end
                &&& s.truncated == (end < file_size)
                &&& s.next_byte_offset == (if end < file_size { Some(end as u64) } else { None })
                &&& crate::context::opt_view(s.truncation_reason) == (if end < file_size {
                    Some(if budget_limited { "readBudget"@ } else { "rangeLimit"@ })
                } else {
                    None::<Seq<char>>
                })
                &&& s.bytes_read == read_total
                &&& s.line_ending@ == ending_kind(endings_from(rest, 0).0 as u64, endings_from(rest, 0).1 as u64, endings_from(rest, 0).2 as u64)
            },
        },
{
    let n = if bytes.len() > output_cap { output_cap } else { bytes.len() };
    let mut selected: Vec<u8> = Vec::new();
    let mut i: usize = 0;
    while i < n
        invariant
            n <= bytes@.len(),
            i <= n,
            selected@ == bytes@.subrange(0, i as int),
        decreases n - i,
    {
        selected.push(bytes[i]);
        i = i + 1;
        assert(selected@ =~= bytes@.subrange(0, i as int));
    }
    assert(selected@ =~= kept_bytes(bytes@, output_cap));
    crate::utf8::trim_incomplete_utf8_tail(&mut selected)?;
    let ghost t = selected@;
    proof {
        crate::utf8::lemma_valid_is_untrimmed(t);
    }
    let selected_len = selected.len();
    let (bom, content) = decode_utf8(selected, actual_start == 0)?;
    let ghost rest = if bom { t.subrange(3, t.len() as int) } else { t };
    proof {
        vstd::utf8::decode_utf8_encode_utf8(rest);
    }
    let end = actual_start + selected_len as u64;
    let truncated = end < file_size;
    let read_total = boundary_bytes_read.saturating_add(bytes.len() as u64);
    let budget_limited = read_total >= max_bytes_read && read_cap < desired_read_cap;
    let (lf, crlf, cr) = line_endings(content.as_str().as_bytes());
    Ok(ByteReadSummary {
        content: content,
        bom,
        start_byte: actual_start,
        end_byte: end,
        next_byte_offset: if truncated { Some(end) } else { None },
        truncated,
        truncation_reason: if truncated {
            Some(if budget_limited { "readBudget".to_owned() } else { "rangeLimit".to_owned() })
        } else {
            None
        },
        bytes_read: read_total,
        line_ending: line_ending_kind(lf, crlf, cr),
    })
}

} // verus!
