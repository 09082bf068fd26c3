//! Reading ranges of text files: request checks, line-ending statistics, line counts, and
//! the line-and-character view of the older read tool.

use vstd::prelude::*;
use crate::error::{RuntimeError, RuntimeResult};
use crate::text::chars_of;

verus! {

pub const MAX_LEGACY_CHARACTERS: usize = 1000000;
pub const LEGACY_READ_TIMEOUT_MS: u64 = 60000;

/// The part of a file a read covers.
#[derive(Debug, Clone, Copy, PartialEq, Eq, Structural)]
pub enum TextReadRange {
    /// `limit` lines from line `start` (1-based).
    Line { start: usize, limit: usize },
    /// At most `limit` bytes from byte `start`.
    Byte { start: u64, limit: usize },
}

/// Limits of a read.
#[derive(Debug, Clone, Copy, PartialEq, Eq, Structural)]
pub struct TextReadBudget {
    pub timeout_ms: u64,
    pub max_bytes_read: u64,
}

/// A request to read part of a text file.
#[derive(Debug, Clone)]
pub struct TextReadRequestV2 {
    pub path: String,
    pub range: TextReadRange,
    pub max_bytes: usize,
    pub include_line_endings: bool,
    pub expected_version: Option<String>,
    pub budget: TextReadBudget,
}

/// The first problem of a read request, if any.
pub open spec fn read_request_error(r: TextReadRequestV2) -> Option<Seq<char>> {
    match r.range {
        TextReadRange::Line { start, limit } if start == 0 || limit == 0 => Some("invalid_line_range"@),
        TextReadRange::Byte { limit, .. } if limit == 0 => Some("invalid_byte_range"@),
        _ => if r.max_bytes == 0 {
            Some("invalid_output_limit"@)
        } else if r.budget.max_bytes_read == 0 {
            Some("invalid_read_budget"@)
        } else {
            None
        },
    }
}

/// Checks a read request before the file is opened.
pub fn validate_read_request(request: &TextReadRequestV2) -> (r: RuntimeResult<()>)
    ensures
        match read_request_error(*request) {
            None => r is Ok,
            Some(code) => r matches Err(e) && e.code@ == code,
        },
{
    match request.range {
        TextReadRange::Line { start, limit } => {
            if start == 0 || limit == 0 {
                return Err(RuntimeError::new("invalid_line_range", "line range start and limit must both be at least 1"));
            }
        },
        TextReadRange::Byte { limit, .. } => {
            if limit == 0 {
                return Err(RuntimeError::new("invalid_byte_range", "byte range limit must be at least 1"));
            }
        },
    }
    if request.max_bytes == 0 {
        return Err(RuntimeError::new("invalid_output_limit", "maxBytes must be at least 1"));
    }
    if request.budget.max_bytes_read == 0 {
        return Err(RuntimeError::new("invalid_read_budget", "budget.maxBytesRead must be at least 1"));
    }
    Ok(())
}

/// The line endings of `b` from index `i` on: bare `\n`, `\r\n` pairs, and lone `\r`.
pub open spec fn endings_from(b: Seq<u8>, i: int) -> (nat, nat, nat)
    decreases b.len() - i,
{
    if i < 0 || i >= b.len() {
        (0, 0, 0)
    } else if b[i] == 13u8 && i + 1 < b.len() && b[i + 1] == 10u8 {
        let (lf, crlf, cr) = endings_from(b, i + 2);
        (lf, crlf + 1, cr)
    } else if b[i] == 13u8 {
        let (lf, crlf, cr) = endings_from(b, i + 1);
        (lf, crlf, cr + 1)
    } else if b[i] == 10u8 {
        let (lf, crlf, cr) = endings_from(b, i + 1);
        (lf + 1, crlf, cr)
    } else {
        endings_from(b, i + 1)
    }
}

proof fn lemma_endings_bound(b: Seq<u8>, i: int)
    requires
        0 <= i <= b.len(),
    ensures
        endings_from(b, i).0 + endings_from(b, i).1 + endings_from(b, i).2 <= b.len() - i,
    decreases b.len() - i,
{
    if i < b.len() {
        if b[i] == 13u8 && i + 1 < b.len() && b[i + 1] == 10u8 {
            lemma_endings_bound(b, i + 2);
        } else {
            lemma_endings_bound(b, i + 1);
        }
    }
}

/// Counts the line endings of a text: bare `\n`, `\r\n` pairs, and lone `\r`.
pub fn line_endings(bytes: &[u8]) -> (r: (u64, u64, u64))
    ensures
        r.0 == endings_from(bytes@, 0).0,
        r.1 == endings_from(bytes@, 0).1,
        r.2 == endings_from(bytes@, 0).2,
{
    let mut lf: u64 = 0;
    let mut crlf: u64 = 0;
    let mut cr: u64 = 0;
    let mut i: usize = 0;
    proof {
        lemma_endings_bound(bytes@, 0);
    }
    while i < bytes.len()
        invariant
            i <= bytes@.len(),
            lf + crlf + cr + endings_from(bytes@, i as int).0 + endings_from(bytes@, i as int).1 + endings_from(bytes@, i as int).2 <= bytes@.len(),
            lf + endings_from(bytes@, i as int).0 == endings_from(bytes@, 0).0,
            crlf + endings_from(bytes@, i as int).1 == endings_from(bytes@, 0).1,
            cr + endings_from(bytes@, i as int).2 == endings_from(bytes@, 0).2,
        decreases bytes.len() - i,
    {
        proof {
            lemma_endings_bound(bytes@, i as int);
        }
        if bytes[i] == 13 && i + 1 < bytes.len() && bytes[i + 1] == 10 {
            crlf = crlf + 1;
            i = i + 2;
        } else if bytes[i] == 13 {
            cr = cr + 1;
            i = i + 1;
        } else if bytes[i] == 10 {
            lf = lf + 1;
            i = i + 1;
        } else {
            i = i + 1;
        }
    }
    (lf, crlf, cr)
}

/// The name of the line-ending style of a text with these counts: `none`, `lf`, `crlf`,
/// `cr`, or `mixed` when more than one kind occurs.
pub open spec fn ending_kind(lf: u64, crlf: u64, cr: u64) -> Seq<char> {
    let kinds = (if lf > 0 { 1int } else { 0 }) + (if crlf > 0 { 1int } else { 0 }) + (if cr > 0 { 1int } else { 0 });
    if kinds == 0 {
        "none"@
    } else if kinds == 1 {
        if crlf > 0 { "crlf"@ } else if cr > 0 { "cr"@ } else { "lf"@ }
    } else {
        "mixed"@
    }
}

/// Names the line-ending style of a text with these counts.
pub fn line_ending_kind(lf: u64, crlf: u64, cr: u64) -> (r: String)
    ensures
        r@ == ending_kind(lf, crlf, cr),
{
    let kinds: u8 = (if lf > 0 { 1u8 } else { 0 }) + (if crlf > 0 { 1u8 } else { 0 }) + (if cr > 0 { 1u8 } else { 0 });
    if kinds == 0 {
        "none".to_owned()
    } else if kinds == 1 {
        if crlf > 0 { "crlf".to_owned() } else if cr > 0 { "cr".to_owned() } else { "lf".to_owned() }
    } else {
        "mixed".to_owned()
    }
}

/// The `\n` bytes of `b`.
pub open spec fn lf_count(b: Seq<u8>) -> nat
    decreases b.len(),
{
    if b.len() == 0 { 0 } else { lf_count(b.drop_last()) + if b.last() == 10u8 { 1nat } else { 0 } }
}

proof fn lemma_lf_count_bound(b: Seq<u8>)
    ensures
        lf_count(b) <= b.len(),
    decreases b.len(),
{
    if b.len() > 0 {
        lemma_lf_count_bound(b.drop_last());
    }
}

/// The number of lines of a text as the older read tool counts them: none for an empty
/// file, else one per `\n` plus one for a last line without one.
pub open spec fn total_lines(b: Seq<u8>) -> nat {
    if b.len() == 0 { 0 } else if b.last() == 10u8 { lf_count(b) } else { lf_count(b) + 1 }
}

/// Counts the lines of a whole file, which must be UTF-8.
pub fn legacy_total_lines(content: &[u8]) -> (r: RuntimeResult<usize>)
    ensures
        !vstd::utf8::valid_utf8(content@) ==> (r matches Err(e) && e.code@ == "invalid_utf8"@),
        vstd::utf8::valid_utf8(content@) ==> r == Ok::<usize, RuntimeError>(total_lines(content@) as usize),
{
    if crate::text::utf8_str(content).is_none() {
        return Err(RuntimeError::new("invalid_utf8", "file contains invalid UTF-8"));
    }
    let mut count: usize = 0;
    let mut i: usize = 0;
    while i < content.len()
        invariant
            i <= content@.len(),
            count == lf_count(content@.subrange(0, i as int)),
            count <= i,
        decreases content.len() - i,
    {
        assert(content@.subrange(0, i + 1).drop_last() =~= content@.subrange(0, i as int));
        if content[i] == 10 {
            count = count + 1;
        }
        i = i + 1;
    }
    assert(content@.subrange(0, content@.len() as int) =~= content@);
    if content.len() == 0 {
        Ok(0)
    } else if content[content.len() - 1] == 10 {
        Ok(count)
    } else {
        proof {
            lemma_lf_count_bound(content@.drop_last());
        }
        Ok(count + 1)
    }
}

/// The request the older line-and-character read makes: lines from `start_line`
/// (`line_count` of them, or to the end), with room for the character limit (kept between
/// 1 and a million) at four bytes each; line endings are kept only for a read of the whole
/// file.
pub fn legacy_read_request(path: &str, max_characters: usize, start_line: usize, line_count: Option<usize>) -> (r: RuntimeResult<TextReadRequestV2>)
    ensures
        (start_line == 0 || line_count == Some(0usize)) ==> (r matches Err(e) && e.code@ == "invalid_line_range"@),
        !(start_line == 0 || line_count == Some(0usize)) ==> (r matches Ok(q) && {
            let limit = if max_characters < 1 { 1 } else if max_characters > MAX_LEGACY_CHARACTERS { MAX_LEGACY_CHARACTERS } else { max_characters };
            &&& q.path@ == path@
            &&& q.range == TextReadRange::Line { start: start_line, limit: match line_count { Some(c) => c, None => usize::MAX } }
            &&& q.max_bytes == limit * 4
            &&& q.include_line_endings == (start_line == 1 && line_count is None)
            &&& q.expected_version is None
            &&& q.budget == TextReadBudget { timeout_ms: LEGACY_READ_TIMEOUT_MS, max_bytes_read: u64::MAX }
        }),
{
    if start_line == 0 || line_count == Some(0usize) {
        return Err(RuntimeError::new("invalid_line_range", "startLine and lineCount must be at least 1"));
    }
    let limit = if max_characters < 1 { 1 } else if max_characters > MAX_LEGACY_CHARACTERS { MAX_LEGACY_CHARACTERS } else { max_characters };
    Ok(TextReadRequestV2 {
        path: path.to_owned(),
        range: TextReadRange::Line { start: start_line, limit: match line_count { Some(c) => c, None => usize::MAX } },
        max_bytes: limit * 4,
        include_line_endings: start_line == 1 && line_count.is_none(),
        expected_version: None,
        budget: TextReadBudget { timeout_ms: LEGACY_READ_TIMEOUT_MS, max_bytes_read: u64::MAX },
    })
}

/// What the older read reports of a line read: at most `character_limit` characters of the
/// content (truncated when more were read), and the last line read (at least the first
/// line asked for when anything was read; the line before it when nothing was).
pub fn legacy_read_view(content: &str, character_limit: usize, start_line: usize, end_line: Option<usize>, truncated: bool) -> (r: (String, bool, usize))
    ensures
        r.0@ == (if content@.len() > character_limit { content@.subrange(0, character_limit as int) } else { content@ }),
        r.1 == (truncated || content@.len() > character_limit),
        r.2 == ({
            let e = match end_line { Some(l) => l as int, None => if start_line == 0 { 0 } else { start_line - 1 } };
            if content@.len() > 0 && e < start_line { start_line as int } else { e }
        }),
{
    let c = chars_of(content);
    let character_truncated = c.len() > character_limit;
    let mut v: Vec<char> = Vec::new();
    let mut i: usize = 0;
    while i < c.len() && i < character_limit
        invariant
            c@ == content@,
            i <= c@.len(),
            i <= character_limit,
            v@ == c@.subrange(0, i as int),
        decreases c.len() - i,
    {
        v.push(c[i]);
        i = i + 1;
        assert(c@.subrange(0, i as int) =~= c@.subrange(0, i - 1).push(c@[i - 1]));
    }
    if !character_truncated {
        assert(c@.subrange(0, c@.len() as int) =~= c@);
    }
    let mut end = match end_line {
        Some(l) => l,
        None => if start_line == 0 { 0 } else { start_line - 1 },
    };
    if c.len() > 0 && end < start_line {
        end = start_line;
    }
    (crate::text::string_from_chars(v.as_slice()), truncated || character_truncated, end)
}

/// The line count of a file read in chunks, as the older read tool counts lines: the
/// bytes of a character split between chunks are carried into the next chunk.
#[derive(Debug)]
pub struct LegacyLineCounter {
    pub carry: Vec<u8>,
    pub saw_any: bool,
    pub last_was_lf: bool,
    pub lf_count: usize,
}

/// How many `\n` bytes `b` holds, stopping at the largest `usize`.
pub open spec fn sat_lf_count(start: usize, b: Seq<u8>) -> usize
    decreases b.len(),
{
    if b.len() == 0 {
        start
    } else {
        let n = sat_lf_count(start, b.drop_last());
        if b.last() == 10u8 { if n == usize::MAX { n } else { (n + 1) as usize } } else { n }
    }
}

impl LegacyLineCounter {
    /// Nothing read yet.
    pub fn new() -> (c: Self)
        ensures
            c.carry@.len() == 0,
            !c.saw_any,
            !c.last_was_lf,
            c.lf_count == 0,
    {
        LegacyLineCounter { carry: Vec::new(), saw_any: false, last_was_lf: false, lf_count: 0 }
    }

    /// Reads a chunk (at least one byte): counts its `\n` bytes, and checks the carried
    /// bytes followed by the chunk as UTF-8, carrying a character cut off at its end.
    pub fn feed(&mut self, chunk: &[u8]) -> (r: RuntimeResult<()>)
        requires
            chunk@.len() > 0,
        ensures
            final(self).saw_any,
            final(self).last_was_lf == (chunk@.last() == 10u8),
            final(self).lf_count == sat_lf_count(old(self).lf_count, chunk@),
            ({
                let joined = old(self).carry@ + chunk@;
                let r0 = crate::utf8::valid_up_to(joined, 0);
                if r0 >= joined.len() {
                    r is Ok && final(self).carry@.len() == 0
                } else if crate::utf8::cut_character(joined.subrange(r0, joined.len() as int)) {
                    r is Ok && final(self).carry@ == joined.subrange(r0, joined.len() as int)
                } else {
                    r matches Err(e) && e.code@ == "invalid_utf8"@
                }
            }),
    {
        self.saw_any = true;
        let mut i: usize = 0;
        let ghost start = self.lf_count;
        while i < chunk.len()
            invariant
                i <= chunk@.len(),
                self.lf_count == sat_lf_count(start, chunk@.subrange(0, i as int)),
                self.carry@ == old(self).carry@,
                self.saw_any,
            decreases chunk.len() - i,
        {
            assert(chunk@.subrange(0, i + 1).drop_last() =~= chunk@.subrange(0, i as int));
            if chunk[i] == 10 {
                self.lf_count = self.lf_count.saturating_add(1);
            }
            i = i + 1;
        }
        assert(chunk@.subrange(0, chunk@.len() as int) =~= chunk@);
        self.last_was_lf = chunk[chunk.len() - 1] == 10;
        let mut joined: Vec<u8> = Vec::new();
        let mut k: usize = 0;
        while k < self.carry.len()
            invariant
                k <= self.carry@.len(),
                joined@ == self.carry@.subrange(0, k as int),
            decreases self.carry.len() - k,
        {
            joined.push(self.carry[k]);
            k = k + 1;
            assert(joined@ =~= self.carry@.subrange(0, k as int));
        }
        let mut j: usize = 0;
        while j < chunk.len()
            invariant
                k == self.carry@.len(),
                j <= chunk@.len(),
                joined@ == self.carry@ + chunk@.subrange(0, j as int),
            decreases chunk.len() - j,
        {
            joined.push(chunk[j]);
            j = j + 1;
            assert(joined@ =~= self.carry@ + chunk@.subrange(0, j as int));
        }
        assert(joined@ =~= old(self).carry@ + chunk@);
        let valid = crate::utf8::utf8_valid_up_to(joined.as_slice());
        if valid == joined.len() {
            self.carry = Vec::new();
            return Ok(());
        }
        let mut tail: Vec<u8> = Vec::new();
        let mut t: usize = valid;
        while t < joined.len()
            invariant
                valid <= t <= joined@.len(),
                tail@ == joined@.subrange(valid as int, t as int),
            decreases joined.len() - t,
        {
            tail.push(joined[t]);
            t = t + 1;
            assert(tail@ =~= joined@.subrange(valid as int, t as int));
        }
        if crate::utf8::is_cut_character(tail.as_slice()) {
            self.carry = tail;
            return Ok(());
        }
        let mut m: Vec<char> = Vec::new();
        crate::text::extend_str(&mut m, "file contains invalid UTF-8 near byte offset ");
        crate::text::push_decimal(&mut m, valid as u64);
        let message = crate::text::string_from_chars(m.as_slice());
        Err(RuntimeError::new("invalid_utf8", message.as_str()))
    }

    /// The number of lines once the whole file was read: none for an empty file, else one
    /// per `\n` and one more for a last line without it. A character cut off at the end of
    /// the file is an error.
    pub fn finish(&self) -> (r: RuntimeResult<usize>)
        ensures
            self.carry@.len() > 0 ==> (r matches Err(e) && e.code@ == "invalid_utf8"@),
            self.carry@.len() == 0 ==> r == Ok::<usize, RuntimeError>(
                if !self.saw_any { 0 } else if self.last_was_lf { self.lf_count } else {
                    if self.lf_count == usize::MAX { usize::MAX } else { (self.lf_count + 1) as usize }
                }),
    {
        if self.carry.len() > 0 {
            return Err(RuntimeError::new("invalid_utf8", "file ends with incomplete UTF-8"));
        }
        Ok(if !self.saw_any { 0 } else if self.last_was_lf { self.lf_count } else { self.lf_count.saturating_add(1) })
    }
}

} // verus!
