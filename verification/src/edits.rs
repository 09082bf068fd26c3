//! Versioned range edits of UTF-8 text files: request checks, resolving byte ranges,
//! ordering and checking the ranges, the bytes written, and the edited content.

use vstd::prelude::*;
use vstd::utf8::{encode_utf8, valid_utf8};
use crate::error::{RuntimeError, RuntimeResult};
use crate::text::str_eq;

pub mod lines;

verus! {

pub const HARD_EDIT_TIMEOUT_MS: u64 = 300000;
pub const HARD_EDIT_BYTES: u64 = 2147483648;
pub const HARD_EDIT_COUNT: usize = 10000;

/// The points of an edit at which a failure is injected in fault tests, before and after
/// the commit.
#[derive(Debug, Clone, Copy, PartialEq, Eq, Structural)]
pub enum ApplyEditsTestPoint {
    BeforeStream,
    MidStream,
    AfterFlush,
    AfterFileSync,
    BeforeVersionRecheck,
    AfterAtomicReplace,
    BeforeDirectorySync,
}

/// How edit ranges are given.
#[derive(Debug, Clone, Copy, PartialEq, Eq, Structural)]
pub enum EditCoordinateSystem {
    Byte,
    LineColumn,
}

/// How columns are counted.
#[derive(Debug, Clone, Copy, PartialEq, Eq, Structural)]
pub enum EditColumnEncoding {
    Utf8CodePoint,
}

/// A 1-based line and column.
#[derive(Debug, Clone, Copy, PartialEq, Eq, Structural)]
pub struct TextPosition {
    pub line: usize,
    pub column: usize,
}

/// One edit: a range and its replacement text.
#[derive(Debug, Clone)]
pub struct TextEdit {
    pub start_byte: Option<u64>,
    pub end_byte: Option<u64>,
    pub start: Option<TextPosition>,
    pub end: Option<TextPosition>,
    pub text: String,
}

/// Limits of an edit.
#[derive(Debug, Clone, Copy, PartialEq, Eq, Structural)]
pub struct ApplyEditsBudget {
    pub timeout_ms: u64,
    pub max_bytes_read: u64,
    pub max_bytes_written: u64,
    pub max_edits: usize,
}

/// A request to edit a file whose version the caller last saw.
#[derive(Debug, Clone)]
pub struct ApplyEditsRequest {
    pub path: String,
    pub expected_version: String,
    pub edits: Vec<TextEdit>,
    pub coordinate_system: EditCoordinateSystem,
    pub column_encoding: Option<EditColumnEncoding>,
    pub preserve_bom: bool,
    pub preserve_line_endings: bool,
    pub dry_run: bool,
    pub budget: ApplyEditsBudget,
}

/// An edit resolved to byte offsets, with the bytes that replace the range.
#[derive(Debug, Clone)]
pub struct ResolvedEdit {
    pub start: u64,
    pub end: u64,
    pub text: Vec<u8>,
}

/// The caller's limits, never above the hard limits of the service.
pub fn effective_budget(budget: ApplyEditsBudget) -> (b: ApplyEditsBudget)
    ensures
        b.timeout_ms == (if budget.timeout_ms < HARD_EDIT_TIMEOUT_MS { budget.timeout_ms } else { HARD_EDIT_TIMEOUT_MS }),
        b.max_bytes_read == (if budget.max_bytes_read < HARD_EDIT_BYTES { budget.max_bytes_read } else { HARD_EDIT_BYTES }),
        b.max_bytes_written == (if budget.max_bytes_written < HARD_EDIT_BYTES { budget.max_bytes_written } else { HARD_EDIT_BYTES }),
        b.max_edits == (if budget.max_edits < HARD_EDIT_COUNT { budget.max_edits } else { HARD_EDIT_COUNT }),
{
    ApplyEditsBudget {
        timeout_ms: if budget.timeout_ms < HARD_EDIT_TIMEOUT_MS { budget.timeout_ms } else { HARD_EDIT_TIMEOUT_MS },
        max_bytes_read: if budget.max_bytes_read < HARD_EDIT_BYTES { budget.max_bytes_read } else { HARD_EDIT_BYTES },
        max_bytes_written: if budget.max_bytes_written < HARD_EDIT_BYTES { budget.max_bytes_written } else { HARD_EDIT_BYTES },
        max_edits: if budget.max_edits < HARD_EDIT_COUNT { budget.max_edits } else { HARD_EDIT_COUNT },
    }
}

/// The coordinates of an edit match the request's coordinate system.
pub open spec fn edit_coordinates_ok(system: EditCoordinateSystem, e: TextEdit) -> bool {
    match system {
        EditCoordinateSystem::Byte => e.start_byte is Some && e.end_byte is Some && e.start is None && e.end is None,
        EditCoordinateSystem::LineColumn => e.start is Some && e.end is Some && e.start_byte is None && e.end_byte is None,
    }
}

/// The first problem of an edit request, if it has one.
pub open spec fn request_error(r: ApplyEditsRequest) -> Option<Seq<char>> {
    if r.expected_version@.len() == 0 {
        Some("expectedVersionRequired"@)
    } else if r.edits@.len() == 0 {
        Some("editsEmpty"@)
    } else if r.budget.max_edits == 0 || r.edits@.len() > r.budget.max_edits {
        Some("editLimitExceeded"@)
    } else if r.budget.timeout_ms == 0 {
        Some("invalidBudget"@)
    } else if !(match r.coordinate_system {
        EditCoordinateSystem::Byte => r.column_encoding is None,
        EditCoordinateSystem::LineColumn => r.column_encoding == Some(EditColumnEncoding::Utf8CodePoint),
    }) || exists|i: int| 0 <= i < r.edits@.len() && !edit_coordinates_ok(r.coordinate_system, #[trigger] r.edits@[i]) {
        Some("invalidEditCoordinates"@)
    } else {
        None
    }
}

/// Checks an edit request before the file is touched.
pub fn validate_request(request: &ApplyEditsRequest) -> (r: RuntimeResult<()>)
    ensures
        match request_error(*request) {
            None => r is Ok,
            Some(code) => r matches Err(e) && e.code@ == code,
        },
{
    if request.expected_version.unicode_len() == 0 {
        return Err(RuntimeError::new("expectedVersionRequired", "expectedVersion is required"));
    }
    if request.edits.len() == 0 {
        return Err(RuntimeError::new("editsEmpty", "edits must contain at least one edit"));
    }
    if request.budget.max_edits == 0 || request.edits.len() > request.budget.max_edits {
        return Err(RuntimeError::new("editLimitExceeded", "edits exceed budget.maxEdits"));
    }
    if request.budget.timeout_ms == 0 {
        return Err(RuntimeError::new("invalidBudget", "budget.timeoutMs must be positive"));
    }
    let encoding_ok = match request.coordinate_system {
        EditCoordinateSystem::Byte => match request.column_encoding {
            Some(_) => false,
            None => true,
        },
        EditCoordinateSystem::LineColumn => match request.column_encoding {
            Some(EditColumnEncoding::Utf8CodePoint) => true,
            None => false,
        },
    };
    assert(request.coordinate_system == EditCoordinateSystem::Byte ==> encoding_ok == (request.column_encoding is None));
    assert(request.coordinate_system == EditCoordinateSystem::LineColumn ==> encoding_ok == (request.column_encoding is Some));
    assert(request.column_encoding is Some ==> request.column_encoding == Some(EditColumnEncoding::Utf8CodePoint));
    assert(request.expected_version@.len() != 0);
    if !encoding_ok {
        return Err(RuntimeError::new("invalidEditCoordinates", "edit coordinates do not match the coordinate system"));
    }
    let mut i: usize = 0;
    while i < request.edits.len()
        invariant
            i <= request.edits@.len(),
            forall|k: int| 0 <= k < i ==> edit_coordinates_ok(request.coordinate_system, #[trigger] request.edits@[k]),
            request.expected_version@.len() != 0,
            request.edits@.len() != 0,
            !(request.budget.max_edits == 0 || request.edits@.len() > request.budget.max_edits),
            request.budget.timeout_ms != 0,
            match request.coordinate_system {
                EditCoordinateSystem::Byte => request.column_encoding is None,
                EditCoordinateSystem::LineColumn => request.column_encoding == Some(EditColumnEncoding::Utf8CodePoint),
            },
        decreases request.edits.len() - i,
    {
        let e = &request.edits[i];
        let ok = match request.coordinate_system {
            EditCoordinateSystem::Byte => e.start_byte.is_some() && e.end_byte.is_some() && e.start.is_none() && e.end.is_none(),
            EditCoordinateSystem::LineColumn => e.start.is_some() && e.end.is_some() && e.start_byte.is_none() && e.end_byte.is_none(),
        };
        if !ok {
            assert(!edit_coordinates_ok(request.coordinate_system, request.edits@[i as int]));
            return Err(RuntimeError::new("invalidEditCoordinates", "edit coordinates do not match the coordinate system"));
        }
        i = i + 1;
    }
    Ok(())
}

/// A dry run reads the file once; a real edit reads it twice (validation and streaming).
pub fn check_read_budget(size: u64, dry_run: bool, max_bytes_read: u64) -> (r: RuntimeResult<u64>)
    ensures
        ({
            let required = if dry_run { size as int } else if 2 * size > u64::MAX { u64::MAX as int } else { 2 * size };
            if required > max_bytes_read {
                r matches Err(e) && e.code@ == "readBudgetExceeded"@
            } else {
                r == Ok::<u64, RuntimeError>(required as u64)
            }
        }),
{
    let required = if dry_run { size } else if size > u64::MAX / 2 { u64::MAX } else { size * 2 };
    if required > max_bytes_read {
        return Err(RuntimeError::new("readBudgetExceeded", "validation and streaming exceed budget.maxBytesRead"));
    }
    Ok(required)
}

/// The newline a file mostly uses: none without newlines, `\r\n` when at least as
/// frequent as a bare `\n`.
pub open spec fn dominant_spec(lf: u64, crlf: u64) -> Option<Seq<char>> {
    if lf == 0 && crlf == 0 {
        None
    } else if crlf >= lf {
        Some("\r\n"@)
    } else {
        Some("\n"@)
    }
}

pub fn dominant_newline(lf: u64, crlf: u64) -> (r: Option<String>)
    ensures
        crate::context::opt_view(r) == dominant_spec(lf, crlf),
{
    if lf == 0 && crlf == 0 {
        None
    } else if crlf >= lf {
        Some("\r\n".to_owned())
    } else {
        Some("\n".to_owned())
    }
}

/// Bare `\n` bytes and `\r\n` pairs of a byte text.
pub open spec fn newline_counts(b: Seq<u8>) -> (int, int)
    decreases b.len(),
{
    if b.len() == 0 {
        (0, 0)
    } else {
        let (lf, crlf) = newline_counts(b.drop_last());
        if b.last() == 10u8 {
            if b.len() >= 2 && b[b.len() - 2] == 13u8 { (lf, crlf + 1) } else { (lf + 1, crlf) }
        } else {
            (lf, crlf)
        }
    }
}

proof fn lemma_newline_counts_bound(b: Seq<u8>)
    ensures
        0 <= newline_counts(b).0,
        0 <= newline_counts(b).1,
        newline_counts(b).0 + newline_counts(b).1 <= b.len(),
    decreases b.len(),
{
    if b.len() > 0 {
        lemma_newline_counts_bound(b.drop_last());
    }
}

/// Counts the bare `\n` bytes and the `\r\n` pairs of a file's content.
pub fn count_newlines(content: &[u8]) -> (r: (u64, u64))
    ensures
        (r.0 as int, r.1 as int) == newline_counts(content@),
{
    let mut lf: u64 = 0;
    let mut crlf: u64 = 0;
    let mut i: usize = 0;
    while i < content.len()
        invariant
            i <= content@.len(),
            (lf as int, crlf as int) == newline_counts(content@.subrange(0, i as int)),
        decreases content.len() - i,
    {
        let ghost p = content@.subrange(0, i + 1);
        assert(p.drop_last() =~= content@.subrange(0, i as int));
        proof {
            lemma_newline_counts_bound(content@.subrange(0, i as int));
        }
        if content[i] == 10u8 {
            if i >= 1 && content[i - 1] == 13u8 {
                crlf = crlf + 1;
            } else {
                lf = lf + 1;
            }
        }
        i = i + 1;
    }
    assert(content@.subrange(0, content@.len() as int) =~= content@);
    (lf, crlf)
}

/// A replacement with every line ending written as `\r\n` (an existing `\r\n` stays).
pub open spec fn to_crlf(s: Seq<char>) -> Seq<char>
    decreases s.len(),
{
    if s.len() == 0 {
        s
    } else if s.last() == '\n' {
        let rest = s.drop_last();
        let base = if rest.len() > 0 && rest.last() == '\r' { rest.drop_last() } else { rest };
        to_crlf(base) + "\r\n"@
    } else {
        to_crlf(s.drop_last()).push(s.last())
    }
}

/// The bytes that replace a range: the text as given, or with `\r\n` line endings when
/// the file mostly uses them and line endings are to be preserved.
pub open spec fn replacement_bytes(text: Seq<char>, newline: Option<Seq<char>>, preserve_line_endings: bool) -> Seq<u8> {
    if !preserve_line_endings || newline != Some("\r\n"@) {
        encode_utf8(text)
    } else {
        encode_utf8(to_crlf(text))
    }
}

/// Rewrites line endings of a replacement as `\r\n`.
fn crlf_chars(text: &str) -> (r: Vec<char>)
    ensures
        r@ == to_crlf(text@),
{
    let chars = crate::text::chars_of(text);
    let mut out: Vec<char> = Vec::new();
    let mut i: usize = 0;
    while i < chars.len()
        invariant
            chars@ == text@,
            i <= chars@.len(),
            out@ == to_crlf(chars@.subrange(0, i as int)),
        decreases chars.len() - i,
    {
        let ghost p = chars@.subrange(0, i + 1);
        assert(p.drop_last() =~= chars@.subrange(0, i as int));
        let c = chars[i];
        if c == '\n' {
            if i >= 1 && chars[i - 1] == '\r' {
                let ghost q = chars@.subrange(0, i as int);
                assert(q.drop_last() =~= chars@.subrange(0, i - 1));
                assert(to_crlf(q) == to_crlf(q.drop_last()).push('\r'));
                out.pop();
                assert(out@ =~= to_crlf(q.drop_last()));
            }
            out.push('\r');
            out.push('\n');
            proof {
                reveal_strlit("\r\n");
            }
            assert(out@ =~= to_crlf(p));
        } else {
            out.push(c);
        }
        i = i + 1;
    }
    assert(chars@.subrange(0, chars@.len() as int) =~= chars@);
    out
}

fn bytes_of(s: &str) -> (r: Vec<u8>)
    ensures
        r@ == encode_utf8(s@),
{
    let b = s.as_bytes();
    let mut r: Vec<u8> = Vec::new();
    let mut i: usize = 0;
    while i < b.len()
        invariant
            i <= b@.len(),
            r@ == b@.subrange(0, i as int),
        decreases b.len() - i,
    {
        r.push(b[i]);
        i = i + 1;
    }
    assert(b@.subrange(0, b@.len() as int) =~= b@);
    r
}

/// The bytes that replace a range, with line endings adapted to the file when asked.
pub fn normalize_replacement(text: &str, newline: Option<&str>, preserve_line_endings: bool) -> (r: Vec<u8>)
    ensures
        r@ == replacement_bytes(text@, match newline { Some(n) => Some(n@), None => None }, preserve_line_endings),
{
    let crlf = match newline {
        Some(n) => str_eq(n, "\r\n"),
        None => false,
    };
    if !preserve_line_endings || !crlf {
        return bytes_of(text);
    }
    let chars = crlf_chars(text);
    let converted = crate::text::string_from_chars(chars.as_slice());
    bytes_of(converted.as_str())
}

/// A reversed range or one past the end of the file.
pub open spec fn bad_range(e: ResolvedEdit, size: u64) -> bool {
    e.start > e.end || e.end > size
}

/// The first range problem at or after edit `i` (edits in order).
pub open spec fn range_error_from(edits: Seq<ResolvedEdit>, size: u64, i: int) -> Option<Seq<char>>
    decreases edits.len() - i,
{
    if i < 0 || i >= edits.len() {
        None
    } else if bad_range(edits[i], size) {
        Some("invalidRange"@)
    } else if i > 0 && edits[i].start < edits[i - 1].end {
        Some("overlappingEdits"@)
    } else {
        range_error_from(edits, size, i + 1)
    }
}

/// Ordered edits that stay within the file and do not overlap.
pub open spec fn ranges_ok(edits: Seq<ResolvedEdit>, size: u64) -> bool {
    &&& forall|i: int| 0 <= i < edits.len() ==> !bad_range(#[trigger] edits[i], size)
    &&& forall|i: int| 0 < i < edits.len() ==> (#[trigger] edits[i]).start >= edits[i - 1].end
}

proof fn lemma_range_error_none(edits: Seq<ResolvedEdit>, size: u64, i: int)
    requires
        0 <= i <= edits.len(),
        range_error_from(edits, size, i) is None,
    ensures
        forall|k: int| i <= k < edits.len() ==> !bad_range(#[trigger] edits[k], size),
        forall|k: int| i <= k < edits.len() && k > 0 ==> (#[trigger] edits[k]).start >= edits[k - 1].end,
    decreases edits.len() - i,
{
    if i < edits.len() {
        lemma_range_error_none(edits, size, i + 1);
    }
}

/// Checks ordered edits: each range is within the file and not reversed, and no range
/// starts before the previous one ends.
pub fn validate_ranges(edits: &Vec<ResolvedEdit>, size: u64) -> (r: RuntimeResult<()>)
    ensures
        match range_error_from(edits@, size, 0) {
            None => r is Ok,
            Some(code) => r matches Err(e) && e.code@ == code,
        },
        r is Ok ==> ranges_ok(edits@, size),
{
    let mut i: usize = 0;
    while i < edits.len()
        invariant
            i <= edits@.len(),
            range_error_from(edits@, size, 0) == range_error_from(edits@, size, i as int),
        decreases edits.len() - i,
    {
        let e = &edits[i];
        if e.start > e.end || e.end > size {
            return Err(RuntimeError::new("invalidRange", "edit range is outside the file or reversed"));
        }
        if i > 0 && e.start < edits[i - 1].end {
            return Err(RuntimeError::new("overlappingEdits", "edit ranges must not overlap"));
        }
        i = i + 1;
    }
    proof {
        lemma_range_error_none(edits@, size, 0);
    }
    Ok(())
}

/// The size of the edited file, or `None` when it does not fit in a `u64`.
pub open spec fn output_total(size: u64, edits: Seq<ResolvedEdit>) -> Option<int>
    decreases edits.len(),
{
    if edits.len() == 0 {
        Some(size as int)
    } else {
        match output_total(size, edits.drop_last()) {
            None => None,
            Some(t) => {
                let e = edits.last();
                let v = t - (e.end - e.start);
                if v < 0 || v + e.text@.len() > u64::MAX { None } else { Some(v + e.text@.len()) }
            },
        }
    }
}

/// The size of the edited file.
pub fn output_size(size: u64, edits: &Vec<ResolvedEdit>) -> (r: RuntimeResult<u64>)
    requires
        forall|i: int| 0 <= i < edits@.len() ==> (#[trigger] edits@[i]).start <= edits@[i].end,
    ensures
        match output_total(size, edits@) {
            Some(t) => r == Ok::<u64, RuntimeError>(t as u64),
            None => r matches Err(e) && e.code@ == "resultTooLarge"@,
        },
{
    let mut total: u64 = size;
    let mut i: usize = 0;
    while i < edits.len()
        invariant
            i <= edits@.len(),
            forall|k: int| 0 <= k < edits@.len() ==> (#[trigger] edits@[k]).start <= edits@[k].end,
            output_total(size, edits@.subrange(0, i as int)) == Some(total as int),
        decreases edits.len() - i,
    {
        let ghost p = edits@.subrange(0, i + 1);
        assert(p.drop_last() =~= edits@.subrange(0, i as int));
        let e = &edits[i];
        let removed = e.end - e.start;
        if removed > total || e.text.len() as u64 > u64::MAX - (total - removed) {
            proof {
                lemma_output_total_none_stays(size, edits@, i + 1);
            }
            return Err(RuntimeError::new("resultTooLarge", "result size overflows u64"));
        }
        total = total - removed + e.text.len() as u64;
        i = i + 1;
    }
    assert(edits@.subrange(0, edits@.len() as int) =~= edits@);
    Ok(total)
}

proof fn lemma_output_total_none_stays(size: u64, edits: Seq<ResolvedEdit>, k: int)
    requires
        0 <= k <= edits.len(),
        output_total(size, edits.subrange(0, k)) is None,
    ensures
        output_total(size, edits) is None,
    decreases edits.len() - k,
{
    if k < edits.len() {
        assert(edits.subrange(0, k + 1).drop_last() =~= edits.subrange(0, k));
        lemma_output_total_none_stays(size, edits, k + 1);
    } else {
        assert(edits.subrange(0, k) =~= edits);
    }
}

/// Newline bytes in a replacement.
pub open spec fn newline_bytes(t: Seq<u8>) -> int
    decreases t.len(),
{
    if t.len() == 0 { 0 } else { newline_bytes(t.drop_last()) + if t.last() == 10u8 { 1int } else { 0int } }
}

/// Added lines (newlines written) and deleted ranges (non-empty ranges replaced).
pub open spec fn line_counts(edits: Seq<ResolvedEdit>) -> (int, int)
    decreases edits.len(),
{
    if edits.len() == 0 {
        (0, 0)
    } else {
        let (a, d) = line_counts(edits.drop_last());
        (a + newline_bytes(edits.last().text@), d + if edits.last().end > edits.last().start { 1int } else { 0int })
    }
}

proof fn lemma_newline_bytes_bound(t: Seq<u8>)
    ensures
        0 <= newline_bytes(t) <= t.len(),
    decreases t.len(),
{
    if t.len() > 0 {
        lemma_newline_bytes_bound(t.drop_last());
    }
}

proof fn lemma_line_counts_nonneg(edits: Seq<ResolvedEdit>)
    ensures
        0 <= line_counts(edits).0,
        0 <= line_counts(edits).1 <= edits.len(),
    decreases edits.len(),
{
    if edits.len() > 0 {
        lemma_line_counts_nonneg(edits.drop_last());
        lemma_newline_bytes_bound(edits.last().text@);
    }
}

/// Counts added and deleted lines, saturating.
pub fn edit_line_counts(edits: &Vec<ResolvedEdit>) -> (r: (u64, u64))
    ensures
        r.0 == (if line_counts(edits@).0 > u64::MAX { u64::MAX as int } else { line_counts(edits@).0 }),
        r.1 == line_counts(edits@).1,
{
    let mut additions: u64 = 0;
    let mut deletions: u64 = 0;
    let mut i: usize = 0;
    while i < edits.len()
        invariant
            i <= edits@.len(),
            additions == (if line_counts(edits@.subrange(0, i as int)).0 > u64::MAX { u64::MAX as int } else { line_counts(edits@.subrange(0, i as int)).0 }),
            deletions == line_counts(edits@.subrange(0, i as int)).1,
        decreases edits.len() - i,
    {
        let ghost p = edits@.subrange(0, i + 1);
        assert(p.drop_last() =~= edits@.subrange(0, i as int));
        proof {
            lemma_line_counts_nonneg(edits@.subrange(0, i as int));
        }
        let t = &edits[i].text;
        let mut n: u64 = 0;
        let mut j: usize = 0;
        while j < t.len()
            invariant
                j <= t@.len(),
                n == newline_bytes(t@.subrange(0, j as int)),
                n <= j,
            decreases t.len() - j,
        {
            assert(t@.subrange(0, j + 1).drop_last() =~= t@.subrange(0, j as int));
            if t[j] == 10u8 {
                n = n + 1;
            }
            j = j + 1;
        }
        assert(t@.subrange(0, t@.len() as int) =~= t@);
        additions = additions.saturating_add(n);
        if edits[i].end > edits[i].start {
            deletions = deletions + 1;
        }
        i = i + 1;
    }
    assert(edits@.subrange(0, edits@.len() as int) =~= edits@);
    (additions, deletions)
}

/// The content after the edits from position `cursor` on, starting with edit `i`.
pub open spec fn edited_from(content: Seq<u8>, edits: Seq<ResolvedEdit>, cursor: int, i: int) -> Seq<u8>
    decreases edits.len() - i,
{
    if i < 0 || i >= edits.len() {
        content.subrange(cursor, content.len() as int)
    } else {
        content.subrange(cursor, edits[i].start as int) + edits[i].text@ + edited_from(content, edits, edits[i].end as int, i + 1)
    }
}

/// The content with every range replaced by its text.
pub open spec fn edited(content: Seq<u8>, edits: Seq<ResolvedEdit>) -> Seq<u8> {
    edited_from(content, edits, 0, 0)
}

/// The change in length that edits `i..` make.
pub open spec fn growth_from(edits: Seq<ResolvedEdit>, i: int) -> int
    decreases edits.len() - i,
{
    if i < 0 || i >= edits.len() {
        0
    } else {
        edits[i].text@.len() - (edits[i].end - edits[i].start) + growth_from(edits, i + 1)
    }
}

/// The change in length that all edits make, counted from the last one.
pub open spec fn growth(edits: Seq<ResolvedEdit>) -> int
    decreases edits.len(),
{
    if edits.len() == 0 {
        0
    } else {
        growth(edits.drop_last()) + edits.last().text@.len() - (edits.last().end - edits.last().start)
    }
}

proof fn lemma_growth_split(edits: Seq<ResolvedEdit>, k: int)
    requires
        0 <= k <= edits.len(),
    ensures
        growth(edits) == growth(edits.subrange(0, k)) + growth_from(edits, k),
    decreases edits.len() - k,
{
    if k == edits.len() {
        assert(edits.subrange(0, k) =~= edits);
    } else {
        lemma_growth_split(edits, k + 1);
        assert(edits.subrange(0, k + 1).drop_last() =~= edits.subrange(0, k));
    }
}

proof fn lemma_output_total_growth(size: u64, edits: Seq<ResolvedEdit>)
    requires
        output_total(size, edits) is Some,
    ensures
        output_total(size, edits)->0 == size + growth(edits),
    decreases edits.len(),
{
    if edits.len() > 0 {
        lemma_output_total_growth(size, edits.drop_last());
    }
}

proof fn lemma_edited_from_len(content: Seq<u8>, edits: Seq<ResolvedEdit>, cursor: int, i: int)
    requires
        ranges_ok(edits, content.len() as u64),
        content.len() <= u64::MAX,
        0 <= i <= edits.len(),
        0 <= cursor,
        i < edits.len() ==> cursor <= edits[i].start,
        i == edits.len() ==> cursor <= content.len(),
    ensures
        edited_from(content, edits, cursor, i).len() == content.len() - cursor + growth_from(edits, i),
    decreases edits.len() - i,
{
    if i < edits.len() {
        assert(!bad_range(edits[i], content.len() as u64));
        if i + 1 < edits.len() {
            assert(edits[i + 1].start >= edits[i].end);
        }
        lemma_edited_from_len(content, edits, edits[i].end as int, i + 1);
    }
}

/// The size that `output_size` reports for ordered, non-overlapping edits is the length of
/// the content the edits produce.
pub proof fn lemma_output_size_is_edited_length(content: Seq<u8>, edits: Seq<ResolvedEdit>)
    requires
        ranges_ok(edits, content.len() as u64),
        content.len() <= u64::MAX,
        output_total(content.len() as u64, edits) is Some,
    ensures
        edited(content, edits).len() == output_total(content.len() as u64, edits)->0,
{
    lemma_output_total_growth(content.len() as u64, edits);
    lemma_growth_split(edits, 0);
    assert(edits.subrange(0, 0) =~= Seq::<ResolvedEdit>::empty());
    if edits.len() > 0 {
        assert(!bad_range(edits[0], content.len() as u64));
    }
    lemma_edited_from_len(content, edits, 0, 0);
}

/// Applies ordered, non-overlapping edits to a file's content.
pub fn apply_to_bytes(content: &[u8], edits: &Vec<ResolvedEdit>) -> (r: Vec<u8>)
    requires
        ranges_ok(edits@, content@.len() as u64),
        content@.len() <= u64::MAX,
    ensures
        r@ == edited(content@, edits@),
{
    let mut out: Vec<u8> = Vec::new();
    let mut cursor: usize = 0;
    let mut i: usize = 0;
    while i < edits.len()
        invariant
            ranges_ok(edits@, content@.len() as u64),
            content@.len() <= u64::MAX,
            i <= edits@.len(),
            cursor <= content@.len(),
            i > 0 ==> cursor == edits@[i - 1].end,
            i == 0 ==> cursor == 0,
            out@ + edited_from(content@, edits@, cursor as int, i as int) == edited(content@, edits@),
        decreases edits.len() - i,
    {
        let e = &edits[i];
        assert(!bad_range(edits@[i as int], content@.len() as u64));
        assert(i > 0 ==> edits@[i as int].start >= edits@[i - 1].end);
        assert(e.end as int <= content@.len());
        let n = content.len();
        assert(e.end <= n && e.start <= n);
        let start = e.start as usize;
        let end = e.end as usize;
        assert(start == e.start && end == e.end);
        let ghost before = out@;
        let mut k: usize = cursor;
        while k < start
            invariant
                cursor <= k <= start,
                start <= content@.len(),
                out@ == before + content@.subrange(cursor as int, k as int),
            decreases start - k,
        {
            out.push(content[k]);
            k = k + 1;
            assert(content@.subrange(cursor as int, k as int) =~= content@.subrange(cursor as int, k - 1).push(content@[k - 1]));
        }
        let ghost mid = out@;
        let mut j: usize = 0;
        while j < e.text.len()
            invariant
                j <= e.text@.len(),
                out@ == mid + e.text@.subrange(0, j as int),
            decreases e.text.len() - j,
        {
            out.push(e.text[j]);
            j = j + 1;
            assert(e.text@.subrange(0, j as int) =~= e.text@.subrange(0, j - 1).push(e.text@[j - 1]));
        }
        assert(e.text@.subrange(0, e.text@.len() as int) =~= e.text@);
        assert(out@ + edited_from(content@, edits@, end as int, i + 1) =~= before + edited_from(content@, edits@, cursor as int, i as int));
        cursor = end;
        i = i + 1;
    }
    let ghost before = out@;
    let mut k: usize = cursor;
    while k < content.len()
        invariant
            cursor <= k <= content@.len(),
            out@ == before + content@.subrange(cursor as int, k as int),
        decreases content.len() - k,
    {
        out.push(content[k]);
        k = k + 1;
        assert(content@.subrange(cursor as int, k as int) =~= content@.subrange(cursor as int, k - 1).push(content@[k - 1]));
    }
    assert(out@ =~= before + edited_from(content@, edits@, cursor as int, i as int));
    out
}

/// Edit `a` (at request position `ai`) comes before edit `b` (at `bi`): by start, then
/// end, then request order.
pub open spec fn edit_before(a: ResolvedEdit, ai: int, b: ResolvedEdit, bi: int) -> bool {
    a.start < b.start || (a.start == b.start && (a.end < b.end || (a.end == b.end && ai < bi)))
}

/// `order` lists every edit once, ordered by start and end and, for equal ranges, by
/// request order (the order of a stable sort).
pub open spec fn stable_order(edits: Seq<ResolvedEdit>, order: Seq<usize>) -> bool {
    &&& order.len() == edits.len()
    &&& forall|i: int| 0 <= i < order.len() ==> (#[trigger] order[i]) < edits.len()
    &&& forall|i: int, j: int| 0 <= i < j < order.len() ==> edit_before(edits[#[trigger] order[i] as int], order[i] as int, edits[#[trigger] order[j] as int], order[j] as int)
}

/// Two edits with the same range and bytes.
pub open spec fn same_edit(a: ResolvedEdit, b: ResolvedEdit) -> bool {
    a.start == b.start && a.end == b.end && a.text@ == b.text@
}

fn copy_edit(e: &ResolvedEdit) -> (r: ResolvedEdit)
    ensures
        same_edit(r, *e),
{
    let mut text: Vec<u8> = Vec::new();
    let mut i: usize = 0;
    while i < e.text.len()
        invariant
            i <= e.text@.len(),
            text@ == e.text@.subrange(0, i as int),
        decreases e.text.len() - i,
    {
        text.push(e.text[i]);
        i = i + 1;
    }
    assert(text@ =~= e.text@);
    ResolvedEdit { start: e.start, end: e.end, text }
}

/// Sorts edits by start and end, keeping the request order of equal ranges. Returns the
/// sorted edits and, for each, its position in the request.
pub fn sort_edits(edits: &Vec<ResolvedEdit>) -> (r: (Vec<ResolvedEdit>, Vec<usize>))
    ensures
        stable_order(edits@, r.1@),
        r.0@.len() == edits@.len(),
        forall|i: int| 0 <= i < r.0@.len() ==> same_edit(#[trigger] r.0@[i], edits@[r.1@[i] as int]),
{
    let n = edits.len();
    let mut order: Vec<usize> = Vec::new();
    let mut i: usize = 0;
    while i < n
        invariant
            n == edits@.len(),
            i <= n,
            order@.len() == i,
            forall|k: int| 0 <= k < order@.len() ==> (#[trigger] order@[k]) < i,
            forall|a: int, b: int| 0 <= a < b < order@.len() ==> edit_before(edits@[#[trigger] order@[a] as int], order@[a] as int, edits@[#[trigger] order@[b] as int], order@[b] as int),
        decreases n - i,
    {
        let e = &edits[i];
        let mut p: usize = 0;
        while p < order.len()
            invariant
                n == edits@.len(),
                i < n,
                e.start == edits@[i as int].start,
                e.end == edits@[i as int].end,
                p <= order@.len(),
                order@.len() == i,
                forall|k: int| 0 <= k < order@.len() ==> (#[trigger] order@[k]) < i,
                forall|k: int| 0 <= k < p ==> edit_before(edits@[#[trigger] order@[k] as int], order@[k] as int, edits@[i as int], i as int),
            ensures
                p <= order@.len(),
                forall|k: int| 0 <= k < p ==> edit_before(edits@[#[trigger] order@[k] as int], order@[k] as int, edits@[i as int], i as int),
                p < order@.len() ==> !(edits@[order@[p as int] as int].start < edits@[i as int].start
                    || (edits@[order@[p as int] as int].start == edits@[i as int].start && edits@[order@[p as int] as int].end <= edits@[i as int].end)),
            decreases order@.len() - p,
        {
            let q = order[p];
            let earlier = edits[q].start < e.start || (edits[q].start == e.start && edits[q].end <= e.end);
            if !earlier {
                break;
            }
            assert(order@[p as int] < i);
            p = p + 1;
        }
        let ghost before = order@;
        proof {
            if p < before.len() {
                assert(edit_before(edits@[i as int], i as int, edits@[before[p as int] as int], before[p as int] as int));
            }
        }
        order.insert(p, i);
        proof {
            assert forall|a: int, b: int| 0 <= a < b < order@.len() implies edit_before(edits@[#[trigger] order@[a] as int], order@[a] as int, edits@[#[trigger] order@[b] as int], order@[b] as int) by {
                if b < p {
                    assert(order@[a] == before[a] && order@[b] == before[b]);
                } else if b == p {
                    assert(order@[a] == before[a]);
                } else if a == p {
                    assert(order@[b] == before[b - 1]);
                    if b - 1 > p {
                        assert(edit_before(edits@[before[p as int] as int], before[p as int] as int, edits@[before[b - 1] as int], before[b - 1] as int));
                    }
                } else if a < p {
                    assert(order@[a] == before[a] && order@[b] == before[b - 1]);
                } else {
                    assert(order@[a] == before[a - 1] && order@[b] == before[b - 1]);
                }
            }
            assert forall|k: int| 0 <= k < order@.len() implies (#[trigger] order@[k]) < i + 1 by {
                if k < p {
                    assert(order@[k] == before[k]);
                } else if k > p {
                    assert(order@[k] == before[k - 1]);
                }
            }
        }
        i = i + 1;
    }
    let mut sorted: Vec<ResolvedEdit> = Vec::new();
    let mut k: usize = 0;
    while k < n
        invariant
            n == edits@.len(),
            order@.len() == n,
            forall|j: int| 0 <= j < order@.len() ==> (#[trigger] order@[j]) < n,
            k <= n,
            sorted@.len() == k,
            forall|j: int| 0 <= j < k ==> same_edit(#[trigger] sorted@[j], edits@[order@[j] as int]),
        decreases n - k,
    {
        let c = copy_edit(&edits[order[k]]);
        sorted.push(c);
        k = k + 1;
    }
    (sorted, order)
}

/// A byte offset at which an edit may start or end: within the file and not inside the
/// encoding of a character.
pub open spec fn char_boundary(content: Seq<u8>, index: u64) -> bool {
    index <= content.len() && (index == content.len() || !vstd::utf8::is_continuation_byte(content[index as int]))
}

/// The file starts with a UTF-8 byte order mark.
pub open spec fn has_bom(content: Seq<u8>) -> bool {
    content.len() >= 3 && content[0] == 0xefu8 && content[1] == 0xbbu8 && content[2] == 0xbfu8
}

/// The error of resolving byte edits against a file's content, if any.
pub open spec fn byte_edit_error(content: Seq<u8>, edits: Seq<TextEdit>, preserve_bom: bool) -> Option<Seq<char>> {
    if !valid_utf8(content) {
        Some("invalidUtf8"@)
    } else if preserve_bom && has_bom(content) && exists|i: int| 0 <= i < edits.len() && (match (#[trigger] edits[i]).start_byte { Some(s) => s, None => 0u64 }) < 3 {
        Some("bomPreservationViolation"@)
    } else if exists|i: int| 0 <= i < edits.len() && !(char_boundary(content, match (#[trigger] edits[i]).start_byte { Some(s) => s, None => 0u64 })
        && char_boundary(content, match edits[i].end_byte { Some(s) => s, None => 0u64 })) {
        Some("invalidUtf8Boundary"@)
    } else {
        None
    }
}

fn is_boundary(content: &[u8], index: u64) -> (r: bool)
    ensures
        r == char_boundary(content@, index),
{
    let n = content.len();
    if index > n as u64 {
        return false;
    }
    if index == n as u64 {
        return true;
    }
    let b = content[index as usize];
    !(0x80 <= b && b <= 0xbf)
}

/// Resolves byte-range edits against a file's content: the content must be UTF-8, a
/// preserved byte order mark must stay in front, and every range must end on character
/// boundaries. Replacements take the file's dominant line ending when asked.
pub fn resolve_byte_edits(content: &[u8], request: &ApplyEditsRequest) -> (r: RuntimeResult<(Vec<ResolvedEdit>, Option<String>)>)
    ensures
        match byte_edit_error(content@, request.edits@, request.preserve_bom) {
            Some(code) => r matches Err(e) && e.code@ == code,
            None => r matches Ok((edits, newline)) && {
                let (lf, crlf) = newline_counts(content@);
                let nl = dominant_spec(lf as u64, crlf as u64);
                &&& crate::context::opt_view(newline) == nl
                &&& edits@.len() == request.edits@.len()
                &&& forall|i: int| 0 <= i < edits@.len() ==> {
                    let t = #[trigger] request.edits@[i];
                    &&& edits@[i].start == (match t.start_byte { Some(s) => s, None => 0u64 })
                    &&& edits@[i].end == (match t.end_byte { Some(s) => s, None => 0u64 })
                    &&& edits@[i].text@ == replacement_bytes(t.text@, nl, request.preserve_line_endings)
                }
            },
        },
{
    if crate::text::utf8_str(content).is_none() {
        return Err(RuntimeError::new("invalidUtf8", "target is not valid UTF-8 text"));
    }
    let n = request.edits.len();
    if request.preserve_bom && content.len() >= 3 && content[0] == 0xef && content[1] == 0xbb && content[2] == 0xbf {
        let mut i: usize = 0;
        while i < n
            invariant
                n == request.edits@.len(),
                i <= n,
                vstd::utf8::valid_utf8(content@),
                request.preserve_bom,
                has_bom(content@),
                forall|k: int| 0 <= k < i ==> (match (#[trigger] request.edits@[k]).start_byte { Some(s) => s, None => 0u64 }) >= 3,
            decreases n - i,
        {
            let start = match request.edits[i].start_byte { Some(s) => s, None => 0 };
            if start < 3 {
                assert((match request.edits@[i as int].start_byte { Some(s) => s, None => 0u64 }) < 3);
                return Err(RuntimeError::new("bomPreservationViolation", "edit would remove or precede the UTF-8 BOM while preserveBom is true"));
            }
            i = i + 1;
        }
    }
    let mut j: usize = 0;
    while j < n
        invariant
            n == request.edits@.len(),
            j <= n,
            vstd::utf8::valid_utf8(content@),
            !(request.preserve_bom && has_bom(content@) && exists|i: int| 0 <= i < request.edits@.len() && (match (#[trigger] request.edits@[i]).start_byte { Some(s) => s, None => 0u64 }) < 3),
            forall|k: int| 0 <= k < j ==> char_boundary(content@, match (#[trigger] request.edits@[k]).start_byte { Some(s) => s, None => 0u64 })
                && char_boundary(content@, match request.edits@[k].end_byte { Some(s) => s, None => 0u64 }),
        decreases n - j,
    {
        let e = &request.edits[j];
        let start = match e.start_byte { Some(s) => s, None => 0 };
        let end = match e.end_byte { Some(s) => s, None => 0 };
        if !is_boundary(content, start) || !is_boundary(content, end) {
            assert(!(char_boundary(content@, match request.edits@[j as int].start_byte { Some(s) => s, None => 0u64 })
                && char_boundary(content@, match request.edits@[j as int].end_byte { Some(s) => s, None => 0u64 })));
            return Err(RuntimeError::new("invalidUtf8Boundary", "byte range splits a UTF-8 code point or is outside the file"));
        }
        j = j + 1;
    }
    let (lf, crlf) = count_newlines(content);
    let newline = dominant_newline(lf, crlf);
    let mut edits: Vec<ResolvedEdit> = Vec::new();
    let mut k: usize = 0;
    while k < n
        invariant
            n == request.edits@.len(),
            k <= n,
            crate::context::opt_view(newline) == dominant_spec(lf, crlf),
            edits@.len() == k,
            forall|i: int| 0 <= i < k ==> {
                let t = #[trigger] request.edits@[i];
                &&& edits@[i].start == (match t.start_byte { Some(s) => s, None => 0u64 })
                &&& edits@[i].end == (match t.end_byte { Some(s) => s, None => 0u64 })
                &&& edits@[i].text@ == replacement_bytes(t.text@, dominant_spec(lf, crlf), request.preserve_line_endings)
            },
        decreases n - k,
    {
        let e = &request.edits[k];
        let text = match &newline {
            Some(nl) => normalize_replacement(e.text.as_str(), Some(nl.as_str()), request.preserve_line_endings),
            None => normalize_replacement(e.text.as_str(), None, request.preserve_line_endings),
        };
        edits.push(ResolvedEdit {
            start: match e.start_byte { Some(s) => s, None => 0 },
            end: match e.end_byte { Some(s) => s, None => 0 },
            text,
        });
        k = k + 1;
    }
    Ok((edits, newline))
}


pub const PREVIEW_BYTES: usize = 8192;

/// A result too large for the write budget is refused.
pub fn check_write_budget(bytes_written: u64, max_bytes_written: u64) -> (r: RuntimeResult<()>)
    ensures
        r is Ok <==> bytes_written <= max_bytes_written,
        r matches Err(e) ==> e.code@ == "writeBudgetExceeded"@,
{
    if bytes_written > max_bytes_written {
        return Err(RuntimeError::new("writeBudgetExceeded", "result exceeds budget.maxBytesWritten"));
    }
    Ok(())
}

/// `String::from_utf8_lossy`: the text of some bytes, each invalid sequence replaced by
/// U+FFFD.
pub uninterp spec fn spec_utf8_lossy(bytes: Seq<u8>) -> Seq<char>;

/// `String::from_utf8_lossy`. The result is `spec_utf8_lossy` of the bytes, and for valid
/// UTF-8 the decoded text; how invalid sequences are replaced is not stated here.
#[verifier::external_body]
fn utf8_lossy(bytes: &[u8]) -> (r: String)
    ensures
        r@ == spec_utf8_lossy(bytes@),
        valid_utf8(bytes@) ==> r@ == vstd::utf8::decode_utf8(bytes@),
{
    String::from_utf8_lossy(bytes).into_owned()
}

/// The preview line of one edit.
pub open spec fn preview_line(e: ResolvedEdit) -> Seq<char> {
    "@@ bytes "@ + crate::text::decimal(e.start as nat) + ".."@ + crate::text::decimal(e.end as nat) + " @@\n+"@
        + spec_utf8_lossy(e.text@) + "\n"@
}

/// The preview of the edits from `i` on, after `acc`: each edit's line while the preview
/// stays within its byte limit, then a note that it was cut.
pub open spec fn preview_from(edits: Seq<ResolvedEdit>, i: int, acc: Seq<char>) -> Seq<char>
    decreases edits.len() - i,
{
    if i < 0 || i >= edits.len() {
        acc
    } else if crate::text::byte_len(preview_line(edits[i])) as int > PREVIEW_BYTES - crate::text::byte_len(acc) as int {
        acc + "... preview truncated"@
    } else {
        preview_from(edits, i + 1, acc + preview_line(edits[i]))
    }
}

/// The preview of a set of edits: each one's byte range and new text, within eight KiB.
pub fn preview(edits: &Vec<ResolvedEdit>) -> (r: String)
    ensures
        r@ == preview_from(edits@, 0, Seq::empty()),
{
    let mut result = String::new();
    let mut i: usize = 0;
    while i < edits.len()
        invariant
            i <= edits@.len(),
            preview_from(edits@, 0, Seq::empty()) == preview_from(edits@, i as int, result@),
        decreases edits.len() - i,
    {
        let e = &edits[i];
        let mut v: Vec<char> = Vec::new();
        crate::text::extend_str(&mut v, "@@ bytes ");
        crate::text::push_decimal(&mut v, e.start);
        crate::text::extend_str(&mut v, "..");
        crate::text::push_decimal(&mut v, e.end);
        crate::text::extend_str(&mut v, " @@\n+");
        let lossy = utf8_lossy(e.text.as_slice());
        crate::text::extend_str(&mut v, lossy.as_str());
        crate::text::extend_str(&mut v, "\n");
        let line = crate::text::string_from_chars(v.as_slice());
        assert(line@ == preview_line(edits@[i as int]));
        let used = crate::text::utf8_len(result.as_str());
        let size = crate::text::utf8_len(line.as_str());
        if used > PREVIEW_BYTES || size > PREVIEW_BYTES - used {
            let truncated = crate::text::concat_str(result.as_str(), "... preview truncated");
            return truncated;
        }
        let next = crate::text::concat_str(result.as_str(), line.as_str());
        result = next;
        i = i + 1;
    }
    result
}

/// What applying edits reports.
#[derive(Debug, Clone)]
pub struct ApplyEditsResult {
    pub path: String,
    pub applied: bool,
    pub dry_run: bool,
    pub old_version: String,
    pub new_version: String,
    pub edits_applied: usize,
    pub bytes_read: u64,
    pub bytes_written: u64,
    pub additions: u64,
    pub deletions: u64,
    pub preview: String,
    pub diff_artifact_ref: Option<String>,
    pub commit_state: String,
}

/// The report of edits that passed every check: a dry run is not applied and keeps the
/// expected version; a real edit is applied and committed, its new version left for the
/// caller to fill in once the file has been statted again. `bytes_read` is what the read
/// budget admitted and `bytes_written` the edited size.
pub fn edits_result(path: String, expected_version: &str, dry_run: bool, bytes_read: u64, bytes_written: u64, edits: &Vec<ResolvedEdit>) -> (r: ApplyEditsResult)
    ensures
        r.path == path,
        r.applied == !dry_run,
        r.dry_run == dry_run,
        r.old_version@ == expected_version@,
        r.new_version@ == (if dry_run { expected_version@ } else { Seq::<char>::empty() }),
        r.edits_applied == edits@.len(),
        r.bytes_read == bytes_read,
        r.bytes_written == bytes_written,
        r.additions == (if line_counts(edits@).0 > u64::MAX { u64::MAX as int } else { line_counts(edits@).0 }),
        r.deletions == line_counts(edits@).1,
        r.preview@ == preview_from(edits@, 0, Seq::empty()),
        r.diff_artifact_ref is None,
        r.commit_state@ == (if dry_run { "notCommitted"@ } else { "committed"@ }),
{
    let (additions, deletions) = edit_line_counts(edits);
    ApplyEditsResult {
        path,
        applied: !dry_run,
        dry_run,
        old_version: expected_version.to_owned(),
        new_version: if dry_run { expected_version.to_owned() } else { String::new() },
        edits_applied: edits.len(),
        bytes_read,
        bytes_written,
        additions,
        deletions,
        preview: preview(edits),
        diff_artifact_ref: None,
        commit_state: if dry_run { "notCommitted".to_owned() } else { "committed".to_owned() },
    }
}

} // verus!
