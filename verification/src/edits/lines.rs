//! Resolving 1-based line/column positions (columns counted in code points) to byte
//! offsets of a UTF-8 text. A byte order mark at the start is encoding metadata: it takes
//! no column.

use vstd::prelude::*;
use vstd::utf8::{decode_utf8, encode_scalar, encode_utf8, valid_utf8};
use crate::edits::{
    ApplyEditsRequest, ResolvedEdit, TextPosition, count_newlines, dominant_newline, dominant_spec,
    newline_counts, normalize_replacement, replacement_bytes,
};
use crate::error::{RuntimeError, RuntimeResult};

verus! {

/// The index of the first character that counts as text: past a leading byte order mark.
pub open spec fn text_start(chars: Seq<char>) -> int {
    if chars.len() > 0 && chars[0] == '\u{feff}' { 1 } else { 0 }
}

/// The (line, column) of the place before character `k` (or of the end, for `k` equal to
/// the length).
pub open spec fn position_at(chars: Seq<char>, k: int) -> (int, int)
    decreases k,
{
    if k <= text_start(chars) {
        (1, 1)
    } else {
        let p = position_at(chars, k - 1);
        if chars[k - 1] == '\n' { (p.0 + 1, 1) } else { (p.0, p.1 + 1) }
    }
}

/// The byte offset of character `k`.
pub open spec fn byte_offset(chars: Seq<char>, k: int) -> int {
    encode_utf8(chars.take(k)).len() as int
}

/// `k` is the place that `pos` names in the text.
pub open spec fn locates(chars: Seq<char>, pos: TextPosition, k: int) -> bool {
    &&& text_start(chars) <= k <= chars.len()
    &&& position_at(chars, k) == (pos.line as int, pos.column as int)
}

/// The position an edit bound gives (both are present in a line/column request).
pub open spec fn bound(p: Option<TextPosition>) -> TextPosition {
    match p {
        Some(q) => q,
        None => TextPosition { line: 0, column: 0 },
    }
}

/// A line or column of 0 (they are 1-based).
pub open spec fn zero_position(p: TextPosition) -> bool {
    p.line == 0 || p.column == 0
}

/// The position names a place in the text.
pub open spec fn found(chars: Seq<char>, p: TextPosition) -> bool {
    exists|k: int| locates(chars, p, k)
}

/// The first problem of resolving line/column edits against a file's content, if any.
pub open spec fn line_column_error(content: Seq<u8>, r: ApplyEditsRequest) -> Option<Seq<char>> {
    if exists|i: int| 0 <= i < r.edits@.len() && (zero_position(bound((#[trigger] r.edits@[i]).start)) || zero_position(bound(r.edits@[i].end))) {
        Some("invalidRange"@)
    } else if !valid_utf8(content) {
        Some("invalidUtf8"@)
    } else if exists|i: int| 0 <= i < r.edits@.len() && !(found(decode_utf8(content), bound((#[trigger] r.edits@[i]).start))
        && found(decode_utf8(content), bound(r.edits@[i].end))) {
        Some("invalidRange"@)
    } else {
        None
    }
}

proof fn lemma_encode_concat(a: Seq<char>, b: Seq<char>)
    ensures
        encode_utf8(a + b) == encode_utf8(a) + encode_utf8(b),
    decreases a.len(),
{
    if a.len() > 0 {
        assert((a + b).drop_first() =~= a.drop_first() + b);
        lemma_encode_concat(a.drop_first(), b);
        assert(encode_utf8(a + b) =~= encode_scalar(a[0] as u32) + encode_utf8(a.drop_first() + b));
    } else {
        assert(a + b =~= b);
        assert(encode_utf8(a) =~= Seq::<u8>::empty());
        assert(encode_utf8(a) + encode_utf8(b) =~= encode_utf8(b));
    }
}

proof fn lemma_scalar_len(c: char)
    ensures
        1 <= encode_scalar(c as u32).len() <= 4,
{
    vstd::utf8::char_is_scalar(c);
}

proof fn lemma_encode_len(a: Seq<char>)
    ensures
        a.len() <= encode_utf8(a).len(),
    decreases a.len(),
{
    if a.len() > 0 {
        lemma_scalar_len(a[0]);
        lemma_encode_len(a.drop_first());
    }
}

/// The offset of the next character, one character further.
proof fn lemma_offset_step(chars: Seq<char>, k: int)
    requires
        0 <= k < chars.len(),
    ensures
        byte_offset(chars, k + 1) == byte_offset(chars, k) + encode_scalar(chars[k] as u32).len(),
        byte_offset(chars, k + 1) <= encode_utf8(chars).len(),
{
    assert(chars.take(k + 1) =~= chars.take(k) + seq![chars[k]]);
    lemma_encode_concat(chars.take(k), seq![chars[k]]);
    assert(seq![chars[k]].drop_first() =~= Seq::<char>::empty());
    assert(encode_utf8(seq![chars[k]]) =~= encode_scalar(chars[k] as u32) + encode_utf8(Seq::<char>::empty()));
    assert(chars =~= chars.take(k + 1) + chars.skip(k + 1));
    lemma_encode_concat(chars.take(k + 1), chars.skip(k + 1));
}

proof fn lemma_position_bounds(chars: Seq<char>, k: int)
    requires
        0 <= k,
    ensures
        1 <= position_at(chars, k).0 <= k + 1,
        1 <= position_at(chars, k).1 <= k + 1,
    decreases k,
{
    if k > text_start(chars) {
        lemma_position_bounds(chars, k - 1);
    }
}

/// Later places have later positions: line first, then column.
proof fn lemma_position_increases(chars: Seq<char>, j: int, k: int)
    requires
        text_start(chars) <= j < k <= chars.len(),
    ensures
        position_at(chars, j).0 < position_at(chars, k).0
            || (position_at(chars, j).0 == position_at(chars, k).0 && position_at(chars, j).1 < position_at(chars, k).1),
    decreases k - j,
{
    if j < k - 1 {
        lemma_position_increases(chars, j, k - 1);
    }
}

/// A line and column name at most one place of a text, so the offset an edit bound
/// resolves to is determined by the text and the position.
pub proof fn lemma_position_names_one_place(chars: Seq<char>, p: TextPosition, j: int, k: int)
    requires
        locates(chars, p, j),
        locates(chars, p, k),
    ensures
        j == k,
{
    if j < k {
        lemma_position_increases(chars, j, k);
    } else if k < j {
        lemma_position_increases(chars, k, j);
    }
}

/// The width in bytes of a character's UTF-8 encoding.
fn char_width(c: char) -> (w: u64)
    ensures
        w == encode_scalar(c as u32).len(),
{
    proof {
        vstd::utf8::char_is_scalar(c);
    }
    let u = c as u32;
    if u <= 0x7f {
        1
    } else if u <= 0x7ff {
        2
    } else if u <= 0xffff {
        3
    } else {
        4
    }
}

/// The byte offset of the place `p` names, if it names one.
fn locate(chars: &Vec<char>, content_len: usize, p: TextPosition) -> (r: Option<u64>)
    requires
        encode_utf8(chars@).len() == content_len,
        content_len < usize::MAX,
    ensures
        match r {
            Some(offset) => exists|k: int| locates(chars@, p, k) && offset == byte_offset(chars@, k),
            None => !found(chars@, p),
        },
{
    let n = chars.len();
    proof {
        lemma_encode_len(chars@);
    }
    let mut k: usize = if n > 0 && chars[0] == '\u{feff}' { 1 } else { 0 };
    let mut offset: u64 = if k == 1 { char_width(chars[0]) } else { 0 };
    proof {
        if k == 1 {
            lemma_offset_step(chars@, 0);
            assert(chars@.take(0) =~= Seq::<char>::empty());
        } else {
            assert(chars@.take(0) =~= Seq::<char>::empty());
        }
    }
    let mut line: usize = 1;
    let mut column: usize = 1;
    while k <= n
        invariant
            n == chars@.len(),
            encode_utf8(chars@).len() == content_len,
            content_len < usize::MAX,
            n <= content_len,
            text_start(chars@) <= k,
            k <= n + 1,
            k <= n ==> offset == byte_offset(chars@, k as int),
            k <= n ==> (line as int, column as int) == position_at(chars@, k as int),
            forall|j: int| text_start(chars@) <= j < k && j <= n ==> position_at(chars@, j) != (p.line as int, p.column as int),
        decreases n + 1 - k,
    {
        if line == p.line && column == p.column {
            return Some(offset);
        }
        if k == n {
            k = k + 1;
        } else {
            let c = chars[k];
            proof {
                lemma_offset_step(chars@, k as int);
                lemma_position_bounds(chars@, k as int);
            }
            offset = offset + char_width(c);
            if c == '\n' {
                line = line + 1;
                column = 1;
            } else {
                column = column + 1;
            }
            k = k + 1;
        }
    }
    None
}

/// Resolves line/column edits against a file's content: positions are 1-based, the
/// content must be UTF-8 and every position must name a place in the text (the end of the
/// text included). Replacements take the file's dominant line ending when asked.
pub fn resolve_line_column_edits(content: &[u8], request: &ApplyEditsRequest) -> (r: RuntimeResult<(Vec<ResolvedEdit>, Option<String>)>)
    requires
        content@.len() < usize::MAX,
        forall|i: int| 0 <= i < request.edits@.len() ==> (#[trigger] request.edits@[i]).start is Some && request.edits@[i].end is Some,
    ensures
        match line_column_error(content@, *request) {
            Some(code) => r matches Err(e) && e.code@ == code,
            None => r matches Ok((edits, newline)) && {
                let chars = decode_utf8(content@);
                let (lf, crlf) = newline_counts(content@);
                let nl = dominant_spec(lf as u64, crlf as u64);
                &&& crate::context::opt_view(newline) == nl
                &&& edits@.len() == request.edits@.len()
                &&& forall|i: int| 0 <= i < edits@.len() ==> {
                    let t = #[trigger] request.edits@[i];
                    &&& (exists|k: int| locates(chars, bound(t.start), k) && edits@[i].start == byte_offset(chars, k))
                    &&& (exists|k: int| locates(chars, bound(t.end), k) && edits@[i].end == byte_offset(chars, k))
                    &&& edits@[i].text@ == replacement_bytes(t.text@, nl, request.preserve_line_endings)
                }
            },
        },
{
    let n = request.edits.len();
    let mut i: usize = 0;
    while i < n
        invariant
            n == request.edits@.len(),
            i <= n,
            forall|j: int| 0 <= j < request.edits@.len() ==> (#[trigger] request.edits@[j]).start is Some && request.edits@[j].end is Some,
            forall|j: int| 0 <= j < i ==> !(zero_position(bound((#[trigger] request.edits@[j]).start)) || zero_position(bound(request.edits@[j].end))),
        decreases n - i,
    {
        let e = &request.edits[i];
        let bad = match (e.start, e.end) {
            (Some(s), Some(t)) => s.line == 0 || s.column == 0 || t.line == 0 || t.column == 0,
            _ => true,
        };
        if bad {
            assert(zero_position(bound(request.edits@[i as int].start)) || zero_position(bound(request.edits@[i as int].end)));
            return Err(RuntimeError::new("invalidRange", "line and column are 1-based"));
        }
        i = i + 1;
    }
    let text = match crate::text::utf8_str(content) {
        Some(s) => s,
        None => {
            return Err(RuntimeError::new("invalidUtf8", "target is not valid UTF-8 text"));
        },
    };
    let chars = crate::text::chars_of(text);
    proof {
        vstd::utf8::decode_utf8_encode_utf8(content@);
    }
    let (lf, crlf) = count_newlines(content);
    let newline = dominant_newline(lf, crlf);
    let mut edits: Vec<ResolvedEdit> = Vec::new();
    let mut k: usize = 0;
    while k < n
        invariant
            n == request.edits@.len(),
            k <= n,
            content@.len() < usize::MAX,
            valid_utf8(content@),
            chars@ == decode_utf8(content@),
            encode_utf8(chars@) == content@,
            forall|j: int| 0 <= j < request.edits@.len() ==> (#[trigger] request.edits@[j]).start is Some && request.edits@[j].end is Some,
            !(exists|j: int| 0 <= j < request.edits@.len() && (zero_position(bound((#[trigger] request.edits@[j]).start)) || zero_position(bound(request.edits@[j].end)))),
            forall|j: int| 0 <= j < k ==> found(chars@, bound((#[trigger] request.edits@[j]).start)) && found(chars@, bound(request.edits@[j].end)),
            crate::context::opt_view(newline) == dominant_spec(lf, crlf),
            (lf as int, crlf as int) == newline_counts(content@),
            edits@.len() == k,
            forall|j: int| 0 <= j < k ==> {
                let t = #[trigger] request.edits@[j];
                &&& (exists|q: int| locates(chars@, bound(t.start), q) && edits@[j].start == byte_offset(chars@, q))
                &&& (exists|q: int| locates(chars@, bound(t.end), q) && edits@[j].end == byte_offset(chars@, q))
                &&& edits@[j].text@ == replacement_bytes(t.text@, dominant_spec(lf, crlf), request.preserve_line_endings)
            },
        decreases n - k,
    {
        let e = &request.edits[k];
        let (s, t) = match (e.start, e.end) {
            (Some(s), Some(t)) => (s, t),
            _ => {
                assert(false);
                return Err(RuntimeError::new("invalidRange", "line/column is outside the file"));
            },
        };
        let start = match locate(&chars, content.len(), s) {
            Some(o) => o,
            None => {
                assert(!found(chars@, bound(request.edits@[k as int].start)));
                return Err(RuntimeError::new("invalidRange", "line/column is outside the file"));
            },
        };
        let end = match locate(&chars, content.len(), t) {
            Some(o) => o,
            None => {
                assert(!found(chars@, bound(request.edits@[k as int].end)));
                return Err(RuntimeError::new("invalidRange", "line/column is outside the file"));
            },
        };
        let text = match &newline {
            Some(nl) => normalize_replacement(e.text.as_str(), Some(nl.as_str()), request.preserve_line_endings),
            None => normalize_replacement(e.text.as_str(), None, request.preserve_line_endings),
        };
        edits.push(ResolvedEdit { start, end, text });
        k = k + 1;
    }
    Ok((edits, newline))
}

} // verus!
