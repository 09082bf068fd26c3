//! Reading a range of lines from a text file, one byte at a time as the file is streamed.
//!
//! Lines end with `\n`, `\r\n`, or a lone `\r`. The lines `start .. start + limit` are
//! copied to the output, with their own line endings when asked for, else separated by
//! `\n`; the output never grows past its limit. The caller feeds bytes while the reader is
//! not `stopped`, stops when a byte is not consumed, tells it when the file ended, and then
//! asks for the summary of the read.

use vstd::prelude::*;
use crate::workspace::listing::TruncationReason;
use crate::workspace::read::{ending_kind, line_ending_kind};

verus! {

/// The state of a line read.
#[derive(Debug)]
pub struct LineRangeReader {
    pub start: usize,
    pub limit: usize,
    pub include_line_endings: bool,
    pub output_limit: usize,
    pub output: Vec<u8>,
    pub output_limited: bool,
    pub current_line: usize,
    pub emitted_lines: usize,
    pub last_emitted_line: Option<usize>,
    pub saw_any_byte: bool,
    pub last_was_terminator: bool,
    pub pending_cr: bool,
    pub byte_offset: u64,
    pub lf: u64,
    pub crlf: u64,
    pub cr: u64,
}

/// The state of a line read as a value.
pub struct LineState {
    pub start: usize,
    pub limit: usize,
    pub include_line_endings: bool,
    pub output_limit: usize,
    pub output: Seq<u8>,
    pub output_limited: bool,
    pub current_line: usize,
    pub emitted_lines: usize,
    pub last_emitted_line: Option<usize>,
    pub saw_any_byte: bool,
    pub last_was_terminator: bool,
    pub pending_cr: bool,
    pub byte_offset: u64,
    pub lf: u64,
    pub crlf: u64,
    pub cr: u64,
}

impl LineRangeReader {
    pub open spec fn model(&self) -> LineState {
        LineState {
            start: self.start,
            limit: self.limit,
            include_line_endings: self.include_line_endings,
            output_limit: self.output_limit,
            output: self.output@,
            output_limited: self.output_limited,
            current_line: self.current_line,
            emitted_lines: self.emitted_lines,
            last_emitted_line: self.last_emitted_line,
            saw_any_byte: self.saw_any_byte,
            last_was_terminator: self.last_was_terminator,
            pending_cr: self.pending_cr,
            byte_offset: self.byte_offset,
            lf: self.lf,
            crlf: self.crlf,
            cr: self.cr,
        }
    }

    /// The output never passes its limit.
    pub open spec fn wf(&self) -> bool {
        &&& self.output_limit >= 1
        &&& self.output@.len() <= self.output_limit
        &&& self.emitted_lines <= self.limit
    }
}

pub open spec fn sat_inc_usize(v: usize) -> usize {
    if v == usize::MAX { v } else { (v + 1) as usize }
}

pub open spec fn sat_inc_u64(v: u64) -> u64 {
    if v == u64::MAX { v } else { (v + 1) as u64 }
}

/// Appends `b` unless the output is full, in which case the read is marked limited.
pub open spec fn pushed(out: Seq<u8>, limited: bool, limit: usize, b: u8) -> (Seq<u8>, bool) {
    if out.len() < limit { (out.push(b), limited) } else { (out, true) }
}

/// What ends an emitted line in the output: its own ending when line endings are kept,
/// else a `\n` before the next line (none after the last line of the range).
pub open spec fn emitted_ending(keep: bool, ending: Seq<u8>, emitted: usize, limit: usize) -> Seq<u8> {
    if keep { ending } else if emitted + 1 < limit { seq![10u8] } else { Seq::empty() }
}

/// A line ends with `ending`: if it is in the range, its ending goes to the output and it
/// counts as emitted.
pub open spec fn finish_spec(m: LineState, ending: Seq<u8>) -> LineState {
    if m.current_line < m.start || m.emitted_lines >= m.limit {
        m
    } else {
        let e = emitted_ending(m.include_line_endings, ending, m.emitted_lines, m.limit);
        let (o1, l1) = if e.len() >= 1 { pushed(m.output, m.output_limited, m.output_limit, e[0]) } else { (m.output, m.output_limited) };
        let (o2, l2) = if e.len() >= 2 { pushed(o1, l1, m.output_limit, e[1]) } else { (o1, l1) };
        LineState {
            output: o2,
            output_limited: l2,
            emitted_lines: (m.emitted_lines + 1) as usize,
            last_emitted_line: Some(m.current_line),
            ..m
        }
    }
}

/// After a line ending: the next line begins.
pub open spec fn next_line(m: LineState) -> LineState {
    LineState { current_line: sat_inc_usize(m.current_line), last_was_terminator: true, pending_cr: false, ..m }
}

/// The read has what it came for, or its output is full.
pub open spec fn stopped_spec(m: LineState) -> bool {
    m.emitted_lines >= m.limit || m.output_limited
}

/// A byte that is not part of a `\r\n` pair begun before it.
pub open spec fn plain_byte(m: LineState, b: u8) -> LineState {
    let n = if b == 13u8 {
        LineState { pending_cr: true, ..m }
    } else if b == 10u8 {
        next_line(finish_spec(LineState { lf: sat_inc_u64(m.lf), ..m }, seq![10u8]))
    } else if m.current_line >= m.start && m.emitted_lines < m.limit {
        let (o, l) = pushed(m.output, m.output_limited, m.output_limit, b);
        LineState { output: o, output_limited: l, ..m }
    } else {
        m
    };
    LineState { byte_offset: sat_inc_u64(n.byte_offset), ..n }
}

/// The reader after byte `b`, and whether it consumed the byte (a byte that follows a
/// lone `\r` ending the range is left unread).
pub open spec fn feed_spec(m: LineState, b: u8) -> (LineState, bool) {
    let m1 = LineState { saw_any_byte: true, last_was_terminator: false, ..m };
    if m.pending_cr {
        if b == 10u8 {
            let m2 = next_line(finish_spec(LineState { crlf: sat_inc_u64(m1.crlf), ..m1 }, seq![13u8, 10u8]));
            (LineState { byte_offset: sat_inc_u64(m2.byte_offset), ..m2 }, true)
        } else {
            let m2 = next_line(finish_spec(LineState { cr: sat_inc_u64(m1.cr), ..m1 }, seq![13u8]));
            if stopped_spec(m2) { (m2, false) } else { (plain_byte(m2, b), true) }
        }
    } else {
        (plain_byte(m1, b), true)
    }
}

/// The file ended: a `\r` at its end ends the last line.
pub open spec fn end_spec(m: LineState) -> LineState {
    if m.pending_cr {
        next_line(finish_spec(LineState { cr: sat_inc_u64(m.cr), ..m }, seq![13u8]))
    } else {
        m
    }
}

/// After the last byte was read: a last line without an ending counts as emitted when the
/// file ended inside the range.
pub open spec fn close_spec(m: LineState, eof: bool) -> LineState {
    if eof && !m.pending_cr && m.saw_any_byte && !m.last_was_terminator && m.current_line >= m.start && m.emitted_lines < m.limit {
        LineState { emitted_lines: (m.emitted_lines + 1) as usize, last_emitted_line: Some(m.current_line), ..m }
    } else {
        m
    }
}

impl LineRangeReader {
    /// A read of `limit` lines from line `start`, with an output of at most `max_bytes`
    /// (at least one) bytes.
    pub fn new(start: usize, limit: usize, include_line_endings: bool, max_bytes: usize) -> (r: Self)
        requires
            start >= 1,
            limit >= 1,
        ensures
            r.wf(),
            r.model() == (LineState {
                start,
                limit,
                include_line_endings,
                output_limit: if max_bytes < 1 { 1 } else { max_bytes },
                output: Seq::empty(),
                output_limited: false,
                current_line: 1,
                emitted_lines: 0,
                last_emitted_line: None,
                saw_any_byte: false,
                last_was_terminator: false,
                pending_cr: false,
                byte_offset: 0,
                lf: 0,
                crlf: 0,
                cr: 0,
            }),
    {
        LineRangeReader {
            start,
            limit,
            include_line_endings,
            output_limit: if max_bytes < 1 { 1 } else { max_bytes },
            output: Vec::new(),
            output_limited: false,
            current_line: 1,
            emitted_lines: 0,
            last_emitted_line: None,
            saw_any_byte: false,
            last_was_terminator: false,
            pending_cr: false,
            byte_offset: 0,
            lf: 0,
            crlf: 0,
            cr: 0,
        }
    }

    /// The read has what it came for, or its output is full.
    pub fn stopped(&self) -> (r: bool)
        ensures
            r == stopped_spec(self.model()),
    {
        self.emitted_lines >= self.limit || self.output_limited
    }

    fn push_bounded(&mut self, b: u8)
        requires
            old(self).wf(),
        ensures
            final(self).wf(),
            final(self).model() == (LineState {
                output: pushed(old(self).output@, old(self).output_limited, old(self).output_limit, b).0,
                output_limited: pushed(old(self).output@, old(self).output_limited, old(self).output_limit, b).1,
                ..old(self).model()
            }),
    {
        if self.output.len() < self.output_limit {
            self.output.push(b);
        } else {
            self.output_limited = true;
        }
    }

    fn finish_line(&mut self, ending: &[u8])
        requires
            old(self).wf(),
            1 <= ending@.len() <= 2,
        ensures
            final(self).wf(),
            final(self).model() == finish_spec(old(self).model(), ending@),
    {
        if self.current_line < self.start || self.emitted_lines >= self.limit {
            return;
        }
        if self.include_line_endings {
            self.push_bounded(ending[0]);
            if ending.len() >= 2 {
                self.push_bounded(ending[1]);
            }
        } else if self.emitted_lines + 1 < self.limit {
            self.push_bounded(10);
        }
        self.emitted_lines = self.emitted_lines + 1;
        self.last_emitted_line = Some(self.current_line);
    }

    fn advance_line(&mut self)
        ensures
            final(self).model() == next_line(old(self).model()),
            final(self).output@ == old(self).output@,
            final(self).output_limit == old(self).output_limit,
            final(self).emitted_lines == old(self).emitted_lines,
            final(self).limit == old(self).limit,
    {
        self.current_line = self.current_line.saturating_add(1);
        self.last_was_terminator = true;
        self.pending_cr = false;
    }

    fn plain(&mut self, b: u8)
        requires
            old(self).wf(),
        ensures
            final(self).wf(),
            final(self).model() == plain_byte(old(self).model(), b),
    {
        if b == 13 {
            self.pending_cr = true;
        } else if b == 10 {
            self.lf = self.lf.saturating_add(1);
            let lf: [u8; 1] = [10];
            self.finish_line(&lf);
            self.advance_line();
        } else if self.current_line >= self.start && self.emitted_lines < self.limit {
            self.push_bounded(b);
        }
        self.byte_offset = self.byte_offset.saturating_add(1);
    }

    /// Reads one byte of the file; returns whether it was consumed.
    pub fn feed(&mut self, b: u8) -> (consumed: bool)
        requires
            old(self).wf(),
        ensures
            final(self).wf(),
            (final(self).model(), consumed) == feed_spec(old(self).model(), b),
    {
        self.saw_any_byte = true;
        self.last_was_terminator = false;
        if self.pending_cr {
            if b == 10 {
                self.crlf = self.crlf.saturating_add(1);
                let crlf: [u8; 2] = [13, 10];
                self.finish_line(&crlf);
                self.advance_line();
                self.byte_offset = self.byte_offset.saturating_add(1);
                return true;
            }
            self.cr = self.cr.saturating_add(1);
            let cr: [u8; 1] = [13];
            self.finish_line(&cr);
            self.advance_line();
            if self.stopped() {
                return false;
            }
        }
        self.plain(b);
        true
    }

    /// The file ended.
    pub fn end_of_file(&mut self)
        requires
            old(self).wf(),
        ensures
            final(self).wf(),
            final(self).model() == end_spec(old(self).model()),
    {
        if self.pending_cr {
            self.cr = self.cr.saturating_add(1);
            let cr: [u8; 1] = [13];
            self.finish_line(&cr);
            self.advance_line();
        }
    }

    /// Reading is over (`eof` tells whether the file's end was reached).
    pub fn close(&mut self, eof: bool)
        requires
            old(self).wf(),
        ensures
            final(self).wf(),
            final(self).model() == close_spec(old(self).model(), eof),
    {
        if eof && !self.pending_cr && self.saw_any_byte && !self.last_was_terminator && self.current_line >= self.start
            && self.emitted_lines < self.limit {
            self.emitted_lines = self.emitted_lines + 1;
            self.last_emitted_line = Some(self.current_line);
        }
    }
}

/// What a line read reports besides its content.
#[derive(Debug, Clone)]
pub struct LineReadSummary {
    pub end_line: Option<usize>,
    pub end_byte: u64,
    pub next_start_line: Option<usize>,
    pub next_byte_offset: Option<u64>,
    pub truncated: bool,
    pub truncation_reason: Option<String>,
    pub line_ending: String,
    pub line_ending_detection: String,
    pub total_lines: Option<usize>,
    pub total_lines_known: bool,
}

/// The summary of a read that ended in state `m`: the read reached the file's end when
/// the file ended or every byte of it was read; it is truncated by a full output, by the
/// read budget, or by the range when the file goes on; the next read starts after the last
/// line emitted.
pub open spec fn summary_spec(m: LineState, eof: bool, read_budget_limited: bool, file_size: u64, s: LineReadSummary) -> bool {
    let reached = eof || m.byte_offset >= file_size;
    let range_limited = !reached && m.emitted_lines >= m.limit;
    let truncated = m.output_limited || read_budget_limited || range_limited;
    &&& s.end_line == m.last_emitted_line
    &&& s.end_byte == m.byte_offset
    &&& s.truncated == truncated
    &&& s.next_start_line == (if truncated {
        Some(sat_inc_usize(match m.last_emitted_line { Some(l) => l, None => (m.start - 1) as usize }))
    } else {
        None::<usize>
    })
    &&& s.next_byte_offset == (if truncated { Some(m.byte_offset) } else { None::<u64> })
    &&& crate::context::opt_view(s.truncation_reason) == (if m.output_limited {
        Some("outputLimit"@)
    } else if read_budget_limited {
        Some("readBudget"@)
    } else if range_limited {
        Some("rangeLimit"@)
    } else {
        None::<Seq<char>>
    })
    &&& s.line_ending@ == ending_kind(m.lf, m.crlf, m.cr)
    &&& s.line_ending_detection@ == (if reached { "complete"@ } else { "sampled"@ })
    &&& s.total_lines == (if reached {
        Some(if m.saw_any_byte { if m.last_was_terminator { (m.current_line - 1) as usize } else { m.current_line } } else { 0usize })
    } else {
        None::<usize>
    })
    &&& s.total_lines_known == reached
}

impl LineRangeReader {
    /// The summary of the read.
    pub fn summary(&self, eof: bool, read_budget_limited: bool, file_size: u64) -> (s: LineReadSummary)
        requires
            self.start >= 1,
            self.current_line >= 1,
        ensures
            summary_spec(self.model(), eof, read_budget_limited, file_size, s),
    {
        let reached = eof || self.byte_offset >= file_size;
        let range_limited = !reached && self.emitted_lines >= self.limit;
        let truncated = self.output_limited || read_budget_limited || range_limited;
        let reason = if self.output_limited {
            Some("outputLimit".to_owned())
        } else if read_budget_limited {
            Some("readBudget".to_owned())
        } else if range_limited {
            Some("rangeLimit".to_owned())
        } else {
            None
        };
        let total_lines = if reached {
            Some(if self.saw_any_byte {
                if self.last_was_terminator { self.current_line - 1 } else { self.current_line }
            } else {
                0
            })
        } else {
            None
        };
        let last = match self.last_emitted_line {
            Some(l) => l,
            None => self.start - 1,
        };
        LineReadSummary {
            end_line: self.last_emitted_line,
            end_byte: self.byte_offset,
            next_start_line: if truncated { Some(last.saturating_add(1)) } else { None },
            next_byte_offset: if truncated { Some(self.byte_offset) } else { None },
            truncated,
            truncation_reason: reason,
            line_ending: line_ending_kind(self.lf, self.crlf, self.cr),
            line_ending_detection: if reached { "complete".to_owned() } else { "sampled".to_owned() },
            total_lines,
            total_lines_known: reached,
        }
    }
}

/// The output never holds more than its limit, whatever bytes are read.
pub proof fn lemma_output_bounded(m: LineState, b: u8)
    requires
        m.output.len() <= m.output_limit,
        m.emitted_lines <= m.limit,
    ensures
        feed_spec(m, b).0.output.len() <= m.output_limit,
        feed_spec(m, b).0.emitted_lines <= m.limit,
        end_spec(m).output.len() <= m.output_limit,
{
}

} // verus!
