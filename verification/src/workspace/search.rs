//! The plain-text search of a workspace: which lines of a file hold the query, with or
//! without regard to case, up to the number of results still wanted. The files are walked
//! and read by the caller.

use vstd::prelude::*;
use crate::text::{chars_of, contains_chars, contains_seq, lemma_newline_in_range, newline_at, string_from_chars};
use crate::workspace::find::{spec_lowercase, to_lowercase};

verus! {

pub const MAX_SEARCH_RESULTS: usize = 2000;
pub const PROGRESS_EVERY_FILES: usize = 250;

/// How many results a search returns at most: between one and two thousand.
pub fn search_limit(max_results: usize) -> (r: usize)
    ensures
        r == (if max_results < 1 { 1 } else if max_results > MAX_SEARCH_RESULTS { MAX_SEARCH_RESULTS } else { max_results }),
{
    if max_results < 1 { 1 } else if max_results > MAX_SEARCH_RESULTS { MAX_SEARCH_RESULTS } else { max_results }
}

/// The query lines are compared with: as given, or lower-cased for a search that ignores
/// case.
pub fn search_query(query: &str, case_sensitive: bool) -> (r: String)
    ensures
        r@ == (if case_sensitive { query@ } else { spec_lowercase(query@) }),
{
    if case_sensitive { query.to_owned() } else { to_lowercase(query) }
}

/// Progress is reported for the first file scanned and every two hundred and fiftieth.
pub fn reports_progress(files_scanned: usize) -> (r: bool)
    ensures
        r == (files_scanned == 1 || files_scanned % PROGRESS_EVERY_FILES == 0),
{
    files_scanned == 1 || files_scanned % PROGRESS_EVERY_FILES == 0
}

/// A line without the `\r` of a `\r\n` ending.
pub open spec fn strip_cr(l: Seq<char>) -> Seq<char> {
    if l.len() > 0 && l.last() == '\r' { l.drop_last() } else { l }
}

/// The lines of a text from position `start` on, as `str::lines` gives them: split at
/// `\n`, each without a `\r` just before its `\n`, and no empty line after a final `\n`.
pub open spec fn lines_from(s: Seq<char>, start: int) -> Seq<Seq<char>>
    decreases s.len() - start,
{
    if start < 0 || start >= s.len() {
        Seq::empty()
    } else {
        let k = newline_at(s, start);
        if k >= s.len() || k < start {
            seq![s.subrange(start, s.len() as int)]
        } else {
            seq![strip_cr(s.subrange(start, k))] + lines_from(s, k + 1)
        }
    }
}

/// The lines of a text.
pub fn split_lines(c: &[char]) -> (r: Vec<Vec<char>>)
    ensures
        r@.len() == lines_from(c@, 0).len(),
        forall|i: int| 0 <= i < r@.len() ==> (#[trigger] r@[i])@ == lines_from(c@, 0)[i],
{
    let mut out: Vec<Vec<char>> = Vec::new();
    let mut start: usize = 0;
    while start < c.len()
        invariant
            start <= c@.len(),
            out@.len() + lines_from(c@, start as int).len() == lines_from(c@, 0).len(),
            forall|i: int| 0 <= i < out@.len() ==> (#[trigger] out@[i])@ == lines_from(c@, 0)[i],
            forall|i: int| 0 <= i < lines_from(c@, start as int).len()
                ==> lines_from(c@, 0)[out@.len() + i] == #[trigger] lines_from(c@, start as int)[i],
        decreases c.len() - start,
    {
        let mut k = start;
        while k < c.len() && c[k] != '\n'
            invariant
                start <= k <= c@.len(),
                newline_at(c@, start as int) == newline_at(c@, k as int),
            decreases c.len() - k,
        {
            k = k + 1;
        }
        proof {
            lemma_newline_in_range(c@, start as int);
        }
        let mut end = k;
        if k < c.len() && end > start && c[end - 1] == '\r' {
            end = end - 1;
        }
        let mut line: Vec<char> = Vec::new();
        let mut i = start;
        while i < end
            invariant
                start <= i <= end <= c@.len(),
                line@ == c@.subrange(start as int, i as int),
            decreases end - i,
        {
            line.push(c[i]);
            i = i + 1;
            assert(line@ =~= c@.subrange(start as int, i as int));
        }
        let ghost rest = lines_from(c@, start as int);
        proof {
            if k >= c@.len() {
                assert(rest =~= seq![c@.subrange(start as int, c@.len() as int)]);
            } else {
                if end < k {
                    assert(c@.subrange(start as int, k as int).drop_last() =~= c@.subrange(start as int, end as int));
                } else {
                    assert(c@.subrange(start as int, k as int) =~= c@.subrange(start as int, end as int));
                }
                assert(rest[0] == strip_cr(c@.subrange(start as int, k as int)));
            }
            assert(rest[0] == line@);
        }
        let ghost before: int = out@.len() as int;
        out.push(line);
        if k >= c.len() {
            proof {
                assert(lines_from(c@, c@.len() as int) =~= Seq::<Seq<char>>::empty());
                assert forall|j: int| 0 <= j < out@.len() implies (#[trigger] out@[j])@ == lines_from(c@, 0)[j] by {
                    if j == before {
                        assert(lines_from(c@, 0)[before] == rest[0]);
                    }
                }
            }
            start = c.len();
        } else {
            proof {
                let next = lines_from(c@, k + 1);
                assert(rest =~= seq![rest[0]] + next);
                assert forall|j: int| 0 <= j < out@.len() implies (#[trigger] out@[j])@ == lines_from(c@, 0)[j] by {
                    if j == before {
                        assert(lines_from(c@, 0)[before] == rest[0]);
                    }
                }
                assert forall|j: int| 0 <= j < next.len() implies lines_from(c@, 0)[out@.len() + j] == #[trigger] next[j] by {
                    assert(next[j] == rest[j + 1]);
                    assert(lines_from(c@, 0)[before + (j + 1)] == rest[j + 1]);
                }
            }
            start = k + 1;
        }
    }
    out
}

/// A line holds the query (compared after lower-casing the line when case is ignored).
pub open spec fn line_matches(line: Seq<char>, needle: Seq<char>, case_sensitive: bool) -> bool {
    if case_sensitive { contains_seq(line, needle) } else { contains_seq(spec_lowercase(line), needle) }
}

/// The first `room` matching lines among `lines[i..]`, each with its 1-based number.
pub open spec fn matches_from(lines: Seq<Seq<char>>, needle: Seq<char>, case_sensitive: bool, room: int, i: int) -> Seq<(int, Seq<char>)>
    decreases lines.len() - i,
{
    if room <= 0 || i < 0 || i >= lines.len() {
        Seq::empty()
    } else if line_matches(lines[i], needle, case_sensitive) {
        seq![(i + 1, lines[i])] + matches_from(lines, needle, case_sensitive, room - 1, i + 1)
    } else {
        matches_from(lines, needle, case_sensitive, room, i + 1)
    }
}

/// A line a search reports: a case-sensitive search looks for the query in the line as it
/// is; otherwise the line is lower-cased first (the query being lower-cased already).
pub open spec fn reported_line(line: Seq<char>, needle: Seq<char>, case_sensitive: bool) -> bool {
    ||| case_sensitive && contains_seq(line, needle)
    ||| !case_sensitive && contains_seq(spec_lowercase(line), needle)
}

/// A search from line `i` reports, in increasing order, lines at or after `i` with their
/// 1-based numbers, each holding the query (in the lower-cased line when case is ignored),
/// at most `room` of them; and it misses none up to the last one it reports, nor any at
/// all while it has room left.
pub proof fn lemma_search_reports_matching_lines(lines: Seq<Seq<char>>, needle: Seq<char>, case_sensitive: bool, room: int, i: int)
    requires
        0 <= i,
    ensures
        ({
            let r = matches_from(lines, needle, case_sensitive, room, i);
            &&& r.len() <= if room < 0 { 0 } else { room }
            &&& forall|j: int| 0 <= j < r.len() ==> i < (#[trigger] r[j]).0 <= lines.len()
                && r[j].1 == lines[r[j].0 - 1]
                && reported_line(r[j].1, needle, case_sensitive)
            &&& forall|a: int, b: int| 0 <= a < b < r.len() ==> (#[trigger] r[a]).0 < (#[trigger] r[b]).0
            &&& forall|k: int| i <= k < lines.len() && reported_line(#[trigger] lines[k], needle, case_sensitive)
                && (r.len() < room || (r.len() > 0 && k < r[r.len() - 1].0))
                ==> exists|j: int| 0 <= j < r.len() && (#[trigger] r[j]).0 == k + 1
        }),
    decreases lines.len() - i,
{
    if room <= 0 || i >= lines.len() {
    } else {
        lemma_search_reports_matching_lines(lines, needle, case_sensitive, room - 1, i + 1);
        lemma_search_reports_matching_lines(lines, needle, case_sensitive, room, i + 1);
        let r = matches_from(lines, needle, case_sensitive, room, i);
        if line_matches(lines[i], needle, case_sensitive) {
            let t = matches_from(lines, needle, case_sensitive, room - 1, i + 1);
            assert(r == seq![(i + 1, lines[i])] + t);
            assert forall|j: int| 0 < j < r.len() implies #[trigger] r[j] == t[j - 1] by {}
            assert forall|k: int| i <= k < lines.len() && reported_line(#[trigger] lines[k], needle, case_sensitive)
                && (r.len() < room || (r.len() > 0 && k < r[r.len() - 1].0))
                implies exists|j: int| 0 <= j < r.len() && (#[trigger] r[j]).0 == k + 1 by {
                if k == i {
                    assert(r[0].0 == k + 1);
                } else {
                    if t.len() == 0 {
                        assert(r.len() == 1);
                    }
                    let j = choose|j: int| 0 <= j < t.len() && (#[trigger] t[j]).0 == k + 1;
                    assert(r[j + 1] == t[j]);
                }
            }
        } else {
            assert(r == matches_from(lines, needle, case_sensitive, room, i + 1));
        }
    }
}

/// The lines of `content` that hold the query, each with its 1-based number, up to
/// `room` of them.
pub fn search_lines(content: &str, needle: &str, case_sensitive: bool, room: usize) -> (r: Vec<(usize, String)>)
    ensures
        ({
            let expected = matches_from(lines_from(content@, 0), needle@, case_sensitive, room as int, 0);
            &&& r@.len() == expected.len()
            &&& forall|j: int| 0 <= j < r@.len() ==> (#[trigger] r@[j]).0 == expected[j].0 && r@[j].1@ == expected[j].1
        }),
{
    let c = chars_of(content);
    let lines = split_lines(c.as_slice());
    let ghost ls = lines_from(content@, 0);
    let q = chars_of(needle);
    let mut out: Vec<(usize, String)> = Vec::new();
    let mut left = room;
    let mut i: usize = 0;
    let ghost whole = matches_from(ls, needle@, case_sensitive, room as int, 0);
    while i < lines.len() && left > 0
        invariant
            c@ == content@,
            q@ == needle@,
            ls == lines_from(content@, 0),
            lines@.len() == ls.len(),
            forall|k: int| 0 <= k < lines@.len() ==> (#[trigger] lines@[k])@ == ls[k],
            i <= lines@.len(),
            left <= room,
            whole == matches_from(ls, needle@, case_sensitive, room as int, 0),
            out@.len() + matches_from(ls, needle@, case_sensitive, left as int, i as int).len() == whole.len(),
            forall|j: int| 0 <= j < out@.len() ==> (#[trigger] out@[j]).0 == whole[j].0 && out@[j].1@ == whole[j].1,
            forall|j: int| 0 <= j < matches_from(ls, needle@, case_sensitive, left as int, i as int).len()
                ==> whole[out@.len() + j] == #[trigger] matches_from(ls, needle@, case_sensitive, left as int, i as int)[j],
        decreases lines.len() - i,
    {
        let line = &lines[i];
        let hit = if case_sensitive {
            contains_chars(line.as_slice(), q.as_slice())
        } else {
            let text = string_from_chars(line.as_slice());
            let lowered = to_lowercase(text.as_str());
            let lc = chars_of(lowered.as_str());
            contains_chars(lc.as_slice(), q.as_slice())
        };
        let ghost rest = matches_from(ls, needle@, case_sensitive, left as int, i as int);
        if hit {
            let ghost next = matches_from(ls, needle@, case_sensitive, left - 1, i + 1);
            proof {
                assert(rest =~= seq![((i + 1) as int, ls[i as int])] + next);
            }
            let ghost before: int = out@.len() as int;
            out.push((i + 1, string_from_chars(line.as_slice())));
            proof {
                assert forall|j: int| 0 <= j < out@.len() implies (#[trigger] out@[j]).0 == whole[j].0 && out@[j].1@ == whole[j].1 by {
                    if j == before {
                        assert(whole[before] == rest[0]);
                    }
                }
                assert forall|j: int| 0 <= j < next.len() implies whole[out@.len() + j] == #[trigger] next[j] by {
                    assert(next[j] == rest[j + 1]);
                    assert(whole[before + (j + 1)] == rest[j + 1]);
                }
            }
            left = left - 1;
        } else {
            proof {
                assert(rest == matches_from(ls, needle@, case_sensitive, left as int, i + 1));
            }
        }
        i = i + 1;
    }
    proof {
        let rest = matches_from(ls, needle@, case_sensitive, left as int, i as int);
        if i >= lines@.len() || left == 0 {
            assert(rest =~= Seq::<(int, Seq<char>)>::empty());
        }
    }
    out
}

} // verus!
