//! Replacing an exact number of occurrences of a text in a file, tolerating a caller that
//! wrote the text with other line endings than the file uses.

use vstd::prelude::*;
use crate::error::{RuntimeError, RuntimeResult};
use crate::text::{chars_of, contains_seq, contains_str, decimal, extend_str, matches_at, occurs_at, push_decimal, string_from_chars};

verus! {

/// The occurrences of `needle` in `hay` from index `i` on, found left to right without
/// overlap (as `str::matches` finds them).
pub open spec fn count_from(hay: Seq<char>, needle: Seq<char>, i: int) -> nat
    decreases hay.len() - i,
{
    if i < 0 || needle.len() == 0 || i + needle.len() > hay.len() {
        0
    } else if occurs_at(hay, needle, i) {
        1 + count_from(hay, needle, i + needle.len())
    } else {
        count_from(hay, needle, i + 1)
    }
}

/// `hay` from index `i` on with every occurrence of `needle` (found as `count_from` finds
/// them) replaced by `with` (as `str::replace` replaces them).
pub open spec fn replace_from(hay: Seq<char>, needle: Seq<char>, with: Seq<char>, i: int) -> Seq<char>
    decreases hay.len() - i,
{
    if i < 0 || i >= hay.len() {
        Seq::empty()
    } else if needle.len() > 0 && i + needle.len() <= hay.len() && occurs_at(hay, needle, i) {
        with + replace_from(hay, needle, with, i + needle.len())
    } else {
        seq![hay[i]] + replace_from(hay, needle, with, i + 1)
    }
}

/// Every line ending of `s` (`\r\n`, a lone `\r` or `\n`) written as `ending`.
pub open spec fn adapt_from(s: Seq<char>, ending: Seq<char>, i: int) -> Seq<char>
    decreases s.len() - i,
{
    if i < 0 || i >= s.len() {
        Seq::empty()
    } else if s[i] == '\r' && i + 1 < s.len() && s[i + 1] == '\n' {
        ending + adapt_from(s, ending, i + 2)
    } else if s[i] == '\r' || s[i] == '\n' {
        ending + adapt_from(s, ending, i + 1)
    } else {
        seq![s[i]] + adapt_from(s, ending, i + 1)
    }
}

pub open spec fn adapted(s: Seq<char>, ending: Seq<char>) -> Seq<char> {
    adapt_from(s, ending, 0)
}

/// The line ending of a file: `\r\n` if it has one, else `\n`.
pub open spec fn file_ending(content: Seq<char>) -> Seq<char> {
    if contains_seq(content, "\r\n"@) { "\r\n"@ } else { "\n"@ }
}

/// What replacing `expected` occurrences of `old` by `new` in `content` gives: the exact
/// text first; failing that, both texts with the file's line endings.
pub open spec fn replacement(content: Seq<char>, old: Seq<char>, new: Seq<char>, expected: nat) -> Result<Seq<char>, Seq<char>> {
    if old.len() == 0 || expected == 0 {
        Err("invalid_text_replacement"@)
    } else if count_from(content, old, 0) == expected {
        Ok(replace_from(content, old, new, 0))
    } else {
        let ending = file_ending(content);
        let a_old = adapted(old, ending);
        if count_from(content, a_old, 0) == expected {
            Ok(replace_from(content, a_old, adapted(new, ending), 0))
        } else {
            Err("text_match_count_mismatch"@)
        }
    }
}

/// Counts the occurrences of `needle` in `hay`, left to right without overlap.
fn count_occurrences(hay: &[char], needle: &[char]) -> (r: usize)
    ensures
        r == count_from(hay@, needle@, 0),
{
    if needle.len() == 0 || needle.len() > hay.len() {
        return 0;
    }
    let mut count: usize = 0;
    let mut i: usize = 0;
    while i <= hay.len() - needle.len()
        invariant
            needle@.len() > 0,
            needle@.len() <= hay@.len(),
            i <= hay@.len(),
            count + count_from(hay@, needle@, i as int) == count_from(hay@, needle@, 0),
            count <= i,
        decreases hay.len() - i,
    {
        if matches_at(hay, needle, i) {
            count = count + 1;
            i = i + needle.len();
        } else {
            i = i + 1;
        }
    }
    count
}

/// `hay` with every occurrence of `needle` replaced by `with`.
pub(crate) fn replace_all(hay: &[char], needle: &[char], with: &[char]) -> (r: Vec<char>)
    ensures
        r@ == replace_from(hay@, needle@, with@, 0),
{
    let mut out: Vec<char> = Vec::new();
    let mut i: usize = 0;
    while i < hay.len()
        invariant
            i <= hay@.len(),
            out@ + replace_from(hay@, needle@, with@, i as int) == replace_from(hay@, needle@, with@, 0),
        decreases hay.len() - i,
    {
        let ghost before = out@;
        if needle.len() > 0 && needle.len() <= hay.len() - i && matches_at(hay, needle, i) {
            crate::text::extend_chars(&mut out, with);
            i = i + needle.len();
            assert(before + replace_from(hay@, needle@, with@, i - needle@.len()) =~= out@ + replace_from(hay@, needle@, with@, i as int));
        } else {
            out.push(hay[i]);
            i = i + 1;
            assert(before + replace_from(hay@, needle@, with@, i - 1) =~= out@ + replace_from(hay@, needle@, with@, i as int));
        }
    }
    assert(out@ + replace_from(hay@, needle@, with@, i as int) =~= out@);
    out
}

/// Writes every line ending of `value` as `ending`.
pub fn adapt_line_endings(value: &str, ending: &str) -> (r: String)
    ensures
        r@ == adapted(value@, ending@),
{
    let s = chars_of(value);
    let mut out: Vec<char> = Vec::new();
    let mut i: usize = 0;
    while i < s.len()
        invariant
            s@ == value@,
            i <= s@.len(),
            out@ + adapt_from(value@, ending@, i as int) == adapted(value@, ending@),
        decreases s.len() - i,
    {
        let ghost before = out@;
        let ghost at = i as int;
        if s[i] == '\r' && i + 1 < s.len() && s[i + 1] == '\n' {
            extend_str(&mut out, ending);
            i = i + 2;
        } else if s[i] == '\r' || s[i] == '\n' {
            extend_str(&mut out, ending);
            i = i + 1;
        } else {
            out.push(s[i]);
            i = i + 1;
        }
        assert(before + adapt_from(value@, ending@, at) =~= out@ + adapt_from(value@, ending@, i as int));
    }
    assert(out@ + adapt_from(value@, ending@, i as int) =~= out@);
    string_from_chars(out.as_slice())
}

/// Replaces exactly `expected` occurrences of `old_text` by `new_text` in a file's text.
/// When the exact text does not occur `expected` times, both texts are tried again with the
/// file's line endings.
pub fn plan_replacement(content: &str, old_text: &str, new_text: &str, expected: usize) -> (r: RuntimeResult<String>)
    ensures
        match replacement(content@, old_text@, new_text@, expected as nat) {
            Ok(text) => r matches Ok(s) && s@ == text,
            Err(code) => r matches Err(e) && e.code@ == code,
        },
{
    let old = chars_of(old_text);
    if old.len() == 0 {
        return Err(RuntimeError::new("invalid_text_replacement", "oldText cannot be empty"));
    }
    if expected == 0 {
        return Err(RuntimeError::new("invalid_text_replacement", "expectedOccurrences must be at least 1"));
    }
    let hay = chars_of(content);
    let exact = count_occurrences(hay.as_slice(), old.as_slice());
    if exact == expected {
        let new = chars_of(new_text);
        let out = replace_all(hay.as_slice(), old.as_slice(), new.as_slice());
        return Ok(string_from_chars(out.as_slice()));
    }
    let ending = if contains_str(hay.as_slice(), "\r\n") { "\r\n" } else { "\n" };
    proof {
        reveal_strlit("\r\n");
        reveal_strlit("\n");
    }
    let adapted_old = chars_of(adapt_line_endings(old_text, ending).as_str());
    let found = count_occurrences(hay.as_slice(), adapted_old.as_slice());
    if found != expected {
        let mut message: Vec<char> = Vec::new();
        extend_str(&mut message, "expected ");
        push_decimal(&mut message, expected as u64);
        extend_str(&mut message, " occurrence(s) of oldText but found ");
        push_decimal(&mut message, found as u64);
        return Err(RuntimeError::new("text_match_count_mismatch", string_from_chars(message.as_slice()).as_str()));
    }
    let adapted_new = chars_of(adapt_line_endings(new_text, ending).as_str());
    let out = replace_all(hay.as_slice(), adapted_old.as_slice(), adapted_new.as_slice());
    Ok(string_from_chars(out.as_slice()))
}

} // verus!
