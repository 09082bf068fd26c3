//! Character-level helpers shared by the policy checks. Text is handled as the
//! sequence of its Unicode scalar values, which is what `str@` denotes.

use vstd::prelude::*;

verus! {

/// ASCII lower-casing of one character; every other character is unchanged.
pub open spec fn lower_char(c: char) -> char {
    if 'A' <= c && c <= 'Z' {
        ((c as u32) + 32) as char
    } else {
        c
    }
}

/// ASCII upper-casing of one character; every other character is unchanged.
pub open spec fn upper_char(c: char) -> char {
    if 'a' <= c && c <= 'z' {
        ((c as u32) - 32) as char
    } else {
        c
    }
}

/// ASCII lower-casing of a whole text.
pub open spec fn lower_seq(s: Seq<char>) -> Seq<char> {
    s.map_values(|c: char| lower_char(c))
}

/// ASCII upper-casing of a whole text.
pub open spec fn upper_seq(s: Seq<char>) -> Seq<char> {
    s.map_values(|c: char| upper_char(c))
}

/// The characters that carry the Unicode `White_Space` property.
pub open spec fn is_space(c: char) -> bool {
    ||| c == '\t' || c == '\n' || c == '\u{0B}' || c == '\u{0C}' || c == '\r' || c == ' '
    ||| c == '\u{85}' || c == '\u{A0}' || c == '\u{1680}'
    ||| ('\u{2000}' <= c && c <= '\u{200A}')
    ||| c == '\u{2028}' || c == '\u{2029}' || c == '\u{202F}' || c == '\u{205F}' || c == '\u{3000}'
}

/// `needle` occurs in `hay` starting at index `i`.
pub open spec fn occurs_at(hay: Seq<char>, needle: Seq<char>, i: int) -> bool {
    0 <= i && i + needle.len() <= hay.len() && hay.subrange(i, i + needle.len()) == needle
}

/// `needle` occurs somewhere in `hay` (the empty needle occurs everywhere).
pub open spec fn contains_seq(hay: Seq<char>, needle: Seq<char>) -> bool {
    exists|i: int| #[trigger] occurs_at(hay, needle, i)
}

/// `hay` begins with `prefix`.
pub open spec fn starts_with_seq(hay: Seq<char>, prefix: Seq<char>) -> bool {
    occurs_at(hay, prefix, 0)
}

/// `hay` ends with `suffix`.
pub open spec fn ends_with_seq(hay: Seq<char>, suffix: Seq<char>) -> bool {
    suffix.len() <= hay.len() && occurs_at(hay, suffix, hay.len() - suffix.len())
}

/// The text with leading and trailing white space removed.
pub open spec fn trim_seq(s: Seq<char>) -> Seq<char>
    decreases s.len(),
{
    if s.len() == 0 {
        s
    } else if is_space(s[0]) {
        trim_seq(s.drop_first())
    } else if is_space(s.last()) {
        trim_seq(s.drop_last())
    } else {
        s
    }
}

/// Every character of `s` is white space.
pub open spec fn all_space(s: Seq<char>) -> bool {
    forall|i: int| 0 <= i < s.len() ==> is_space(#[trigger] s[i])
}

pub fn is_space_char(c: char) -> (r: bool)
    ensures
        r == is_space(c),
{
    c == '\t' || c == '\n' || c == '\u{0B}' || c == '\u{0C}' || c == '\r' || c == ' ' || c
        == '\u{85}' || c == '\u{A0}' || c == '\u{1680}' || ('\u{2000}' <= c && c <= '\u{200A}')
        || c == '\u{2028}' || c == '\u{2029}' || c == '\u{202F}' || c == '\u{205F}' || c
        == '\u{3000}'
}

pub fn ascii_lower_char(c: char) -> (r: char)
    ensures
        r == lower_char(c),
{
    if 'A' <= c && c <= 'Z' {
        let code: u8 = (c as u32 + 32) as u8;
        code as char
    } else {
        c
    }
}

pub fn ascii_upper_char(c: char) -> (r: char)
    ensures
        r == upper_char(c),
{
    if 'a' <= c && c <= 'z' {
        let code: u8 = (c as u32 - 32) as u8;
        code as char
    } else {
        c
    }
}

/// The characters of a text, in order.
pub fn chars_of(s: &str) -> (v: Vec<char>)
    ensures
        v@ == s@,
{
    let n = s.unicode_len();
    let mut v: Vec<char> = Vec::new();
    let mut i: usize = 0;
    while i < n
        invariant
            n == s@.len(),
            i <= n,
            v@ == s@.subrange(0, i as int),
        decreases n - i,
    {
        v.push(s.get_char(i));
        i = i + 1;
    }
    v
}

/// ASCII lower-cased characters of a text.
pub fn lower_chars(s: &[char]) -> (v: Vec<char>)
    ensures
        v@ == lower_seq(s@),
{
    let mut v: Vec<char> = Vec::new();
    let mut i: usize = 0;
    while i < s.len()
        invariant
            i <= s.len(),
            v@ == lower_seq(s@.subrange(0, i as int)),
        decreases s.len() - i,
    {
        v.push(ascii_lower_char(s[i]));
        i = i + 1;
        assert(lower_seq(s@.subrange(0, i as int)) =~= lower_seq(s@.subrange(0, i - 1)).push(
            lower_char(s@[i - 1]),
        ));
    }
    assert(s@.subrange(0, s@.len() as int) =~= s@);
    v
}

/// ASCII upper-cased characters of a text.
pub fn upper_chars(s: &[char]) -> (v: Vec<char>)
    ensures
        v@ == upper_seq(s@),
{
    let mut v: Vec<char> = Vec::new();
    let mut i: usize = 0;
    while i < s.len()
        invariant
            i <= s.len(),
            v@ == upper_seq(s@.subrange(0, i as int)),
        decreases s.len() - i,
    {
        v.push(ascii_upper_char(s[i]));
        i = i + 1;
        assert(upper_seq(s@.subrange(0, i as int)) =~= upper_seq(s@.subrange(0, i - 1)).push(
            upper_char(s@[i - 1]),
        ));
    }
    assert(s@.subrange(0, s@.len() as int) =~= s@);
    v
}

/// The characters equal those of a text.
pub fn eq_str(v: &[char], s: &str) -> (r: bool)
    ensures
        r == (v@ == s@),
{
    let n = s.unicode_len();
    if v.len() != n {
        return false;
    }
    let mut i: usize = 0;
    while i < n
        invariant
            n == s@.len(),
            n == v@.len(),
            i <= n,
            forall|j: int| 0 <= j < i ==> v@[j] == s@[j],
        decreases n - i,
    {
        if v[i] != s.get_char(i) {
            return false;
        }
        i = i + 1;
    }
    assert(v@ =~= s@);
    true
}

/// `needle` occurs in `hay` at index `i`.
pub fn matches_at(hay: &[char], needle: &[char], i: usize) -> (r: bool)
    requires
        i + needle@.len() <= hay@.len(),
    ensures
        r == occurs_at(hay@, needle@, i as int),
{
    let mut j: usize = 0;
    while j < needle.len()
        invariant
            i + needle.len() <= hay.len(),
            j <= needle.len(),
            forall|k: int| 0 <= k < j ==> hay@[i + k] == needle@[k],
        decreases needle.len() - j,
    {
        if hay[i + j] != needle[j] {
            assert(hay@.subrange(i as int, i + needle@.len())[j as int] != needle@[j as int]);
            return false;
        }
        j = j + 1;
    }
    assert(hay@.subrange(i as int, i + needle@.len()) =~= needle@);
    true
}

/// `needle` occurs somewhere in `hay`.
pub fn contains_chars(hay: &[char], needle: &[char]) -> (r: bool)
    ensures
        r == contains_seq(hay@, needle@),
{
    if needle.len() == 0 {
        assert(hay@.subrange(0, 0) =~= needle@);
        assert(occurs_at(hay@, needle@, 0));
        return true;
    }
    if needle.len() > hay.len() {
        assert(forall|k: int| !#[trigger] occurs_at(hay@, needle@, k));
        return false;
    }
    let last = hay.len() - needle.len();
    let mut i: usize = 0;
    while i <= last
        invariant
            needle.len() > 0,
            last == hay.len() - needle.len(),
            i <= last + 1,
            forall|k: int| 0 <= k < i ==> !#[trigger] occurs_at(hay@, needle@, k),
        decreases hay.len() - i,
    {
        if matches_at(hay, needle, i) {
            return true;
        }
        i = i + 1;
    }
    assert(forall|k: int| !#[trigger] occurs_at(hay@, needle@, k));
    false
}

/// `needle` (given as text) occurs somewhere in `hay`.
pub fn contains_str(hay: &[char], needle: &str) -> (r: bool)
    ensures
        r == contains_seq(hay@, needle@),
{
    let n = chars_of(needle);
    contains_chars(hay, n.as_slice())
}

/// `hay` begins with the text `prefix`.
pub fn starts_with_str(hay: &[char], prefix: &str) -> (r: bool)
    ensures
        r == starts_with_seq(hay@, prefix@),
{
    let p = chars_of(prefix);
    if p.len() > hay.len() {
        false
    } else {
        matches_at(hay, p.as_slice(), 0)
    }
}

/// `hay` ends with the text `suffix`.
pub fn ends_with_str(hay: &[char], suffix: &str) -> (r: bool)
    ensures
        r == ends_with_seq(hay@, suffix@),
{
    let p = chars_of(suffix);
    if p.len() > hay.len() {
        false
    } else {
        matches_at(hay, p.as_slice(), hay.len() - p.len())
    }
}

proof fn lemma_trim_space_prefix(s: Seq<char>, k: int)
    requires
        0 <= k <= s.len(),
        forall|j: int| 0 <= j < k ==> is_space(#[trigger] s[j]),
    ensures
        trim_seq(s) == trim_seq(s.subrange(k, s.len() as int)),
    decreases k,
{
    if k > 0 {
        assert(s.drop_first().subrange(k - 1, s.drop_first().len() as int) =~= s.subrange(
            k,
            s.len() as int,
        ));
        lemma_trim_space_prefix(s.drop_first(), k - 1);
    } else {
        assert(s.subrange(0, s.len() as int) =~= s);
    }
}

proof fn lemma_trim_space_suffix(s: Seq<char>, k: int)
    requires
        0 <= k <= s.len(),
        s.len() > 0 ==> !is_space(s[0]),
        forall|j: int| k <= j < s.len() ==> is_space(#[trigger] s[j]),
    ensures
        trim_seq(s) == trim_seq(s.subrange(0, k)),
    decreases s.len() - k,
{
    if k < s.len() {
        if s.len() > 0 && !is_space(s[0]) {
            assert(s.drop_last().subrange(0, k) =~= s.subrange(0, k));
            if k == 0 {
                assert(!is_space(s[0]));
                assert(is_space(s[0]));
            }
            lemma_trim_space_suffix(s.drop_last(), k);
        }
    } else {
        assert(s.subrange(0, s.len() as int) =~= s);
    }
}

/// Leading and trailing white space removed.
pub fn trim_chars(s: &[char]) -> (v: Vec<char>)
    ensures
        v@ == trim_seq(s@),
{
    let mut start: usize = 0;
    while start < s.len() && is_space_char(s[start])
        invariant
            start <= s@.len(),
            forall|j: int| 0 <= j < start ==> is_space(#[trigger] s@[j]),
        decreases s.len() - start,
    {
        start = start + 1;
    }
    proof {
        lemma_trim_space_prefix(s@, start as int);
    }
    if start == s.len() {
        assert(s@.subrange(start as int, s@.len() as int) =~= Seq::<char>::empty());
        return Vec::new();
    }
    let ghost rest = s@.subrange(start as int, s@.len() as int);
    let mut end: usize = s.len();
    while end > start + 1 && is_space_char(s[end - 1])
        invariant
            start < end <= s@.len(),
            !is_space(s@[start as int]),
            forall|j: int| end <= j < s@.len() ==> is_space(#[trigger] s@[j]),
        decreases end,
    {
        end = end - 1;
    }
    proof {
        assert forall|j: int| end - start <= j < rest.len() implies is_space(#[trigger] rest[j]) by {
            assert(rest[j] == s@[start + j]);
        }
        lemma_trim_space_suffix(rest, end - start);
        assert(rest.subrange(0, end - start) =~= s@.subrange(start as int, end as int));
    }
    let mut v: Vec<char> = Vec::new();
    let mut i: usize = start;
    while i < end
        invariant
            start <= i <= end <= s@.len(),
            v@ == s@.subrange(start as int, i as int),
        decreases end - i,
    {
        v.push(s[i]);
        i = i + 1;
    }
    let ghost t = s@.subrange(start as int, end as int);
    assert(t.len() > 0);
    assert(!is_space(t[0]));
    assert(!is_space(t.last()));
    v
}

} // verus!

verus! {

/// Appends one character to a string.
#[verifier::external_body]
pub fn push_char(s: &mut String, c: char)
    ensures
        final(s)@ == old(s)@.push(c),
{
    s.push(c);
}

/// A string holding exactly the given characters.
pub fn string_from_chars(v: &[char]) -> (s: String)
    ensures
        s@ == v@,
{
    let mut s = String::new();
    let mut i: usize = 0;
    while i < v.len()
        invariant
            i <= v.len(),
            s@ == v@.subrange(0, i as int),
        decreases v.len() - i,
    {
        push_char(&mut s, v[i]);
        i = i + 1;
        assert(s@ =~= v@.subrange(0, i as int));
    }
    assert(v@.subrange(0, v@.len() as int) =~= v@);
    s
}

/// Appends the characters of a text to a character buffer.
pub fn extend_str(v: &mut Vec<char>, s: &str)
    ensures
        final(v)@ == old(v)@ + s@,
{
    let n = s.unicode_len();
    let mut i: usize = 0;
    while i < n
        invariant
            n == s@.len(),
            i <= n,
            v@ == old(v)@ + s@.subrange(0, i as int),
        decreases n - i,
    {
        v.push(s.get_char(i));
        i = i + 1;
        assert(v@ =~= old(v)@ + s@.subrange(0, i as int));
    }
    assert(s@.subrange(0, n as int) =~= s@);
}

/// Appends a character sequence to a character buffer.
pub fn extend_chars(v: &mut Vec<char>, s: &[char])
    ensures
        final(v)@ == old(v)@ + s@,
{
    let mut i: usize = 0;
    while i < s.len()
        invariant
            i <= s.len(),
            v@ == old(v)@ + s@.subrange(0, i as int),
        decreases s.len() - i,
    {
        v.push(s[i]);
        i = i + 1;
        assert(v@ =~= old(v)@ + s@.subrange(0, i as int));
    }
    assert(s@.subrange(0, s@.len() as int) =~= s@);
}

/// The decimal digit character for `d < 10`.
pub open spec fn digit_char(d: int) -> char {
    (('0' as int) + d) as char
}

/// The decimal rendering of a natural number, without leading zeros.
pub open spec fn decimal(n: nat) -> Seq<char>
    decreases n,
{
    if n < 10 {
        seq![digit_char(n as int)]
    } else {
        decimal(n / 10).push(digit_char((n % 10) as int))
    }
}

/// Appends the decimal rendering of a 128-bit `n`.
pub fn push_decimal_u128(v: &mut Vec<char>, n: u128)
    ensures
        final(v)@ == old(v)@ + decimal(n as nat),
    decreases n,
{
    if n >= 10 {
        push_decimal_u128(v, n / 10);
    }
    let d: u8 = (n % 10) as u8;
    let c: char = (48u8 + d) as char;
    assert(c == digit_char((n % 10) as int));
    v.push(c);
    proof {
        if n < 10 {
            assert(decimal(n as nat) =~= seq![digit_char(n as int)]);
        }
    }
    assert(v@ =~= old(v)@ + decimal(n as nat));
}

/// Appends the decimal rendering of `n`.
pub fn push_decimal(v: &mut Vec<char>, n: u64)
    ensures
        final(v)@ == old(v)@ + decimal(n as nat),
    decreases n,
{
    if n >= 10 {
        push_decimal(v, n / 10);
    }
    let d: u8 = (n % 10) as u8;
    let c: char = (48u8 + d) as char;
    assert(c == digit_char((n % 10) as int));
    v.push(c);
    proof {
        if n < 10 {
            assert(decimal(n as nat) =~= seq![digit_char(n as int)]);
        }
    }
    assert(v@ =~= old(v)@ + decimal(n as nat));
}

} // verus!

verus! {

/// Two texts have the same characters.
pub fn str_eq(a: &str, b: &str) -> (r: bool)
    ensures
        r == (a@ == b@),
{
    a.to_owned() == b.to_owned()
}

/// A string built from a text followed by another.
pub fn concat_str(a: &str, b: &str) -> (s: String)
    ensures
        s@ == a@ + b@,
{
    let mut v: Vec<char> = Vec::new();
    extend_str(&mut v, a);
    extend_str(&mut v, b);
    string_from_chars(v.as_slice())
}

/// The text contains the character `c`.
pub fn contains_char(s: &str, c: char) -> (r: bool)
    ensures
        r == s@.contains(c),
{
    let n = s.unicode_len();
    let mut i: usize = 0;
    while i < n
        invariant
            n == s@.len(),
            i <= n,
            forall|j: int| 0 <= j < i ==> s@[j] != c,
        decreases n - i,
    {
        if s.get_char(i) == c {
            assert(s@[i as int] == c);
            return true;
        }
        i = i + 1;
    }
    false
}

/// The text is empty or white space only (it trims to nothing).
pub fn is_blank(s: &str) -> (r: bool)
    ensures
        r == all_space(s@),
{
    let n = s.unicode_len();
    let mut i: usize = 0;
    while i < n
        invariant
            n == s@.len(),
            i <= n,
            forall|j: int| 0 <= j < i ==> is_space(#[trigger] s@[j]),
        decreases n - i,
    {
        if !is_space_char(s.get_char(i)) {
            return false;
        }
        i = i + 1;
    }
    true
}

/// The length in bytes of the UTF-8 encoding of a text (as `str::len` reports it).
pub open spec fn byte_len(s: Seq<char>) -> usize {
    vstd::utf8::encode_utf8(s).len() as usize
}

/// The number of bytes of the text's UTF-8 encoding.
pub fn utf8_len(s: &str) -> (n: usize)
    ensures
        n == byte_len(s@),
{
    s.len()
}

/// `std::str::from_utf8`: the text when the bytes are valid UTF-8 (in the sense of
/// `vstd::utf8::valid_utf8`), decoded as `vstd::utf8::decode_utf8` decodes them.
#[verifier::external_body]
pub(crate) fn utf8_str(bytes: &[u8]) -> (r: Option<&str>)
    ensures
        r is Some <==> vstd::utf8::valid_utf8(bytes@),
        r matches Some(s) ==> s@ == vstd::utf8::decode_utf8(bytes@),
{
    std::str::from_utf8(bytes).ok()
}

/// Where the first `\n` of `s` is, from position `from` on (its length when none is).
pub open spec fn newline_at(s: Seq<char>, from: int) -> int
    decreases s.len() - from,
{
    if from < 0 || from >= s.len() {
        s.len() as int
    } else if s[from] == '\n' {
        from
    } else {
        newline_at(s, from + 1)
    }
}

pub proof fn lemma_newline_in_range(s: Seq<char>, from: int)
    requires
        0 <= from <= s.len(),
    ensures
        from <= newline_at(s, from) <= s.len(),
        newline_at(s, from) < s.len() ==> s[newline_at(s, from)] == '\n',
    decreases s.len() - from,
{
    if from < s.len() && s[from] != '\n' {
        lemma_newline_in_range(s, from + 1);
    }
}

} // verus!
