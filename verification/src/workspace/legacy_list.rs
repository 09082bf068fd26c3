//! The older directory listing: every entry of a directory, ordered by name without regard
//! to case (then by the exact name), and a page of them from an offset.

use vstd::prelude::*;
use crate::text::chars_of;
use crate::workspace::find::{spec_lowercase, to_lowercase};

verus! {

pub const MAX_LEGACY_PAGE: usize = 2000;

/// `a` comes before `b` character by character (a proper prefix first), as `str`
/// comparison orders texts.
pub open spec fn chars_lt(a: Seq<char>, b: Seq<char>) -> bool
    decreases a.len(),
{
    if a.len() == 0 {
        b.len() > 0
    } else if b.len() == 0 {
        false
    } else if a[0] != b[0] {
        (a[0] as u32) < (b[0] as u32)
    } else {
        chars_lt(a.drop_first(), b.drop_first())
    }
}

pub(crate) proof fn lemma_chars_lt_irreflexive(a: Seq<char>)
    ensures
        !chars_lt(a, a),
    decreases a.len(),
{
    if a.len() > 0 {
        lemma_chars_lt_irreflexive(a.drop_first());
    }
}

pub(crate) proof fn lemma_chars_lt_transitive(a: Seq<char>, b: Seq<char>, c: Seq<char>)
    requires
        chars_lt(a, b),
        chars_lt(b, c),
    ensures
        chars_lt(a, c),
    decreases a.len(),
{
    if a.len() > 0 && b.len() > 0 && c.len() > 0 {
        if a[0] == b[0] && b[0] == c[0] {
            lemma_chars_lt_transitive(a.drop_first(), b.drop_first(), c.drop_first());
        } else {
            vstd::utf8::char_u32_cast(a[0], a[0] as u32);
            vstd::utf8::char_u32_cast(c[0], c[0] as u32);
            if a[0] == c[0] {
                assert((a[0] as u32) == (c[0] as u32));
            }
        }
    }
}

pub(crate) proof fn lemma_chars_lt_total(a: Seq<char>, b: Seq<char>)
    ensures
        a == b || chars_lt(a, b) || chars_lt(b, a),
    decreases a.len(),
{
    if a.len() > 0 && b.len() > 0 {
        if a[0] == b[0] {
            lemma_chars_lt_total(a.drop_first(), b.drop_first());
            if a.drop_first() == b.drop_first() {
                assert(a =~= seq![a[0]] + a.drop_first());
                assert(b =~= seq![b[0]] + b.drop_first());
            }
        } else {
            vstd::utf8::char_u32_cast(a[0], a[0] as u32);
            vstd::utf8::char_u32_cast(b[0], b[0] as u32);
        }
    } else if a.len() == 0 && b.len() == 0 {
        assert(a =~= b);
    }
}

pub(crate) fn chars_less(a: &[char], b: &[char]) -> (r: bool)
    ensures
        r == chars_lt(a@, b@),
{
    let mut i: usize = 0;
    assert(a@.subrange(0, a@.len() as int) =~= a@);
    assert(b@.subrange(0, b@.len() as int) =~= b@);
    while i < a.len() && i < b.len()
        invariant
            i <= a@.len(),
            i <= b@.len(),
            chars_lt(a@, b@) == chars_lt(a@.subrange(i as int, a@.len() as int), b@.subrange(i as int, b@.len() as int)),
        decreases a.len() - i,
    {
        let ghost x = a@.subrange(i as int, a@.len() as int);
        let ghost y = b@.subrange(i as int, b@.len() as int);
        assert(x.drop_first() =~= a@.subrange(i + 1, a@.len() as int));
        assert(y.drop_first() =~= b@.subrange(i + 1, b@.len() as int));
        if a[i] != b[i] {
            return (a[i] as u32) < (b[i] as u32);
        }
        i = i + 1;
    }
    i == a.len() && i < b.len()
}

/// Entry `ai` is listed before entry `bi`: by lower-cased name, then by exact name, then
/// in the order read.
pub open spec fn listed_before(names: Seq<String>, ai: int, bi: int) -> bool {
    let la = spec_lowercase(names[ai]@);
    let lb = spec_lowercase(names[bi]@);
    ||| chars_lt(la, lb)
    ||| (la == lb && chars_lt(names[ai]@, names[bi]@))
    ||| (la == lb && names[ai]@ == names[bi]@ && ai < bi)
}

/// `order` lists every entry once, in listing order.
pub open spec fn listing_order(names: Seq<String>, order: Seq<usize>) -> bool {
    &&& order.len() == names.len()
    &&& forall|k: int| 0 <= k < order.len() ==> (#[trigger] order[k]) < names.len()
    &&& forall|a: int, b: int| 0 <= a < b < order.len() ==> listed_before(names, #[trigger] order[a] as int, #[trigger] order[b] as int)
}

proof fn lemma_listed_transitive(names: Seq<String>, a: int, b: int, c: int)
    requires
        listed_before(names, a, b),
        listed_before(names, b, c),
    ensures
        listed_before(names, a, c),
{
    let (la, lb, lc) = (spec_lowercase(names[a]@), spec_lowercase(names[b]@), spec_lowercase(names[c]@));
    if chars_lt(la, lb) && chars_lt(lb, lc) {
        lemma_chars_lt_transitive(la, lb, lc);
    } else if chars_lt(la, lb) {
    } else if chars_lt(lb, lc) {
    } else if chars_lt(names[a]@, names[b]@) && chars_lt(names[b]@, names[c]@) {
        lemma_chars_lt_transitive(names[a]@, names[b]@, names[c]@);
    }
}

proof fn lemma_listed_total(names: Seq<String>, a: int, b: int)
    requires
        a != b,
    ensures
        listed_before(names, a, b) || listed_before(names, b, a),
{
    let (la, lb) = (spec_lowercase(names[a]@), spec_lowercase(names[b]@));
    lemma_chars_lt_total(la, lb);
    lemma_chars_lt_total(names[a]@, names[b]@);
}

/// The order of the older listing.
pub fn legacy_list_order(names: &Vec<String>) -> (order: Vec<usize>)
    ensures
        listing_order(names@, order@),
{
    let n = names.len();
    let mut lowered: Vec<Vec<char>> = Vec::new();
    let mut exact: Vec<Vec<char>> = Vec::new();
    let mut k: usize = 0;
    while k < n
        invariant
            n == names@.len(),
            k <= n,
            lowered@.len() == k,
            exact@.len() == k,
            forall|j: int| 0 <= j < k ==> (#[trigger] lowered@[j])@ == spec_lowercase(names@[j]@),
            forall|j: int| 0 <= j < k ==> (#[trigger] exact@[j])@ == names@[j]@,
        decreases n - k,
    {
        let l = to_lowercase(names[k].as_str());
        lowered.push(chars_of(l.as_str()));
        exact.push(chars_of(names[k].as_str()));
        k = k + 1;
    }
    let mut order: Vec<usize> = Vec::new();
    let mut i: usize = 0;
    while i < n
        invariant
            n == names@.len(),
            lowered@.len() == n,
            exact@.len() == n,
            forall|j: int| 0 <= j < n ==> (#[trigger] lowered@[j])@ == spec_lowercase(names@[j]@),
            forall|j: int| 0 <= j < n ==> (#[trigger] exact@[j])@ == names@[j]@,
            i <= n,
            order@.len() == i,
            forall|k: int| 0 <= k < order@.len() ==> (#[trigger] order@[k]) < i,
            forall|a: int, b: int| 0 <= a < b < order@.len() ==> listed_before(names@, #[trigger] order@[a] as int, #[trigger] order@[b] as int),
        decreases n - i,
    {
        let mut p: usize = 0;
        while p < order.len()
            invariant
                n == names@.len(),
                lowered@.len() == n,
                exact@.len() == n,
                forall|j: int| 0 <= j < n ==> (#[trigger] lowered@[j])@ == spec_lowercase(names@[j]@),
                forall|j: int| 0 <= j < n ==> (#[trigger] exact@[j])@ == names@[j]@,
                i < n,
                p <= order@.len(),
                order@.len() == i,
                forall|k: int| 0 <= k < order@.len() ==> (#[trigger] order@[k]) < i,
                forall|k: int| 0 <= k < p ==> listed_before(names@, #[trigger] order@[k] as int, i as int),
            ensures
                p <= order@.len(),
                forall|k: int| 0 <= k < p ==> listed_before(names@, #[trigger] order@[k] as int, i as int),
                p < order@.len() ==> listed_before(names@, i as int, order@[p as int] as int),
            decreases order@.len() - p,
        {
            let q = order[p];
            let li = &lowered[i];
            let lq = &lowered[q];
            let before = chars_less(li.as_slice(), lq.as_slice()) || (!chars_less(lq.as_slice(), li.as_slice())
                && chars_less(exact[i].as_slice(), exact[q].as_slice()));
            proof {
                lemma_chars_lt_total(li@, lq@);
            }
            if before {
                break;
            }
            proof {
                lemma_chars_lt_total(exact@[i as int]@, exact@[q as int]@);
                lemma_chars_lt_irreflexive(li@);
                lemma_listed_total(names@, q as int, i as int);
            }
            p = p + 1;
        }
        let ghost prev = order@;
        order.insert(p, i);
        proof {
            assert forall|a: int, b: int| 0 <= a < b < order@.len() implies listed_before(names@, #[trigger] order@[a] as int, #[trigger] order@[b] as int) by {
                if b < p {
                    assert(order@[a] == prev[a] && order@[b] == prev[b]);
                } else if b == p {
                    assert(order@[a] == prev[a]);
                } else if a == p {
                    assert(order@[b] == prev[b - 1]);
                    if b - 1 > p {
                        assert(listed_before(names@, prev[p as int] as int, prev[b - 1] as int));
                        lemma_listed_transitive(names@, i as int, prev[p as int] as int, prev[b - 1] as int);
                    }
                } else if a < p {
                    assert(order@[a] == prev[a] && order@[b] == prev[b - 1]);
                } else {
                    assert(order@[a] == prev[a - 1] && order@[b] == prev[b - 1]);
                }
            }
            assert forall|k: int| 0 <= k < order@.len() implies (#[trigger] order@[k]) < i + 1 by {
                if k < p {
                    assert(order@[k] == prev[k]);
                } else if k > p {
                    assert(order@[k] == prev[k - 1]);
                }
            }
        }
        i = i + 1;
    }
    order
}

/// The positions of a page of `len` listed entries: from `offset` (at most the end), at
/// most `limit` of them (kept between one and two thousand).
pub fn legacy_page_bounds(len: usize, offset: usize, limit: usize) -> (r: (usize, usize))
    ensures
        r.0 == (if offset < len { offset } else { len }),
        r.1 == ({
            let l = if limit < 1 { 1 } else if limit > MAX_LEGACY_PAGE { MAX_LEGACY_PAGE } else { limit };
            if r.0 + l < len { r.0 + l } else { len as int }
        }),
        r.0 <= r.1 <= len,
{
    let start = if offset < len { offset } else { len };
    let l = if limit < 1 { 1 } else if limit > MAX_LEGACY_PAGE { MAX_LEGACY_PAGE } else { limit };
    let end = if l < len - start { start + l } else { len };
    (start, end)
}

} // verus!
