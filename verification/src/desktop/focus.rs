//! Recognizing authentication surfaces by their labels, so that input is never typed
//! into a password, one-time-code or sign-in field.

use vstd::prelude::*;
use crate::text::{chars_of, contains_seq, contains_str, lower_char, matches_at, occurs_at};

verus! {

/// `char::is_alphanumeric`: the Unicode Alphabetic or Numeric property.
pub uninterp spec fn spec_is_alphanumeric(c: char) -> bool;

/// `char::is_alphanumeric`. The result is `spec_is_alphanumeric` of the character; for
/// an ASCII character it holds exactly of the letters and digits (the only ASCII
/// characters with the Alphabetic or Numeric property).
#[verifier::external_body]
fn is_alphanumeric(c: char) -> (r: bool)
    ensures
        r == spec_is_alphanumeric(c),
        c <= '\x7f' ==> (r <==> (('0' <= c && c <= '9') || ('a' <= c && c <= 'z') || ('A' <= c && c <= 'Z'))),
{
    c.is_alphanumeric()
}

/// A label character as it is compared: letters and digits in ASCII lower case, every
/// other character a space.
pub open spec fn normalize_char(c: char) -> char {
    if alphanumeric(c) { lower_char(c) } else { ' ' }
}

/// A letter or digit: for ASCII, exactly `0-9`, `a-z` and `A-Z`; beyond it, the Unicode
/// Alphabetic or Numeric property.
pub open spec fn alphanumeric(c: char) -> bool {
    if c <= '\x7f' {
        ('0' <= c && c <= '9') || ('a' <= c && c <= 'z') || ('A' <= c && c <= 'Z')
    } else {
        spec_is_alphanumeric(c)
    }
}

pub open spec fn normalized(v: Seq<char>) -> Seq<char> {
    Seq::new(v.len(), |i: int| normalize_char(v[i]))
}

/// `w` is a whole word of `n` at `i`: it occurs there between spaces or the ends.
pub open spec fn word_at(n: Seq<char>, w: Seq<char>, i: int) -> bool {
    &&& 0 <= i
    &&& i + w.len() <= n.len()
    &&& occurs_at(n, w, i)
    &&& (i == 0 || n[i - 1] == ' ')
    &&& (i + w.len() == n.len() || n[i + w.len()] == ' ')
}

pub open spec fn has_word(n: Seq<char>, w: Seq<char>) -> bool {
    exists|i: int| word_at(n, w, i)
}

/// The words of a normalized label run together.
pub open spec fn compact(n: Seq<char>) -> Seq<char>
    decreases n.len(),
{
    if n.len() == 0 {
        n
    } else if n.last() == ' ' {
        compact(n.drop_last())
    } else {
        compact(n.drop_last()).push(n.last())
    }
}

/// A label that names an authentication field: one of the sensitive words, one of the
/// sensitive phrases, or a sensitive marker once the words are run together.
pub open spec fn sensitive_label(v: Seq<char>) -> bool {
    let n = normalized(v);
    let c = compact(n);
    ||| has_word(n, "password"@) || has_word(n, "passwd"@) || has_word(n, "passcode"@)
    ||| has_word(n, "credential"@) || has_word(n, "credentials"@) || has_word(n, "otp"@)
    ||| has_word(n, "totp"@) || has_word(n, "mfa"@) || has_word(n, "pin"@) || has_word(n, "login"@)
    ||| has_word(n, "authentication"@)
    ||| contains_seq(n, "one time code"@) || contains_seq(n, "one time password"@)
    ||| contains_seq(n, "verification code"@) || contains_seq(n, "authentication code"@)
    ||| contains_seq(n, "security code"@) || contains_seq(n, "two factor"@)
    ||| contains_seq(n, "sign in"@) || contains_seq(n, "log in"@)
    ||| contains_seq(c, "password"@) || contains_seq(c, "passwd"@) || contains_seq(c, "passcode"@)
    ||| contains_seq(c, "credential"@) || contains_seq(c, "onetimecode"@) || contains_seq(c, "onetimepassword"@)
    ||| contains_seq(c, "verificationcode"@) || contains_seq(c, "authenticationcode"@)
    ||| contains_seq(c, "securitycode"@) || contains_seq(c, "twofactor"@) || contains_seq(c, "signin"@)
    ||| contains_seq(c, "login"@)
}

fn has_word_exec(n: &[char], word: &str) -> (r: bool)
    ensures
        r == has_word(n@, word@),
{
    let w = chars_of(word);
    if w.len() > n.len() {
        assert forall|i: int| !word_at(n@, w@, i) by {}
        return false;
    }
    let last = n.len() - w.len();
    let mut i: usize = 0;
    loop
        invariant
            w@ == word@,
            last == n@.len() - w@.len(),
            i <= last,
            forall|k: int| 0 <= k < i ==> !#[trigger] word_at(n@, w@, k),
        ensures
            forall|k: int| 0 <= k <= last ==> !#[trigger] word_at(n@, w@, k),
        decreases last - i,
    {
        if matches_at(n, w.as_slice(), i) && (i == 0 || n[i - 1] == ' ') && (i + w.len() == n.len() || n[i + w.len()] == ' ') {
            assert(word_at(n@, w@, i as int));
            return true;
        }
        if i == last {
            break;
        }
        i = i + 1;
    }
    assert forall|k: int| !#[trigger] word_at(n@, w@, k) by {}
    false
}

fn compact_exec(n: &Vec<char>) -> (r: Vec<char>)
    ensures
        r@ == compact(n@),
{
    let mut r: Vec<char> = Vec::new();
    let mut i: usize = 0;
    while i < n.len()
        invariant
            i <= n@.len(),
            r@ == compact(n@.subrange(0, i as int)),
        decreases n.len() - i,
    {
        proof {
            let p = n@.subrange(0, i + 1);
            assert(p.drop_last() =~= n@.subrange(0, i as int));
        }
        if n[i] != ' ' {
            r.push(n[i]);
        }
        i = i + 1;
    }
    assert(n@.subrange(0, n@.len() as int) =~= n@);
    r
}

/// Decides whether a UI label names an authentication field.
pub fn is_sensitive_label(value: &str) -> (r: bool)
    ensures
        r == sensitive_label(value@),
{
    let chars = chars_of(value);
    let mut n: Vec<char> = Vec::new();
    let mut i: usize = 0;
    while i < chars.len()
        invariant
            chars@ == value@,
            i <= chars@.len(),
            n@ == normalized(value@.subrange(0, i as int)),
        decreases chars.len() - i,
    {
        let c = chars[i];
        let m = if is_alphanumeric(c) { crate::text::ascii_lower_char(c) } else { ' ' };
        n.push(m);
        i = i + 1;
        assert(n@ =~= normalized(value@.subrange(0, i as int)));
    }
    assert(value@.subrange(0, value@.len() as int) =~= value@);
    let s = n.as_slice();
    if has_word_exec(s, "password") || has_word_exec(s, "passwd") || has_word_exec(s, "passcode")
        || has_word_exec(s, "credential") || has_word_exec(s, "credentials") || has_word_exec(s, "otp")
        || has_word_exec(s, "totp") || has_word_exec(s, "mfa") || has_word_exec(s, "pin") || has_word_exec(s, "login")
        || has_word_exec(s, "authentication") {
        return true;
    }
    if contains_str(s, "one time code") || contains_str(s, "one time password")
        || contains_str(s, "verification code") || contains_str(s, "authentication code")
        || contains_str(s, "security code") || contains_str(s, "two factor")
        || contains_str(s, "sign in") || contains_str(s, "log in") {
        return true;
    }
    let c = compact_exec(&n);
    let t = c.as_slice();
    contains_str(t, "password") || contains_str(t, "passwd") || contains_str(t, "passcode")
        || contains_str(t, "credential") || contains_str(t, "onetimecode") || contains_str(t, "onetimepassword")
        || contains_str(t, "verificationcode") || contains_str(t, "authenticationcode")
        || contains_str(t, "securitycode") || contains_str(t, "twofactor") || contains_str(t, "signin")
        || contains_str(t, "login")
}

/// An element worth reporting: it has an action, or a name or automation id that is not
/// blank.
pub open spec fn useful_element(name: Seq<char>, automation_id: Seq<char>, action_count: nat) -> bool {
    action_count > 0 || !crate::text::all_space(name) || !crate::text::all_space(automation_id)
}

/// Decides whether an element is worth reporting in an observation.
pub fn is_useful(name: &str, automation_id: &str, actions: &Vec<String>) -> (r: bool)
    ensures
        r == useful_element(name@, automation_id@, actions@.len()),
{
    actions.len() > 0 || !crate::text::is_blank(name) || !crate::text::is_blank(automation_id)
}

} // verus!
