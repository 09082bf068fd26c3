//! Finding entries below a root: the pattern, type, extension and hidden-entry filters,
//! the budgets of a page, the steps of a page scan, and the cursor of a continued search.

use vstd::prelude::*;
use crate::context::opt_view;
use crate::error::{RuntimeError, RuntimeResult};
use crate::text::{chars_of, contains_chars, contains_seq, lower_seq, str_eq, string_from_chars};
use crate::workspace::index::relative_to;
use crate::workspace::listing::TruncationReason;
use crate::workspace::replace::replace_from;

verus! {

pub const HARD_FIND_TIMEOUT_MS: u64 = 60000;
pub const HARD_FIND_ENTRIES: u64 = 1000000;
pub const HARD_FIND_METADATA_CALLS: u64 = 100000;
pub const MAX_FIND_ITEMS: usize = 5000;
pub const REGEX_SIZE_LIMIT: usize = 1048576;
pub const REGEX_DFA_SIZE_LIMIT: usize = 2097152;
pub const GLOB_SIZE_LIMIT: usize = 10485760;
pub const GLOB_DFA_SIZE_LIMIT: usize = 10485760;

/// How a find pattern is read.
#[derive(Debug, Clone, Copy, PartialEq, Eq, Structural)]
pub enum FindPatternMode {
    /// A substring of the entry's name.
    Literal,
    /// A glob over the path relative to the root.
    Glob,
    /// A regular expression over the path relative to the root.
    Regex,
}

/// The kinds of entries a search may ask for.
#[derive(Debug, Clone, Copy, PartialEq, Eq, Structural)]
pub enum FindEntryType {
    File,
    Directory,
    Symlink,
}

/// `str::to_lowercase` of a text (full Unicode lower-casing).
pub uninterp spec fn spec_lowercase(s: Seq<char>) -> Seq<char>;

/// `str::to_lowercase`. The result is `spec_lowercase` of the text: Unicode lower-casing
/// depends on the text alone. Nothing else of it is stated.
#[verifier::external_body]
pub(crate) fn to_lowercase(s: &str) -> (r: String)
    ensures
        r@ == spec_lowercase(s@),
{
    s.to_lowercase()
}

/// What `globset` makes of a glob: the text of the byte regular expression it stands for
/// (`Ok`), or the message of a glob that does not parse (`Err`).
pub uninterp spec fn spec_glob_parse(pattern: Seq<char>, case_insensitive: bool) -> Result<Seq<char>, Seq<char>>;

/// `globset::GlobBuilder::new(pattern)` with `case_insensitive` and `literal_separator(false)`,
/// built: `Glob::regex` of the glob, or the error's message. The result is `spec_glob_parse`
/// of the arguments; nothing else of the glob language is stated. The glob is not compiled
/// here (`Glob::compile_matcher` panics on a regex over its size limit).
#[verifier::external_body]
fn glob_parse(pattern: &str, case_insensitive: bool) -> (r: Result<String, String>)
    ensures
        match r {
            Ok(re) => spec_glob_parse(pattern@, case_insensitive) == Ok::<Seq<char>, Seq<char>>(re@),
            Err(m) => spec_glob_parse(pattern@, case_insensitive) == Err::<Seq<char>, Seq<char>>(m@),
        },
{
    match globset::GlobBuilder::new(pattern).case_insensitive(case_insensitive).literal_separator(false).build() {
        Ok(glob) => Ok(glob.regex().to_string()),
        Err(error) => Err(error.to_string()),
    }
}

/// Whether a byte regular expression (`regex::bytes`, `.` matching a newline) matches
/// somewhere in the UTF-8 bytes of a text, or `None` when it does not compile within the
/// size limits.
pub uninterp spec fn spec_bytes_regex_match(pattern: Seq<char>, size_limit: usize, dfa_size_limit: usize, text: Seq<char>) -> Option<bool>;

/// The message `regex::bytes` gives for a pattern that does not compile within the limits.
pub uninterp spec fn spec_bytes_regex_error(pattern: Seq<char>, size_limit: usize, dfa_size_limit: usize) -> Option<Seq<char>>;

/// `regex::bytes::RegexBuilder::new(pattern)` with `dot_matches_new_line(true)`,
/// `size_limit` and `dfa_size_limit`, built (an oversize pattern is an error, not a panic)
/// and applied to the bytes of `text` with `is_match`. The result is
/// `spec_bytes_regex_match` of the arguments.
#[verifier::external_body]
fn bytes_regex_match(pattern: &str, size_limit: usize, dfa_size_limit: usize, text: &str) -> (r: Option<bool>)
    ensures
        r == spec_bytes_regex_match(pattern@, size_limit, dfa_size_limit, text@),
{
    match regex::bytes::RegexBuilder::new(pattern).dot_matches_new_line(true).size_limit(size_limit).dfa_size_limit(dfa_size_limit).build() {
        Ok(re) => Some(re.is_match(text.as_bytes())),
        Err(_) => None,
    }
}

/// The same builder as `bytes_regex_match`, reporting the error message when the pattern
/// does not compile. The result is `spec_bytes_regex_error` of the arguments.
#[verifier::external_body]
fn bytes_regex_error(pattern: &str, size_limit: usize, dfa_size_limit: usize) -> (r: Option<String>)
    ensures
        opt_view(r) == spec_bytes_regex_error(pattern@, size_limit, dfa_size_limit),
{
    match regex::bytes::RegexBuilder::new(pattern).dot_matches_new_line(true).size_limit(size_limit).dfa_size_limit(dfa_size_limit).build() {
        Ok(_) => None,
        Err(error) => Some(error.to_string()),
    }
}

/// The error of a glob: its parse error, else the error of compiling its regex.
pub open spec fn glob_pattern_error(pattern: Seq<char>, case_insensitive: bool) -> Option<Seq<char>> {
    match spec_glob_parse(pattern, case_insensitive) {
        Ok(re) => spec_bytes_regex_error(re, GLOB_SIZE_LIMIT, GLOB_DFA_SIZE_LIMIT),
        Err(m) => Some(m),
    }
}

/// Whether a glob matches a text: its regex compiles and matches.
pub open spec fn glob_matches(pattern: Seq<char>, case_insensitive: bool, text: Seq<char>) -> bool {
    match spec_glob_parse(pattern, case_insensitive) {
        Ok(re) => spec_bytes_regex_match(re, GLOB_SIZE_LIMIT, GLOB_DFA_SIZE_LIMIT, text) == Some(true),
        Err(_) => false,
    }
}

/// Checks a glob: parse error, else the error of compiling its regex.
fn glob_error(pattern: &str, case_insensitive: bool) -> (r: Option<String>)
    ensures
        opt_view(r) == glob_pattern_error(pattern@, case_insensitive),
{
    match glob_parse(pattern, case_insensitive) {
        Ok(re) => bytes_regex_error(re.as_str(), GLOB_SIZE_LIMIT, GLOB_DFA_SIZE_LIMIT),
        Err(m) => Some(m),
    }
}

/// Matches a glob against a text; a glob that does not parse or compile matches nothing.
fn glob_match(pattern: &str, case_insensitive: bool, text: &str) -> (r: bool)
    ensures
        r == glob_matches(pattern@, case_insensitive, text@),
{
    match glob_parse(pattern, case_insensitive) {
        Ok(re) => match bytes_regex_match(re.as_str(), GLOB_SIZE_LIMIT, GLOB_DFA_SIZE_LIMIT, text) {
            Some(m) => m,
            None => false,
        },
        Err(_) => false,
    }
}

/// Whether a regular expression (`regex`) matches somewhere in a text, or `None` when the
/// pattern does not compile within the size limits.
pub uninterp spec fn spec_regex_match(pattern: Seq<char>, case_insensitive: bool, size_limit: usize, dfa_size_limit: usize, text: Seq<char>) -> Option<bool>;

/// The message `regex` gives for a pattern that does not compile within the size limits.
pub uninterp spec fn spec_regex_error(pattern: Seq<char>, case_insensitive: bool, size_limit: usize, dfa_size_limit: usize) -> Option<Seq<char>>;

/// `regex::RegexBuilder::new(pattern)` with `case_insensitive`, `size_limit` and
/// `dfa_size_limit`, built and applied to `text` with `is_match`. The result is
/// `spec_regex_match` of the arguments; nothing else of the regex language is stated.
#[verifier::external_body]
fn regex_match(pattern: &str, case_insensitive: bool, size_limit: usize, dfa_size_limit: usize, text: &str) -> (r: Option<bool>)
    ensures
        r == spec_regex_match(pattern@, case_insensitive, size_limit, dfa_size_limit, text@),
{
    match regex::RegexBuilder::new(pattern).case_insensitive(case_insensitive).size_limit(size_limit).dfa_size_limit(dfa_size_limit).build() {
        Ok(re) => Some(re.is_match(text)),
        Err(_) => None,
    }
}

/// The same builder as `regex_match`, reporting the error message when the pattern does
/// not compile. The result is `spec_regex_error` of the arguments.
#[verifier::external_body]
fn regex_error(pattern: &str, case_insensitive: bool, size_limit: usize, dfa_size_limit: usize) -> (r: Option<String>)
    ensures
        opt_view(r) == spec_regex_error(pattern@, case_insensitive, size_limit, dfa_size_limit),
{
    match regex::RegexBuilder::new(pattern).case_insensitive(case_insensitive).size_limit(size_limit).dfa_size_limit(dfa_size_limit).build() {
        Ok(_) => None,
        Err(error) => Some(error.to_string()),
    }
}

/// The error of a pattern that does not compile, if any.
pub open spec fn pattern_error(pattern: Seq<char>, mode: FindPatternMode, case_sensitive: bool) -> Option<Seq<char>> {
    match mode {
        FindPatternMode::Literal => None,
        FindPatternMode::Glob => glob_pattern_error(pattern, !case_sensitive),
        FindPatternMode::Regex => spec_regex_error(pattern, !case_sensitive, REGEX_SIZE_LIMIT, REGEX_DFA_SIZE_LIMIT),
    }
}

/// Checks that a find pattern compiles before any entry is scanned.
pub fn check_pattern(pattern: &str, mode: FindPatternMode, case_sensitive: bool) -> (r: RuntimeResult<()>)
    ensures
        match pattern_error(pattern@, mode, case_sensitive) {
            None => r is Ok,
            Some(m) => r matches Err(e) && e.code@ == "invalid_find_pattern"@ && e.message@ == m,
        },
{
    let error = match mode {
        FindPatternMode::Literal => None,
        FindPatternMode::Glob => glob_error(pattern, !case_sensitive),
        FindPatternMode::Regex => regex_error(pattern, !case_sensitive, REGEX_SIZE_LIMIT, REGEX_DFA_SIZE_LIMIT),
    };
    match error {
        None => Ok(()),
        Some(m) => Err(RuntimeError::new("invalid_find_pattern", m.as_str())),
    }
}

/// The text of a path relative to `root` (the path itself when it is not below the root),
/// with backslashes written as slashes.
pub open spec fn relative_text(root: Seq<char>, path: Seq<char>) -> Seq<char> {
    let rel = match relative_to(root, path) { Some(r) => r, None => path };
    replace_from(rel, seq!['\\'], seq!['/'], 0)
}

/// The last component of a path (after its last `/`).
pub open spec fn file_name(path: Seq<char>) -> Seq<char> {
    if exists|i: int| 0 <= i < path.len() && path[i] == '/' {
        path.subrange((choose|i: int| 0 <= i < path.len() && path[i] == '/' && forall|j: int| i < j < path.len() ==> path[j] != '/') + 1, path.len() as int)
    } else {
        path
    }
}

/// Whether an entry passes the pattern: a literal is looked for in the entry's name
/// (lower-cased on both sides unless the search is case-sensitive); a glob or regular
/// expression is matched against the path relative to the root.
pub open spec fn pattern_matches_spec(root: Seq<char>, path: Seq<char>, pattern: Seq<char>, mode: FindPatternMode, case_sensitive: bool) -> bool {
    match mode {
        FindPatternMode::Literal => if case_sensitive {
            contains_seq(file_name(path), pattern)
        } else {
            contains_seq(spec_lowercase(file_name(path)), spec_lowercase(pattern))
        },
        FindPatternMode::Glob => glob_matches(pattern, !case_sensitive, relative_text(root, path)),
        FindPatternMode::Regex => spec_regex_match(pattern, !case_sensitive, REGEX_SIZE_LIMIT, REGEX_DFA_SIZE_LIMIT, relative_text(root, path)) == Some(true),
    }
}

/// The last component of a path.
fn last_component(path: &str) -> (r: Vec<char>)
    ensures
        r@ == file_name(path@),
{
    let c = chars_of(path);
    let mut k: usize = c.len();
    while k > 0
        invariant
            c@ == path@,
            k <= c@.len(),
            forall|j: int| k <= j < c@.len() ==> c@[j] != '/',
        decreases k,
    {
        if c[k - 1] == '/' {
            let mut v: Vec<char> = Vec::new();
            let mut i: usize = k;
            while i < c.len()
                invariant
                    k <= i <= c@.len(),
                    v@ == c@.subrange(k as int, i as int),
                decreases c.len() - i,
            {
                v.push(c[i]);
                i = i + 1;
                assert(c@.subrange(k as int, i as int) =~= c@.subrange(k as int, i - 1).push(c@[i - 1]));
            }
            proof {
                let w = (k - 1) as int;
                assert(c@[w] == '/' && forall|j: int| w < j < c@.len() ==> c@[j] != '/');
                let chosen = choose|i: int| 0 <= i < path@.len() && path@[i] == '/' && forall|j: int| i < j < path@.len() ==> path@[j] != '/';
                assert(chosen == w) by {
                    if chosen < w {
                        assert(path@[w] == '/');
                    } else if chosen > w {
                        assert(path@[chosen] == '/');
                    }
                }
            }
            return v;
        }
        k = k - 1;
    }
    assert(!exists|i: int| 0 <= i < path@.len() && path@[i] == '/');
    c
}

/// The relative text of a path, as the glob and regex filters see it.
fn relative_path_text(root: &str, path: &str) -> (r: Vec<char>)
    ensures
        r@ == relative_text(root@, path@),
{
    let rc = chars_of(root);
    let rel = match crate::workspace::index::relative_of(&rc, path) {
        Some(r) => chars_of(r.as_str()),
        None => chars_of(path),
    };
    let mut from: Vec<char> = Vec::new();
    from.push('\\');
    let mut to: Vec<char> = Vec::new();
    to.push('/');
    assert(from@ =~= seq!['\\']);
    assert(to@ =~= seq!['/']);
    crate::workspace::replace::replace_all(rel.as_slice(), from.as_slice(), to.as_slice())
}

/// Decides whether an entry passes the pattern of a search.
pub fn pattern_matches(root: &str, path: &str, pattern: &str, mode: FindPatternMode, case_sensitive: bool) -> (r: bool)
    ensures
        r == pattern_matches_spec(root@, path@, pattern@, mode, case_sensitive),
{
    match mode {
        FindPatternMode::Literal => {
            let name = last_component(path);
            if case_sensitive {
                contains_chars(name.as_slice(), chars_of(pattern).as_slice())
            } else {
                let name_text = string_from_chars(name.as_slice());
                let lowered_name = to_lowercase(name_text.as_str());
                let lowered_pattern = to_lowercase(pattern);
                contains_chars(chars_of(lowered_name.as_str()).as_slice(), chars_of(lowered_pattern.as_str()).as_slice())
            }
        },
        FindPatternMode::Glob => {
            let text = string_from_chars(relative_path_text(root, path).as_slice());
            glob_match(pattern, !case_sensitive, text.as_str())
        },
        FindPatternMode::Regex => {
            let text = string_from_chars(relative_path_text(root, path).as_slice());
            match regex_match(pattern, !case_sensitive, REGEX_SIZE_LIMIT, REGEX_DFA_SIZE_LIMIT, text.as_str()) {
                Some(m) => m,
                None => false,
            }
        },
    }
}

/// Whether an entry of kind `entry_type` is of a wanted kind (any kind when none is named).
pub open spec fn type_wanted(entry_type: Seq<char>, wanted: Seq<FindEntryType>) -> bool {
    wanted.len() == 0 || exists|i: int| 0 <= i < wanted.len() && match #[trigger] wanted[i] {
        FindEntryType::File => entry_type == "file"@,
        FindEntryType::Directory => entry_type == "directory"@,
        FindEntryType::Symlink => entry_type == "symlink"@,
    }
}

/// Decides whether an entry is of a wanted kind.
pub fn entry_type_matches(entry_type: &str, wanted: &Vec<FindEntryType>) -> (r: bool)
    ensures
        r == type_wanted(entry_type@, wanted@),
{
    if wanted.len() == 0 {
        return true;
    }
    let mut i: usize = 0;
    while i < wanted.len()
        invariant
            i <= wanted@.len(),
            forall|k: int| 0 <= k < i ==> !match #[trigger] wanted@[k] {
                FindEntryType::File => entry_type@ == "file"@,
                FindEntryType::Directory => entry_type@ == "directory"@,
                FindEntryType::Symlink => entry_type@ == "symlink"@,
            },
        decreases wanted.len() - i,
    {
        let ok = match wanted[i] {
            FindEntryType::File => str_eq(entry_type, "file"),
            FindEntryType::Directory => str_eq(entry_type, "directory"),
            FindEntryType::Symlink => str_eq(entry_type, "symlink"),
        };
        if ok {
            return true;
        }
        i = i + 1;
    }
    false
}

/// The extension of a path (`Path::extension`): what follows the last dot of its last
/// component, unless that component has no dot after its first character or is `..`.
pub open spec fn extension_of(path: Seq<char>) -> Option<Seq<char>> {
    let name = file_name(path);
    if name == ".."@ || !exists|i: int| 0 < i < name.len() && name[i] == '.' {
        None
    } else {
        let d = choose|i: int| 0 < i < name.len() && name[i] == '.' && forall|j: int| i < j < name.len() ==> name[j] != '.';
        Some(name.subrange(d + 1, name.len() as int))
    }
}

/// A requested extension (leading dots ignored) equals `ext` up to ASCII case.
pub open spec fn extension_equals(candidate: Seq<char>, ext: Seq<char>) -> bool {
    let trimmed = candidate.skip(leading_dots(candidate, 0) as int);
    lower_seq(trimmed) == lower_seq(ext)
}

/// The number of leading dots of `s` from index `i` on.
pub open spec fn leading_dots(s: Seq<char>, i: int) -> nat
    decreases s.len() - i,
{
    if i < 0 || i >= s.len() || s[i] != '.' { 0 } else { 1 + leading_dots(s, i + 1) }
}

/// Whether a path has one of the requested extensions (any path, when none is requested).
pub open spec fn extension_wanted(path: Seq<char>, extensions: Seq<String>) -> bool {
    extensions.len() == 0 || (extension_of(path) is Some
        && exists|i: int| 0 <= i < extensions.len() && extension_equals((#[trigger] extensions[i])@, extension_of(path)->0))
}

fn extension(path: &str) -> (r: Option<Vec<char>>)
    ensures
        match extension_of(path@) {
            Some(e) => r matches Some(v) && v@ == e,
            None => r is None,
        },
{
    let name = last_component(path);
    let n = name.len();
    if n == 2 && name[0] == '.' && name[1] == '.' {
        assert(name@ =~= ".."@) by {
            reveal_strlit("..");
        }
        return None;
    }
    let mut k: usize = n;
    while k > 1
        invariant
            name@ == file_name(path@),
            n == name@.len(),
            !(n == 2 && name@[0] == '.' && name@[1] == '.'),
            k <= n,
            forall|j: int| k <= j < n ==> name@[j] != '.',
        decreases k,
    {
        if name[k - 1] == '.' {
            let mut v: Vec<char> = Vec::new();
            let mut i: usize = k;
            while i < n
                invariant
                    k <= i <= n,
                    n == name@.len(),
                    v@ == name@.subrange(k as int, i as int),
                decreases n - i,
            {
                v.push(name[i]);
                i = i + 1;
                assert(name@.subrange(k as int, i as int) =~= name@.subrange(k as int, i - 1).push(name@[i - 1]));
            }
            proof {
                let w = (k - 1) as int;
                let nm = file_name(path@);
                assert(nm != ".."@) by {
                    reveal_strlit("..");
                    if n == 2 {
                        assert(!(name@[0] == '.' && name@[1] == '.'));
                    }
                }
                let d = choose|i: int| 0 < i < nm.len() && nm[i] == '.' && forall|j: int| i < j < nm.len() ==> nm[j] != '.';
                assert(0 < w < nm.len() && nm[w] == '.');
                assert(d == w) by {
                    if d < w {
                        assert(nm[w] == '.');
                    } else if d > w {
                        assert(nm[d] == '.');
                    }
                }
            }
            return Some(v);
        }
        k = k - 1;
    }
    None
}

fn same_chars(a: &[char], b: &[char]) -> (r: bool)
    ensures
        r == (a@ == b@),
{
    if a.len() != b.len() {
        return false;
    }
    let mut i: usize = 0;
    while i < a.len()
        invariant
            a@.len() == b@.len(),
            i <= a@.len(),
            forall|k: int| 0 <= k < i ==> a@[k] == b@[k],
        decreases a.len() - i,
    {
        if a[i] != b[i] {
            return false;
        }
        i = i + 1;
    }
    assert(a@ =~= b@);
    true
}

fn skip_leading_dots(s: &[char]) -> (r: Vec<char>)
    ensures
        r@ == s@.skip(leading_dots(s@, 0) as int),
{
    let mut i: usize = 0;
    while i < s.len() && s[i] == '.'
        invariant
            i <= s@.len(),
            leading_dots(s@, 0) == i + leading_dots(s@, i as int),
        decreases s.len() - i,
    {
        i = i + 1;
    }
    let mut v: Vec<char> = Vec::new();
    let mut k: usize = i;
    while k < s.len()
        invariant
            i <= k <= s@.len(),
            v@ == s@.subrange(i as int, k as int),
        decreases s.len() - k,
    {
        v.push(s[k]);
        k = k + 1;
        assert(s@.subrange(i as int, k as int) =~= s@.subrange(i as int, k - 1).push(s@[k - 1]));
    }
    assert(v@ =~= s@.skip(i as int));
    v
}

/// Decides whether a path has one of the requested extensions.
pub fn extension_matches(path: &str, extensions: &Vec<String>) -> (r: bool)
    ensures
        r == extension_wanted(path@, extensions@),
{
    if extensions.len() == 0 {
        return true;
    }
    let ext = match extension(path) {
        Some(e) => e,
        None => return false,
    };
    let lowered_ext = crate::text::lower_chars(ext.as_slice());
    let mut i: usize = 0;
    while i < extensions.len()
        invariant
            extension_of(path@) matches Some(e) && e == ext@,
            lowered_ext@ == lower_seq(ext@),
            i <= extensions@.len(),
            forall|k: int| 0 <= k < i ==> !extension_equals((#[trigger] extensions@[k])@, ext@),
        decreases extensions.len() - i,
    {
        let trimmed = skip_leading_dots(chars_of(extensions[i].as_str()).as_slice());
        let lowered = crate::text::lower_chars(trimmed.as_slice());
        if same_chars(lowered.as_slice(), lowered_ext.as_slice()) {
            assert(extension_equals(extensions@[i as int]@, ext@));
            return true;
        }
        i = i + 1;
    }
    false
}

/// A hidden component starts at index `i` of a path: a name that begins with a dot and is
/// neither `.` nor `..`.
pub open spec fn hidden_component_at(p: Seq<char>, i: int) -> bool {
    &&& 0 <= i < p.len()
    &&& (i == 0 || p[i - 1] == '/')
    &&& p[i] == '.'
    &&& !(i + 1 == p.len() || p[i + 1] == '/')
    &&& !(p[i + 1] == '.' && (i + 2 == p.len() || p[i + 2] == '/'))
}

/// Whether the path, taken relative to the root where it lies below it, has a hidden
/// component.
pub open spec fn has_hidden_component(root: Seq<char>, path: Seq<char>) -> bool {
    exists|i: int| #[trigger] hidden_component_at(stripped(root, path), i)
}

/// The path relative to the root where it lies below it, else the path itself.
pub open spec fn stripped(root: Seq<char>, path: Seq<char>) -> Seq<char> {
    match relative_to(root, path) { Some(r) => r, None => path }
}

/// Decides whether a path has a hidden component below the root.
pub fn path_has_hidden_component(root: &str, path: &str) -> (r: bool)
    ensures
        r == has_hidden_component(root@, path@),
{
    let rc = chars_of(root);
    let rel = match crate::workspace::index::relative_of(&rc, path) {
        Some(r) => chars_of(r.as_str()),
        None => chars_of(path),
    };
    let n = rel.len();
    let mut i: usize = 0;
    while i < n
        invariant
            n == rel@.len(),
            rel@ == stripped(root@, path@),
            i <= n,
            forall|k: int| 0 <= k < i ==> !#[trigger] hidden_component_at(rel@, k),
        decreases n - i,
    {
        if (i == 0 || rel[i - 1] == '/') && rel[i] == '.' {
            let single = i + 1 == n || rel[i + 1] == '/';
            let double = !single && rel[i + 1] == '.' && (i + 2 == n || rel[i + 2] == '/');
            if !single && !double {
                assert(hidden_component_at(stripped(root@, path@), i as int));
                assert(has_hidden_component(root@, path@));
                return true;
            }
        }
        i = i + 1;
    }
    false
}

/// The budgets of a search, each within its hard limit: at most a minute, between one and
/// a million entries, at most a hundred thousand metadata calls.
pub fn find_budget(timeout_ms: u64, max_entries_scanned: u64, max_metadata_calls: u64) -> (r: (u64, u64, u64))
    ensures
        r.0 == (if timeout_ms < HARD_FIND_TIMEOUT_MS { timeout_ms } else { HARD_FIND_TIMEOUT_MS }),
        r.1 == (if max_entries_scanned < 1 { 1 } else if max_entries_scanned > HARD_FIND_ENTRIES { HARD_FIND_ENTRIES } else { max_entries_scanned }),
        r.2 == (if max_metadata_calls < HARD_FIND_METADATA_CALLS { max_metadata_calls } else { HARD_FIND_METADATA_CALLS }),
{
    (
        if timeout_ms < HARD_FIND_TIMEOUT_MS { timeout_ms } else { HARD_FIND_TIMEOUT_MS },
        if max_entries_scanned < 1 { 1 } else if max_entries_scanned > HARD_FIND_ENTRIES { HARD_FIND_ENTRIES } else { max_entries_scanned },
        if max_metadata_calls < HARD_FIND_METADATA_CALLS { max_metadata_calls } else { HARD_FIND_METADATA_CALLS },
    )
}

/// What a search cursor was issued for.
#[derive(Debug, Clone)]
pub struct FindCursorScope {
    pub root: String,
    pub owner: String,
    pub request_fingerprint: String,
    pub root_version: String,
}

/// The first reason a continued search does not fit its cursor, if any.
pub open spec fn find_cursor_error(scope: FindCursorScope, root: Seq<char>, owner: Seq<char>, fingerprint: Seq<char>, expected_version: Option<Seq<char>>, current_version: Seq<char>) -> Option<Seq<char>> {
    if scope.root@ != root || scope.owner@ != owner || scope.request_fingerprint@ != fingerprint {
        Some("cursor_scope_mismatch"@)
    } else if expected_version != Some(scope.root_version@) {
        Some("cursor_scope_mismatch"@)
    } else if current_version != scope.root_version@ {
        Some("directory_changed"@)
    } else {
        None
    }
}

/// Checks a continued search against its cursor: the same root, caller and options, the
/// root version the cursor carries, and a root that has not changed since.
pub fn check_find_cursor(scope: &FindCursorScope, root: &str, owner: &str, fingerprint: &str, expected_version: Option<&str>, current_version: &str) -> (r: RuntimeResult<()>)
    ensures
        match find_cursor_error(*scope, root@, owner@, fingerprint@, match expected_version { Some(v) => Some(v@), None => None }, current_version@) {
            None => r is Ok,
            Some(code) => r matches Err(e) && e.code@ == code,
        },
{
    if !str_eq(scope.root.as_str(), root) || !str_eq(scope.owner.as_str(), owner) || !str_eq(scope.request_fingerprint.as_str(), fingerprint) {
        return Err(RuntimeError::new("cursor_scope_mismatch", "cursor does not match path, caller, or find options"));
    }
    let expected_matches = match expected_version {
        Some(v) => str_eq(v, scope.root_version.as_str()),
        None => false,
    };
    if !expected_matches {
        return Err(RuntimeError::new("cursor_scope_mismatch", "cursor root version does not match its server state"));
    }
    if !str_eq(current_version, scope.root_version.as_str()) {
        return Err(RuntimeError::new("directory_changed", "find root changed after the cursor was issued; restart traversal"));
    }
    Ok(())
}

/// The filters of a search other than depth: hidden components, entry kind, extension and
/// pattern, in that order.
pub open spec fn passes_filters(
    root: Seq<char>, path: Seq<char>, entry_type: Seq<char>, include_hidden: bool, wanted: Seq<FindEntryType>,
    extensions: Seq<String>, pattern: Seq<char>, mode: FindPatternMode, case_sensitive: bool,
) -> bool {
    &&& (include_hidden || !has_hidden_component(root, path))
    &&& type_wanted(entry_type, wanted)
    &&& extension_wanted(path, extensions)
    &&& pattern_matches_spec(root, path, pattern, mode, case_sensitive)
}

/// Decides whether an entry passes the filters of a search.
pub fn entry_passes(
    root: &str, path: &str, entry_type: &str, include_hidden: bool, wanted: &Vec<FindEntryType>,
    extensions: &Vec<String>, pattern: &str, mode: FindPatternMode, case_sensitive: bool,
) -> (r: bool)
    ensures
        r == passes_filters(root@, path@, entry_type@, include_hidden, wanted@, extensions@, pattern@, mode, case_sensitive),
{
    (include_hidden || !path_has_hidden_component(root, path))
        && entry_type_matches(entry_type, wanted)
        && extension_matches(path, extensions)
        && pattern_matches(root, path, pattern, mode, case_sensitive)
}

/// The number of components of a relative path: its runs of characters other than `/`.
pub open spec fn component_count(s: Seq<char>) -> nat
    decreases s.len(),
{
    if s.len() == 0 {
        0
    } else {
        component_count(s.drop_last())
            + if s.last() != '/' && (s.len() == 1 || s[s.len() - 2] == '/') { 1nat } else { 0nat }
    }
}

/// The depth of a path below the root of a search: its number of components relative to
/// the root, or `usize::MAX` when it is not below the root.
pub open spec fn depth_below(root: Seq<char>, path: Seq<char>) -> int {
    match relative_to(root, path) {
        Some(rel) => component_count(rel) as int,
        None => usize::MAX as int,
    }
}

/// The depth of an indexed path below the root of a search.
pub fn path_depth(root: &str, path: &str) -> (r: usize)
    ensures
        r as int == depth_below(root@, path@),
{
    let root_chars = chars_of(root);
    match crate::workspace::index::relative_of(&root_chars, path) {
        None => usize::MAX,
        Some(rel) => {
            let c = chars_of(rel.as_str());
            let mut count: usize = 0;
            let mut i: usize = 0;
            while i < c.len()
                invariant
                    i <= c@.len(),
                    c@ == rel@,
                    count == component_count(c@.subrange(0, i as int)),
                    count <= i,
                decreases c.len() - i,
            {
                let ghost pre = c@.subrange(0, i as int);
                assert(c@.subrange(0, i + 1).drop_last() =~= pre);
                if c[i] != '/' && (i == 0 || c[i - 1] == '/') {
                    count = count + 1;
                }
                i = i + 1;
            }
            assert(c@.subrange(0, c@.len() as int) =~= c@);
            count
        },
    }
}

/// Whether a candidate of a search is skipped before any filter: the root directory
/// itself (depth 0), and anything deeper than `max_depth`.
pub open spec fn skipped_by_depth(root: Seq<char>, path: Seq<char>, root_is_dir: bool, depth: int, max_depth: int) -> bool {
    (depth == 0 && path == root && root_is_dir) || depth > max_depth
}

/// Decides whether a candidate of a search is skipped by its depth.
pub fn skips_by_depth(root: &str, path: &str, root_is_dir: bool, depth: usize, max_depth: usize) -> (r: bool)
    ensures
        r == skipped_by_depth(root@, path@, root_is_dir, depth as int, max_depth as int),
{
    (depth == 0 && root_is_dir && crate::text::str_eq(path, root)) || depth > max_depth
}

/// What the search scan does next.
#[derive(Debug, Clone, Copy, PartialEq, Eq, Structural)]
pub enum FindStep {
    /// Read the next candidate.
    Read,
    /// The page is full: read one more candidate only to learn whether there is more.
    Peek,
    /// The page is complete.
    Done,
}

/// What becomes of a candidate.
#[derive(Debug, Clone, Copy, PartialEq, Eq, Structural)]
pub enum FindDecision {
    /// Excluded by depth or a filter.
    Skip,
    /// Listed.
    Accept,
    /// Kept for the next page.
    Hold,
    /// An indexed candidate no longer matches the filesystem: the page fails with
    /// `index_stale_detected`.
    Stale,
}

/// The scan of one page of a search.
#[derive(Debug, Clone, Copy)]
pub struct FindScan {
    pub limit: usize,
    pub max_entries: u64,
    pub max_metadata: u64,
    pub items: usize,
    pub entries_scanned: u64,
    pub metadata_calls: u64,
    pub truncation: Option<TruncationReason>,
    pub has_more: bool,
    pub reading: bool,
    pub peeking: bool,
    pub done: bool,
}

impl FindScan {
    /// The bounds every page keeps: at most `limit` items and `max_entries` candidates, and
    /// at most one metadata call past the metadata budget (the one that finds it spent).
    pub open spec fn wf(self) -> bool {
        &&& 1 <= self.limit <= MAX_FIND_ITEMS
        &&& 1 <= self.max_entries
        &&& self.max_metadata <= HARD_FIND_METADATA_CALLS
        &&& self.items <= self.limit
        &&& self.entries_scanned <= self.max_entries
        &&& self.metadata_calls <= self.max_metadata + 1
        &&& (self.metadata_calls > self.max_metadata ==> self.done)
        &&& (self.reading ==> !self.done && self.entries_scanned < self.max_entries && self.items < self.limit && !self.peeking)
        &&& (self.peeking ==> !self.done && self.items == self.limit && !self.reading)
        &&& (self.truncation is Some ==> self.has_more && self.done)
        &&& (self.has_more ==> self.done)
    }

    /// A fresh scan: between 1 and 5000 items per page, between one and a million candidates,
    /// at most a hundred thousand metadata calls.
    pub fn new(limit: usize, max_entries_scanned: u64, max_metadata_calls: u64) -> (s: Self)
        ensures
            s.wf(),
            s.limit == (if limit < 1 { 1 } else if limit > MAX_FIND_ITEMS { MAX_FIND_ITEMS } else { limit }),
            s.max_entries == (if max_entries_scanned < 1 { 1 } else if max_entries_scanned > HARD_FIND_ENTRIES { HARD_FIND_ENTRIES } else { max_entries_scanned }),
            s.max_metadata == (if max_metadata_calls < HARD_FIND_METADATA_CALLS { max_metadata_calls } else { HARD_FIND_METADATA_CALLS }),
            s.items == 0 && s.entries_scanned == 0 && s.metadata_calls == 0,
            s.truncation is None && !s.has_more && !s.reading && !s.peeking && !s.done,
    {
        FindScan {
            limit: if limit < 1 { 1 } else if limit > MAX_FIND_ITEMS { MAX_FIND_ITEMS } else { limit },
            max_entries: if max_entries_scanned < 1 { 1 } else if max_entries_scanned > HARD_FIND_ENTRIES { HARD_FIND_ENTRIES } else { max_entries_scanned },
            max_metadata: if max_metadata_calls < HARD_FIND_METADATA_CALLS { max_metadata_calls } else { HARD_FIND_METADATA_CALLS },
            items: 0,
            entries_scanned: 0,
            metadata_calls: 0,
            truncation: None,
            has_more: false,
            reading: false,
            peeking: false,
            done: false,
        }
    }

    /// Before the next candidate: a full page only peeks for one more; otherwise the scan
    /// stops on cancellation, on the time budget, or when the candidate budget is spent,
    /// and else reads a candidate.
    pub fn next_step(&mut self, cancelled: bool, timed_out: bool) -> (step: FindStep)
        requires
            old(self).wf(),
            !old(self).done,
            !old(self).reading,
            !old(self).peeking,
        ensures
            final(self).wf(),
            final(self).limit == old(self).limit,
            final(self).max_entries == old(self).max_entries,
            final(self).max_metadata == old(self).max_metadata,
            final(self).items == old(self).items,
            final(self).entries_scanned == old(self).entries_scanned,
            final(self).metadata_calls == old(self).metadata_calls,
            old(self).items == old(self).limit ==> step == FindStep::Peek && *final(self) == (FindScan { peeking: true, ..*old(self) }),
            old(self).items < old(self).limit ==> ({
                let reason = if cancelled {
                    Some(TruncationReason::Cancelled)
                } else if timed_out {
                    Some(TruncationReason::TimeBudget)
                } else if old(self).entries_scanned >= old(self).max_entries {
                    Some(TruncationReason::ItemLimit)
                } else {
                    None::<TruncationReason>
                };
                match reason {
                    Some(t) => step == FindStep::Done && *final(self) == (FindScan { truncation: Some(t), has_more: true, done: true, ..*old(self) }),
                    None => step == FindStep::Read && *final(self) == (FindScan { reading: true, ..*old(self) }),
                }
            }),
    {
        if self.items == self.limit {
            self.peeking = true;
            return FindStep::Peek;
        }
        let reason = if cancelled {
            Some(TruncationReason::Cancelled)
        } else if timed_out {
            Some(TruncationReason::TimeBudget)
        } else if self.entries_scanned >= self.max_entries {
            Some(TruncationReason::ItemLimit)
        } else {
            None
        };
        match reason {
            Some(t) => {
                self.truncation = Some(t);
                self.has_more = true;
                self.done = true;
                FindStep::Done
            },
            None => {
                self.reading = true;
                FindStep::Read
            },
        }
    }

    /// No candidate is left: the page is complete and nothing more is to come.
    pub fn end_of_candidates(&mut self)
        requires
            old(self).wf(),
            old(self).reading || old(self).peeking,
        ensures
            final(self).wf(),
            *final(self) == (FindScan { reading: false, peeking: false, done: true, ..*old(self) }),
    {
        self.reading = false;
        self.peeking = false;
        self.done = true;
    }

    /// A candidate was read. While peeking it is held for the next page. Otherwise it counts
    /// as scanned; it is skipped when excluded before the index check (the root itself, or
    /// too deep), fails the page when it is a stale indexed candidate, is skipped when a
    /// filter rejects it, and is held when its metadata call passes the budget; else it is
    /// listed.
    pub fn on_candidate(&mut self, excluded: bool, stale: bool, passes: bool, metadata_call: bool) -> (d: FindDecision)
        requires
            old(self).wf(),
            old(self).reading || old(self).peeking,
        ensures
            final(self).wf(),
            old(self).peeking ==> d == FindDecision::Hold
                && *final(self) == (FindScan { peeking: false, has_more: true, done: true, ..*old(self) }),
            !old(self).peeking ==> ({
                let scanned = (old(self).entries_scanned + 1) as u64;
                let calls = if metadata_call { (old(self).metadata_calls + 1) as u64 } else { old(self).metadata_calls };
                if excluded {
                    d == FindDecision::Skip && *final(self) == (FindScan { entries_scanned: scanned, reading: false, ..*old(self) })
                } else if stale {
                    d == FindDecision::Stale && *final(self) == (FindScan { entries_scanned: scanned, reading: false, done: true, ..*old(self) })
                } else if !passes {
                    d == FindDecision::Skip && *final(self) == (FindScan { entries_scanned: scanned, reading: false, ..*old(self) })
                } else if calls > old(self).max_metadata {
                    d == FindDecision::Hold && *final(self) == (FindScan {
                        entries_scanned: scanned,
                        metadata_calls: calls,
                        reading: false,
                        truncation: Some(TruncationReason::MetadataBudget),
                        has_more: true,
                        done: true,
                        ..*old(self)
                    })
                } else {
                    d == FindDecision::Accept && *final(self) == (FindScan {
                        entries_scanned: scanned,
                        metadata_calls: calls,
                        items: (old(self).items + 1) as usize,
                        reading: false,
                        ..*old(self)
                    })
                }
            }),
    {
        if self.peeking {
            self.peeking = false;
            self.has_more = true;
            self.done = true;
            return FindDecision::Hold;
        }
        self.reading = false;
        self.entries_scanned = self.entries_scanned + 1;
        if excluded {
            return FindDecision::Skip;
        }
        if stale {
            self.done = true;
            return FindDecision::Stale;
        }
        if !passes {
            return FindDecision::Skip;
        }
        if metadata_call {
            self.metadata_calls = self.metadata_calls + 1;
            if self.metadata_calls > self.max_metadata {
                self.truncation = Some(TruncationReason::MetadataBudget);
                self.has_more = true;
                self.done = true;
                return FindDecision::Hold;
            }
        }
        self.items = self.items + 1;
        FindDecision::Accept
    }
}


/// The version a search cursor carries of its root: the root's size and modification
/// time in nanoseconds, as `size:modified`.
pub fn root_version(len: u64, modified_ns: u128) -> (r: String)
    ensures
        r@ == crate::text::decimal(len as nat) + ":"@ + crate::text::decimal(modified_ns as nat),
{
    let mut v: Vec<char> = Vec::new();
    crate::text::push_decimal(&mut v, len);
    crate::text::extend_str(&mut v, ":");
    crate::text::push_decimal_u128(&mut v, modified_ns);
    crate::text::string_from_chars(v.as_slice())
}

} // verus!
