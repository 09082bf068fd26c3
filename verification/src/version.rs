//! File versions: metadata snapshots, bounded content digests and authenticated,
//! tamper-evident version tokens that mutations check before they write.

use vstd::prelude::*;
use vstd::utf8::encode_utf8;
use crate::context::opt_view;
use crate::digest::{
    decode_base64url, encode_base64url, hmac_sha256, hmac_sha256_verify, opt_bytes, sha256_hex,
    spec_base64url_decode, spec_base64url_encode, spec_hmac_sha256, spec_sha256_hex, url_safe_char,
};
use crate::error::{RuntimeError, RuntimeResult};
use crate::text::{chars_of, concat_str, eq_str, extend_str, lower_chars, lower_seq, str_eq, string_from_chars};

verus! {

pub const TOKEN_VERSION: u8 = 1;
pub const SAMPLE_BYTES: u64 = 65536;

/// How much of a file its version covers.
#[derive(Debug, Clone, Copy, PartialEq, Eq, Structural)]
pub enum VersionStrength {
    Metadata,
    Sampled,
    Content,
}

/// Limits of one version capture.
#[derive(Debug, Clone, Copy, PartialEq, Eq, Structural)]
pub struct FsStatBudget {
    pub timeout_ms: u64,
    pub max_bytes_read: u64,
}

/// A decoded, authenticated file version. Identity and path are one-way fingerprints.
#[derive(Debug, Clone)]
pub struct FileVersion {
    pub schema: u8,
    pub path_fingerprint: String,
    pub identity_fingerprint: String,
    pub entry_type: String,
    pub size_bytes: u64,
    pub modified_at_ns: Option<u64>,
    pub changed_at_ns: Option<u64>,
    pub strength: VersionStrength,
    pub content_hash: Option<String>,
}

/// The metadata of an entry at one moment.
#[derive(Debug, Clone)]
pub struct Snapshot {
    pub identity_fingerprint: String,
    pub entry_type: String,
    pub size_bytes: u64,
    pub modified_at_ns: Option<u64>,
    pub changed_at_ns: Option<u64>,
}

pub open spec fn snapshot_view(s: Snapshot) -> (Seq<char>, Seq<char>, u64, Option<u64>, Option<u64>) {
    (s.identity_fingerprint@, s.entry_type@, s.size_bytes, s.modified_at_ns, s.changed_at_ns)
}

/// A version is only valid if the entry did not change while it was captured.
pub fn ensure_unchanged(before: &Snapshot, after: &Snapshot) -> (r: RuntimeResult<()>)
    ensures
        r is Ok <==> snapshot_view(*before) == snapshot_view(*after),
        r matches Err(e) ==> e.code@ == "fileChangedDuringHash"@,
{
    if str_eq(before.identity_fingerprint.as_str(), after.identity_fingerprint.as_str())
        && str_eq(before.entry_type.as_str(), after.entry_type.as_str())
        && before.size_bytes == after.size_bytes
        && before.modified_at_ns == after.modified_at_ns
        && before.changed_at_ns == after.changed_at_ns {
        Ok(())
    } else {
        Err(RuntimeError::new("fileChangedDuringHash", "filesystem entry changed while its version was being captured"))
    }
}

/// Refuses to hash more bytes than the budget allows.
pub fn ensure_hash_size_within_budget(bytes: u64, budget: &FsStatBudget) -> (r: RuntimeResult<()>)
    ensures
        r is Ok <==> bytes <= budget.max_bytes_read,
        r matches Err(e) ==> e.code@ == "hashBudgetExceeded"@,
{
    if bytes > budget.max_bytes_read {
        Err(RuntimeError::new("hashBudgetExceeded", "fs_stat hashing would exceed maxBytesRead"))
    } else {
        Ok(())
    }
}

/// Only SHA-256 may be requested (named in any ASCII case).
pub fn validate_hash_algorithm(algorithm: Option<&str>) -> (r: RuntimeResult<()>)
    ensures
        r is Ok <==> (algorithm matches Some(a) ==> lower_seq(a@) == "sha256"@),
        r matches Err(e) ==> e.code@ == "unsupportedHashAlgorithm"@,
{
    if let Some(a) = algorithm {
        let lowered = lower_chars(chars_of(a).as_slice());
        if !eq_str(lowered.as_slice(), "sha256") {
            return Err(RuntimeError::new("unsupportedHashAlgorithm", "fs_stat supports only sha256"));
        }
    }
    Ok(())
}

/// Stops a hash when it is cancelled, takes longer than the budget, or reads more than it.
pub fn check_budget(budget: &FsStatBudget, cancelled: bool, elapsed_ms: u64, bytes_read: u64) -> (r: RuntimeResult<()>)
    ensures
        cancelled ==> (r matches Err(e) && e.code@ == "operationCancelled"@),
        !cancelled && (elapsed_ms > budget.timeout_ms || bytes_read > budget.max_bytes_read) ==> (r matches Err(e) && e.code@ == "hashBudgetExceeded"@),
        !cancelled && elapsed_ms <= budget.timeout_ms && bytes_read <= budget.max_bytes_read ==> r is Ok,
{
    if cancelled {
        return Err(RuntimeError::new("operationCancelled", "fs_stat hashing was cancelled"));
    }
    if elapsed_ms > budget.timeout_ms {
        return Err(RuntimeError::new("hashBudgetExceeded", "fs_stat hashing timed out"));
    }
    if bytes_read > budget.max_bytes_read {
        return Err(RuntimeError::new("hashBudgetExceeded", "fs_stat hashing exceeded maxBytesRead"));
    }
    Ok(())
}

/// The bytes a capture of this strength reads from a file of `size` bytes, which the
/// budget must allow before hashing starts: none, three samples, or the whole file.
pub fn hash_budget_bytes(strength: VersionStrength, size: u64) -> (r: Option<u64>)
    ensures
        r == (match strength {
            VersionStrength::Metadata => None::<u64>,
            VersionStrength::Sampled => Some(((if size < SAMPLE_BYTES { size } else { SAMPLE_BYTES }) * 3) as u64),
            VersionStrength::Content => Some(size),
        }),
{
    match strength {
        VersionStrength::Metadata => None,
        VersionStrength::Sampled => {
            let sample = if size < SAMPLE_BYTES { size } else { SAMPLE_BYTES };
            Some(sample * 3)
        },
        VersionStrength::Content => Some(size),
    }
}

/// The sample length and the three sample offsets of a sampled hash: the start, the
/// middle and the end of the file.
pub fn sample_positions(size: u64) -> (r: (u64, u64, u64, u64))
    ensures
        r.0 == (if size < SAMPLE_BYTES { size } else { SAMPLE_BYTES }),
        r.1 == 0,
        r.2 == (size - r.0) / 2,
        r.3 == size - r.0,
{
    let sample = if size < SAMPLE_BYTES { size } else { SAMPLE_BYTES };
    (sample, 0, (size - sample) / 2, size - sample)
}

/// The eight little-endian bytes of a number.
pub open spec fn le_bytes(v: nat, n: nat) -> Seq<u8>
    decreases n,
{
    if n == 0 {
        Seq::empty()
    } else {
        seq![(v % 256) as u8] + le_bytes(v / 256, (n - 1) as nat)
    }
}

/// Appends the little-endian bytes of `v`.
pub fn push_le_u64(out: &mut Vec<u8>, v: u64)
    ensures
        final(out)@ == old(out)@ + le_bytes(v as nat, 8),
{
    let mut x: u64 = v;
    let mut i: usize = 0;
    while i < 8
        invariant
            i <= 8,
            out@ + le_bytes(x as nat, (8 - i) as nat) == old(out)@ + le_bytes(v as nat, 8),
        decreases 8 - i,
    {
        let ghost before = out@;
        out.push((x % 256) as u8);
        proof {
            assert(le_bytes(x as nat, (8 - i) as nat) == seq![(x % 256) as u8] + le_bytes((x / 256) as nat, (8 - i - 1) as nat));
            assert(before + le_bytes(x as nat, (8 - i) as nat) =~= out@ + le_bytes((x / 256) as nat, (8 - i - 1) as nat));
        }
        x = x / 256;
        i = i + 1;
    }
}

/// Appends the little-endian bytes of a 128-bit value.
pub fn push_le_u128(out: &mut Vec<u8>, v: u128)
    ensures
        final(out)@ == old(out)@ + le_bytes(v as nat, 16),
{
    let mut x: u128 = v;
    let mut i: usize = 0;
    while i < 16
        invariant
            i <= 16,
            out@ + le_bytes(x as nat, (16 - i) as nat) == old(out)@ + le_bytes(v as nat, 16),
        decreases 16 - i,
    {
        let ghost before = out@;
        out.push((x % 256) as u8);
        proof {
            assert(le_bytes(x as nat, (16 - i) as nat) == seq![(x % 256) as u8] + le_bytes((x / 256) as nat, (16 - i - 1) as nat));
            assert(before + le_bytes(x as nat, (16 - i) as nat) =~= out@ + le_bytes((x / 256) as nat, (16 - i - 1) as nat));
        }
        x = x / 256;
        i = i + 1;
    }
}

/// The bytes a sampled hash digests: the file size, then each sample's offset and bytes.
pub open spec fn sampled_input(size: u64, samples: Seq<(u64, Vec<u8>)>) -> Seq<u8>
    decreases samples.len(),
{
    if samples.len() == 0 {
        le_bytes(size as nat, 8)
    } else {
        sampled_input(size, samples.drop_last()) + le_bytes(samples.last().0 as nat, 8) + samples.last().1@
    }
}

proof fn lemma_le_bytes_len(v: nat, n: nat)
    ensures
        le_bytes(v, n).len() == n,
    decreases n,
{
    if n > 0 {
        lemma_le_bytes_len(v / 256, (n - 1) as nat);
    }
}

/// Where sample `k` starts in the bytes a sampled hash digests: after the 8 size bytes and,
/// for each earlier sample, its 8 offset bytes and its bytes.
pub open spec fn sample_start(samples: Seq<(u64, Vec<u8>)>, k: int) -> int
    decreases k,
{
    if k <= 0 {
        8
    } else {
        sample_start(samples, k - 1) + 8 + samples[k - 1].1@.len()
    }
}

/// The bytes a sampled hash digests hold the file size, then for each sample its offset
/// and every one of its bytes, in order, and nothing else: two samplings that differ in
/// any sample's bytes digest different inputs.
pub proof fn lemma_sampled_input_layout(size: u64, samples: Seq<(u64, Vec<u8>)>)
    ensures
        sampled_input(size, samples).len() == sample_start(samples, samples.len() as int),
        sampled_input(size, samples).subrange(0, 8) == le_bytes(size as nat, 8),
        forall|k: int| 0 <= k < samples.len() ==> {
            let at = #[trigger] sample_start(samples, k);
            &&& sampled_input(size, samples).subrange(at, at + 8) == le_bytes(samples[k].0 as nat, 8)
            &&& sampled_input(size, samples).subrange(at + 8, at + 8 + samples[k].1@.len()) == samples[k].1@
        },
    decreases samples.len(),
{
    lemma_le_bytes_len(size as nat, 8);
    if samples.len() > 0 {
        let d = samples.drop_last();
        let n = samples.len() - 1;
        lemma_sampled_input_layout(size, d);
        lemma_le_bytes_len(samples.last().0 as nat, 8);
        let prev = sampled_input(size, d);
        let all = sampled_input(size, samples);
        assert forall|k: int| 0 <= k <= n implies #[trigger] sample_start(samples, k) == sample_start(d, k) by {
            lemma_sample_start_prefix(samples, d, k);
        }
        assert(all == prev + le_bytes(samples.last().0 as nat, 8) + samples.last().1@);
        lemma_sample_start_floor(d, d.len() as int);
        assert(prev.len() >= 8);
        lemma_sample_start_prefix(samples, d, n as int);
        assert(sample_start(samples, n as int) == prev.len());
        assert(all.subrange(0, 8) =~= prev.subrange(0, 8));
        assert forall|k: int| 0 <= k < samples.len() implies {
            let at = #[trigger] sample_start(samples, k);
            &&& all.subrange(at, at + 8) == le_bytes(samples[k].0 as nat, 8)
            &&& all.subrange(at + 8, at + 8 + samples[k].1@.len()) == samples[k].1@
        } by {
            let at = sample_start(samples, k);
            if k < n {
                assert(d[k] == samples[k]);
                assert(sample_start(d, k) == at);
                lemma_sample_start_within(d, k);
                assert(at + 8 + d[k].1@.len() <= prev.len());
                assert(all.subrange(at, at + 8) =~= prev.subrange(at, at + 8));
                assert(all.subrange(at + 8, at + 8 + samples[k].1@.len()) =~= prev.subrange(at + 8, at + 8 + samples[k].1@.len()));
            } else {
                assert(at == prev.len());
                assert(all.subrange(at, at + 8) =~= le_bytes(samples[k].0 as nat, 8));
                assert(all.subrange(at + 8, at + 8 + samples[k].1@.len()) =~= samples[k].1@);
            }
        }
    }
}

proof fn lemma_sample_start_prefix(samples: Seq<(u64, Vec<u8>)>, d: Seq<(u64, Vec<u8>)>, k: int)
    requires
        samples.len() > 0,
        d == samples.drop_last(),
        0 <= k <= d.len(),
    ensures
        sample_start(samples, k) == sample_start(d, k),
    decreases k,
{
    if k > 0 {
        lemma_sample_start_prefix(samples, d, k - 1);
        assert(samples.drop_last()[k - 1] == samples[k - 1]);
    }
}

proof fn lemma_sample_start_within(samples: Seq<(u64, Vec<u8>)>, k: int)
    requires
        0 <= k < samples.len(),
    ensures
        8 <= sample_start(samples, k),
        sample_start(samples, k) + 8 + samples[k].1@.len() <= sample_start(samples, samples.len() as int),
    decreases samples.len() - k,
{
    lemma_sample_start_floor(samples, k);
    if k + 1 < samples.len() {
        lemma_sample_start_within(samples, k + 1);
    }
}

proof fn lemma_sample_start_floor(samples: Seq<(u64, Vec<u8>)>, k: int)
    ensures
        8 <= sample_start(samples, k),
    decreases k,
{
    if k > 0 {
        lemma_sample_start_floor(samples, k - 1);
    }
}

/// The digest of a sampled version, given the samples read at the sample offsets.
pub fn sampled_hash(size: u64, samples: &Vec<(u64, Vec<u8>)>) -> (h: String)
    ensures
        h@ == "sha256:"@ + spec_sha256_hex(sampled_input(size, samples@)),
{
    let mut bytes: Vec<u8> = Vec::new();
    push_le_u64(&mut bytes, size);
    assert(bytes@ =~= le_bytes(size as nat, 8));
    let mut i: usize = 0;
    while i < samples.len()
        invariant
            i <= samples@.len(),
            bytes@ == sampled_input(size, samples@.subrange(0, i as int)),
        decreases samples.len() - i,
    {
        let ghost p = samples@.subrange(0, i + 1);
        assert(p.drop_last() =~= samples@.subrange(0, i as int));
        push_le_u64(&mut bytes, samples[i].0);
        let data = &samples[i].1;
        let ghost start = bytes@;
        let mut j: usize = 0;
        while j < data.len()
            invariant
                j <= data@.len(),
                bytes@ == start + data@.subrange(0, j as int),
            decreases data.len() - j,
        {
            bytes.push(data[j]);
            j = j + 1;
            assert(data@.subrange(0, j as int) =~= data@.subrange(0, j - 1).push(data@[j - 1]));
        }
        assert(data@.subrange(0, data@.len() as int) =~= data@);
        assert(bytes@ =~= sampled_input(size, p));
        i = i + 1;
    }
    assert(samples@.subrange(0, samples@.len() as int) =~= samples@);
    let hex = sha256_hex(bytes.as_slice());
    concat_str("sha256:", hex.as_str())
}

/// The digest of a content version.
pub fn content_hash(contents: &[u8]) -> (h: String)
    ensures
        h@ == "sha256:"@ + spec_sha256_hex(contents@),
{
    let hex = sha256_hex(contents);
    concat_str("sha256:", hex.as_str())
}

/// The fingerprint of an entry's identity (its device and inode numbers).
pub fn fingerprint_identity(device: u64, inode: u64) -> (h: String)
    ensures
        h@ == "sha256:"@ + spec_sha256_hex(le_bytes(device as nat, 8) + le_bytes(inode as nat, 8)),
{
    let mut bytes: Vec<u8> = Vec::new();
    push_le_u64(&mut bytes, device);
    push_le_u64(&mut bytes, inode);
    assert(bytes@ =~= le_bytes(device as nat, 8) + le_bytes(inode as nat, 8));
    let hex = sha256_hex(bytes.as_slice());
    concat_str("sha256:", hex.as_str())
}

/// The fingerprint of a path inside a root: the root and the path relative to it.
pub fn fingerprint_path(root: &str, relative: &str) -> (h: String)
    ensures
        h@ == "sha256:"@ + spec_sha256_hex(encode_utf8(root@) + seq![0u8] + encode_utf8(relative@)),
{
    let mut bytes: Vec<u8> = Vec::new();
    let a = root.as_bytes();
    let b = relative.as_bytes();
    let mut i: usize = 0;
    while i < a.len()
        invariant
            i <= a@.len(),
            bytes@ == a@.subrange(0, i as int),
        decreases a.len() - i,
    {
        bytes.push(a[i]);
        i = i + 1;
    }
    bytes.push(0u8);
    let ghost mid = bytes@;
    let mut j: usize = 0;
    while j < b.len()
        invariant
            j <= b@.len(),
            bytes@ == mid + b@.subrange(0, j as int),
        decreases b.len() - j,
    {
        bytes.push(b[j]);
        j = j + 1;
        assert(b@.subrange(0, j as int) =~= b@.subrange(0, j - 1).push(b@[j - 1]));
    }
    assert(a@.subrange(0, a@.len() as int) =~= a@);
    assert(b@.subrange(0, b@.len() as int) =~= b@);
    assert(bytes@ =~= encode_utf8(root@) + seq![0u8] + encode_utf8(relative@));
    let hex = sha256_hex(bytes.as_slice());
    concat_str("sha256:", hex.as_str())
}

/// The fields of a text separated by `:` (as `str::split(':')` yields them).
pub open spec fn colon_fields(t: Seq<char>) -> Seq<Seq<char>>
    decreases t.len(),
{
    if t.len() == 0 {
        seq![Seq::<char>::empty()]
    } else {
        let f = colon_fields(t.drop_last());
        if t.last() == ':' {
            f.push(Seq::<char>::empty())
        } else {
            f.update(f.len() - 1, f.last().push(t.last()))
        }
    }
}

proof fn lemma_colon_fields_nonempty(t: Seq<char>)
    ensures
        colon_fields(t).len() >= 1,
    decreases t.len(),
{
    if t.len() > 0 {
        lemma_colon_fields_nonempty(t.drop_last());
    }
}

/// Appending text without `:` extends the last field.
proof fn lemma_colon_fields_extend(t: Seq<char>, s: Seq<char>)
    requires
        forall|i: int| 0 <= i < s.len() ==> s[i] != ':',
    ensures
        colon_fields(t + s) == colon_fields(t).update(colon_fields(t).len() - 1, colon_fields(t).last() + s),
    decreases s.len(),
{
    lemma_colon_fields_nonempty(t);
    if s.len() == 0 {
        assert(t + s =~= t);
        assert(colon_fields(t).last() + s =~= colon_fields(t).last());
        assert(colon_fields(t).update(colon_fields(t).len() - 1, colon_fields(t).last()) =~= colon_fields(t));
    } else {
        let s0 = s.drop_last();
        lemma_colon_fields_extend(t, s0);
        assert((t + s).drop_last() =~= t + s0);
        assert((t + s).last() == s.last());
        let f = colon_fields(t);
        assert(f.last() + s =~= (f.last() + s0).push(s.last()));
        assert(colon_fields(t + s) =~= f.update(f.len() - 1, f.last() + s));
    }
}

/// Appending `:` starts a new field.
proof fn lemma_colon_fields_split(t: Seq<char>)
    ensures
        colon_fields(t + seq![':']) == colon_fields(t).push(Seq::<char>::empty()),
{
    assert((t + seq![':']).drop_last() =~= t);
}

/// Text without `:`.
pub open spec fn no_colon(s: Seq<char>) -> bool {
    forall|i: int| 0 <= i < s.len() ==> s[i] != ':'
}

/// The payload part of a token for `payload`.
pub open spec fn token_payload(payload: Seq<u8>) -> Seq<char> {
    spec_base64url_encode(payload)
}

/// The signature part of a token whose payload part is `encoded`.
pub open spec fn token_signature(key: Seq<u8>, encoded: Seq<char>) -> Seq<char> {
    spec_base64url_encode(spec_hmac_sha256(key, encode_utf8(encoded)))
}

/// The token of `payload` under `key`: `v1:<payload>:<signature>`, both parts in
/// unpadded URL-safe Base64, the signature an HMAC-SHA-256 of the payload part.
pub open spec fn token_of(key: Seq<u8>, payload: Seq<u8>) -> Seq<char> {
    "v1:"@ + token_payload(payload) + ":"@ + token_signature(key, token_payload(payload))
}

/// What a token carries, if it is well formed and authentic under `key`.
pub open spec fn token_contents(key: Seq<u8>, token: Seq<char>) -> Option<Seq<u8>> {
    let f = colon_fields(token);
    if f[0] != "v1"@ || f.len() != 3 {
        None
    } else {
        match spec_base64url_decode(f[2]) {
            None => None,
            Some(sig) => if sig != spec_hmac_sha256(key, encode_utf8(f[1])) {
                None
            } else {
                spec_base64url_decode(f[1])
            },
        }
    }
}

/// `t` is the token `encode_token` made of `payload` under `key`.
pub open spec fn is_token_of(key: Seq<u8>, payload: Seq<u8>, t: Seq<char>) -> bool {
    &&& t == token_of(key, payload)
    &&& no_colon(token_payload(payload))
    &&& no_colon(token_signature(key, token_payload(payload)))
}

/// `r` is what `decode_token` gives for `token` under `key`.
pub open spec fn token_decoded(key: Seq<u8>, token: Seq<char>, r: RuntimeResult<Vec<u8>>) -> bool {
    &&& match token_contents(key, token) {
        Some(b) => r matches Ok(v) && v@ == b,
        None => r matches Err(e) && e.code@ == "versionUnsupported"@,
    }
    &&& forall|p: Seq<u8>| #[trigger] is_token_of(key, p, token) ==> (r matches Ok(v) && v@ == p)
}

proof fn lemma_token_fields(key: Seq<u8>, payload: Seq<u8>)
    requires
        no_colon(token_payload(payload)),
        no_colon(token_signature(key, token_payload(payload))),
    ensures
        colon_fields(token_of(key, payload)) == seq!["v1"@, token_payload(payload), token_signature(key, token_payload(payload))],
{
    let e = token_payload(payload);
    let s = token_signature(key, e);
    reveal_strlit("v1:");
    reveal_strlit(":");
    reveal_strlit("v1");
    let v1 = "v1"@;
    assert(forall|i: int| 0 <= i < v1.len() ==> v1[i] != ':');
    lemma_colon_fields_extend(Seq::<char>::empty(), v1);
    assert(Seq::<char>::empty() + v1 =~= v1);
    assert(colon_fields(v1) =~= seq![v1]);
    lemma_colon_fields_split(v1);
    let a = v1 + seq![':'];
    lemma_colon_fields_extend(a, e);
    assert(colon_fields(a + e) =~= seq![v1, e]);
    lemma_colon_fields_split(a + e);
    let b = a + e + seq![':'];
    lemma_colon_fields_extend(b, s);
    assert(colon_fields(b + s) =~= seq![v1, e, s]);
    assert(token_of(key, payload) =~= b + s);
}

fn fields_of(token: &str) -> (r: Vec<Vec<char>>)
    ensures
        r@.len() == colon_fields(token@).len(),
        forall|i: int| 0 <= i < r@.len() ==> (#[trigger] r@[i])@ == colon_fields(token@)[i],
{
    let chars = chars_of(token);
    let mut fields: Vec<Vec<char>> = Vec::new();
    fields.push(Vec::new());
    let mut i: usize = 0;
    while i < chars.len()
        invariant
            chars@ == token@,
            i <= chars@.len(),
            fields@.len() == colon_fields(chars@.subrange(0, i as int)).len(),
            forall|k: int| 0 <= k < fields@.len() ==> (#[trigger] fields@[k])@ == colon_fields(chars@.subrange(0, i as int))[k],
        decreases chars.len() - i,
    {
        let ghost p = chars@.subrange(0, i + 1);
        assert(p.drop_last() =~= chars@.subrange(0, i as int));
        proof {
            lemma_colon_fields_nonempty(chars@.subrange(0, i as int));
        }
        if chars[i] == ':' {
            fields.push(Vec::new());
        } else {
            let last = fields.len() - 1;
            let mut field = fields.remove(last);
            field.push(chars[i]);
            fields.push(field);
        }
        i = i + 1;
    }
    assert(chars@.subrange(0, chars@.len() as int) =~= chars@);
    fields
}

fn version_error(message: &str) -> (e: RuntimeError)
    ensures
        e.code@ == "versionUnsupported"@,
{
    RuntimeError::new("versionUnsupported", message)
}

/// Signs an encoded version: the token that `decode_token` accepts under the same key
/// and only under it.
pub fn encode_token(key: &[u8], payload: &[u8]) -> (t: String)
    requires
        payload@.len() <= usize::MAX / 2,
    ensures
        is_token_of(key@, payload@, t@),
{
    let encoded = encode_base64url(payload);
    let mac = hmac_sha256(key, encoded.as_str().as_bytes());
    let signature = encode_base64url(mac.as_slice());
    let mut v: Vec<char> = Vec::new();
    extend_str(&mut v, "v1:");
    extend_str(&mut v, encoded.as_str());
    extend_str(&mut v, ":");
    extend_str(&mut v, signature.as_str());
    let token = string_from_chars(v.as_slice());
    proof {
        assert(token@ =~= token_of(key@, payload@));
        assert forall|i: int| 0 <= i < encoded@.len() implies encoded@[i] != ':' by {
            assert(url_safe_char(encoded@[i]));
        }
        assert forall|i: int| 0 <= i < signature@.len() implies signature@[i] != ':' by {
            assert(url_safe_char(signature@[i]));
        }
    }
    token
}

/// Checks a token's form and signature under `key` and returns the encoded version it
/// carries. Every failure is `versionUnsupported`.
pub fn decode_token(key: &[u8], token: &str) -> (r: RuntimeResult<Vec<u8>>)
    ensures
        token_decoded(key@, token@, r),
{
    let fields = fields_of(token);
    let ghost f = colon_fields(token@);
    proof {
        lemma_colon_fields_nonempty(token@);
        assert forall|p: Seq<u8>| #[trigger] is_token_of(key@, p, token@) implies f == seq!["v1"@, token_payload(p), token_signature(key@, token_payload(p))] by {
            lemma_token_fields(key@, p);
        }
    }
    assert(fields@[0]@ == f[0]);
    if !eq_str(fields[0].as_slice(), "v1") || fields.len() > 3 {
        return Err(version_error("unsupported version token"));
    }
    if fields.len() < 3 {
        return Err(version_error("malformed version token"));
    }
    assert(fields@[1]@ == f[1]);
    assert(fields@[2]@ == f[2]);
    let payload = string_from_chars(fields[1].as_slice());
    let signature_text = string_from_chars(fields[2].as_slice());
    let signature = match decode_base64url(signature_text.as_str()) {
        Some(s) => s,
        None => return Err(version_error("malformed version signature")),
    };
    if !hmac_sha256_verify(key, payload.as_str().as_bytes(), signature.as_slice()) {
        return Err(version_error("version token authentication failed"));
    }
    let bytes = match decode_base64url(payload.as_str()) {
        Some(b) => b,
        None => return Err(version_error("malformed version payload")),
    };
    Ok(bytes)
}

/// A version token round-trips: decoding what `encode_token` signed under the same key
/// gives back exactly the signed payload.
pub proof fn lemma_token_round_trip(key: Seq<u8>, payload: Seq<u8>, token: Seq<char>, r: RuntimeResult<Vec<u8>>)
    requires
        is_token_of(key, payload, token),
        token_decoded(key, token, r),
    ensures
        r matches Ok(v) && v@ == payload,
{
}

/// Accepts only versions of the current schema.
pub fn check_schema(version: &FileVersion) -> (r: RuntimeResult<()>)
    ensures
        r is Ok <==> version.schema == TOKEN_VERSION,
        r matches Err(e) ==> e.code@ == "versionUnsupported"@,
{
    if version.schema != TOKEN_VERSION {
        return Err(version_error("unsupported version schema"));
    }
    Ok(())
}

pub open spec fn version_view(v: FileVersion) -> (u8, Seq<char>, Seq<char>, Seq<char>, u64, Option<u64>, Option<u64>, VersionStrength, Option<Seq<char>>) {
    (v.schema, v.path_fingerprint@, v.identity_fingerprint@, v.entry_type@, v.size_bytes, v.modified_at_ns, v.changed_at_ns, v.strength, opt_view(v.content_hash))
}

/// Compares a freshly captured version with the one a mutation expects: another path or
/// scope and any other change are `versionMismatch`; another entry at the same path is
/// `targetReplaced`.
pub fn compare_versions(current: &FileVersion, expected: &FileVersion) -> (r: RuntimeResult<()>)
    ensures
        current.path_fingerprint@ != expected.path_fingerprint@ ==> (r matches Err(e) && e.code@ == "versionMismatch"@),
        current.path_fingerprint@ == expected.path_fingerprint@ && current.identity_fingerprint@ != expected.identity_fingerprint@
            ==> (r matches Err(e) && e.code@ == "targetReplaced"@),
        current.path_fingerprint@ == expected.path_fingerprint@ && current.identity_fingerprint@ == expected.identity_fingerprint@
            ==> (if version_view(*current) == version_view(*expected) { r is Ok } else { r matches Err(e) && e.code@ == "versionMismatch"@ }),
{
    if !str_eq(current.path_fingerprint.as_str(), expected.path_fingerprint.as_str()) {
        return Err(RuntimeError::new("versionMismatch", "version token belongs to a different path or scope"));
    }
    if !str_eq(current.identity_fingerprint.as_str(), expected.identity_fingerprint.as_str()) {
        return Err(RuntimeError::new("targetReplaced", "path now refers to a different filesystem entry"));
    }
    let same_hash = crate::context::opt_eq(&current.content_hash, &expected.content_hash);
    if current.schema != expected.schema || !str_eq(current.entry_type.as_str(), expected.entry_type.as_str())
        || current.size_bytes != expected.size_bytes || current.modified_at_ns != expected.modified_at_ns
        || current.changed_at_ns != expected.changed_at_ns || current.strength != expected.strength || !same_hash {
        return Err(RuntimeError::new("versionMismatch", "filesystem entry changed since the version token was captured"));
    }
    Ok(())
}

/// What a mutation's expected version check fails with, given the version of the target
/// now (`None` when the target no longer exists).
pub open spec fn expected_version_error(expected: FileVersion, current: Option<FileVersion>) -> Option<Seq<char>> {
    match current {
        None => Some("targetMissing"@),
        Some(c) => if c.path_fingerprint@ != expected.path_fingerprint@ {
            Some("versionMismatch"@)
        } else if c.identity_fingerprint@ != expected.identity_fingerprint@ {
            Some("targetReplaced"@)
        } else if version_view(c) != version_view(expected) {
            Some("versionMismatch"@)
        } else {
            None
        },
    }
}

/// Checks the version a mutation expects (decoded from its token) against the target's
/// current version, captured with the expected strength; a missing target is
/// `targetMissing`.
pub fn verify_expected_version(expected: &FileVersion, current: Option<&FileVersion>) -> (r: RuntimeResult<()>)
    ensures
        match expected_version_error(*expected, match current { Some(c) => Some(*c), None => None }) {
            None => r is Ok,
            Some(code) => r matches Err(e) && e.code@ == code,
        },
{
    match current {
        None => Err(RuntimeError::new("targetMissing", "versioned target no longer exists")),
        Some(c) => compare_versions(c, expected),
    }
}

/// The version of an entry captured from `snapshot`.
pub fn version_of(snapshot: &Snapshot, path_fingerprint: String, strength: VersionStrength, content_hash: Option<String>) -> (v: FileVersion)
    ensures
        v.schema == TOKEN_VERSION,
        v.path_fingerprint == path_fingerprint,
        v.identity_fingerprint@ == snapshot.identity_fingerprint@,
        v.entry_type@ == snapshot.entry_type@,
        v.size_bytes == snapshot.size_bytes,
        v.modified_at_ns == snapshot.modified_at_ns,
        v.changed_at_ns == snapshot.changed_at_ns,
        v.strength == strength,
        v.content_hash == content_hash,
{
    FileVersion {
        schema: TOKEN_VERSION,
        path_fingerprint,
        identity_fingerprint: snapshot.identity_fingerprint.clone(),
        entry_type: snapshot.entry_type.clone(),
        size_bytes: snapshot.size_bytes,
        modified_at_ns: snapshot.modified_at_ns,
        changed_at_ns: snapshot.changed_at_ns,
        strength,
        content_hash,
    }
}

} // verus!
