//! Content-integrity verification: a digest over a byte sequence, and a
//! comparison against the reference value the storage service attached to
//! the object at listing time. Reference values often arrive wrapped in
//! decorative quote characters, so comparison goes through an explicit
//! normalization step.

use vstd::prelude::*;
use vstd::string::StrSliceExecFns;
use md5::Digest;
use md5::Md5;
use base64::Engine;

verus! {

/// The 16-byte MD5 digest of a byte sequence, as the `md-5` crate computes
/// it. The digest is a function of the bytes alone.
pub uninterp spec fn md5_of(bytes: Seq<u8>) -> Seq<u8>;

/// The padded, standard-alphabet base64 rendering of a byte sequence, as
/// the `base64` crate's `STANDARD` engine produces it. The rendering is a
/// function of the bytes alone.
pub uninterp spec fn base64_of(bytes: Seq<u8>) -> Seq<char>;

/// The content digest this library uses for integrity checks: the base64
/// rendering of the MD5 hash of the content bytes.
pub open spec fn digest_of(bytes: Seq<u8>) -> Seq<char> {
    base64_of(md5_of(bytes))
}

/// Relies on the `md-5` crate: `Md5::digest` returns the 16-byte MD5 hash
/// of its input, a function of the input bytes alone.
#[verifier::external_body]
fn md5_digest(bytes: &Vec<u8>) -> (r: Vec<u8>)
    ensures
        r@ == md5_of(bytes@),
        r@.len() == 16,
{
    Md5::digest(bytes.as_slice()).to_vec()
}

/// Relies on the `base64` crate: `Engine::encode` with the `STANDARD`
/// engine returns the padded base64 rendering of its input — four output
/// characters for every started group of three input bytes — a function of
/// the input bytes alone. It panics when the output length overflows, so
/// inputs that long are excluded.
#[verifier::external_body]
fn base64_encode(bytes: &Vec<u8>) -> (r: String)
    requires
        4 * ((bytes@.len() + 2) / 3) <= usize::MAX,
    ensures
        r@ == base64_of(bytes@),
        r@.len() == 4 * ((bytes@.len() + 2) / 3),
{
    base64::engine::general_purpose::STANDARD.encode(bytes.as_slice())
}

/// The digest of a byte sequence, rendered as text: the base64 form of
/// the 16 hash bytes, 24 characters long.
pub fn calculate_md5(bytes: &Vec<u8>) -> (r: String)
    ensures
        r@ == digest_of(bytes@),
        r@.len() == 24,
{
    let hash = md5_digest(bytes);
    base64_encode(&hash)
}

/// Digest determinism: equal byte contents always yield the same digest,
/// however often and from wherever the bytes were read.
pub proof fn lemma_digest_deterministic(b1: Seq<u8>, b2: Seq<u8>)
    requires
        b1 == b2,
    ensures
        digest_of(b1) == digest_of(b2),
{
}

/// A reference value with all leading quote characters removed.
pub open spec fn trim_leading_quotes(s: Seq<char>) -> Seq<char>
    decreases s.len(),
{
    if s.len() > 0 && s[0] == '"' {
        trim_leading_quotes(s.drop_first())
    } else {
        s
    }
}

/// A reference value with all trailing quote characters removed.
pub open spec fn trim_trailing_quotes(s: Seq<char>) -> Seq<char>
    decreases s.len(),
{
    if s.len() > 0 && s[s.len() - 1] == '"' {
        trim_trailing_quotes(s.drop_last())
    } else {
        s
    }
}

/// The canonical form of a reference value: the value with the decorative
/// quote characters the storage service wraps around it stripped from both
/// ends.
pub open spec fn normalized_reference(s: Seq<char>) -> Seq<char> {
    trim_trailing_quotes(trim_leading_quotes(s))
}

proof fn lemma_trim_leading_at(s: Seq<char>, i: int)
    requires
        0 <= i <= s.len(),
        forall|j: int| 0 <= j < i ==> s[j] == '"',
        i == s.len() || s[i] != '"',
    ensures
        trim_leading_quotes(s) == s.subrange(i, s.len() as int),
    decreases i,
{
    if i == 0 {
        assert(s.subrange(0, s.len() as int) =~= s);
    } else {
        assert(s[0] == '"');
        lemma_trim_leading_at(s.drop_first(), i - 1);
        assert(s.drop_first().subrange(i - 1, s.drop_first().len() as int) =~= s.subrange(
            i,
            s.len() as int,
        ));
    }
}

proof fn lemma_trim_trailing_at(s: Seq<char>, i: int)
    requires
        0 <= i <= s.len(),
        forall|j: int| i <= j < s.len() ==> s[j] == '"',
        i == 0 || s[i - 1] != '"',
    ensures
        trim_trailing_quotes(s) == s.subrange(0, i),
    decreases s.len(),
{
    if i == s.len() {
        assert(s.subrange(0, i) =~= s);
    } else {
        assert(s[s.len() - 1] == '"');
        lemma_trim_trailing_at(s.drop_last(), i);
        assert(s.drop_last().subrange(0, i) =~= s.subrange(0, i));
    }
}

/// Strips decorative quote characters from both ends of a reference value.
pub fn normalize_reference(s: &String) -> (r: String)
    ensures
        r@ == normalized_reference(s@),
{
    let sl: &str = s.as_str();
    let n: usize = sl.unicode_len();
    let mut lo: usize = 0;
    while lo < n && sl.get_char(lo) == '"'
        invariant
            lo <= n,
            n == s@.len(),
            sl@ == s@,
            forall|j: int| 0 <= j < lo ==> s@[j] == '"',
        decreases n - lo,
    {
        lo = lo + 1;
    }
    let mut hi: usize = n;
    while hi > lo && sl.get_char(hi - 1) == '"'
        invariant
            lo <= hi <= n,
            n == s@.len(),
            sl@ == s@,
            forall|j: int| hi <= j < n ==> s@[j] == '"',
        decreases hi,
    {
        hi = hi - 1;
    }
    let out: &str = sl.substring_char(lo, hi);
    proof {
        lemma_trim_leading_at(s@, lo as int);
        lemma_trim_trailing_at(s@.subrange(lo as int, n as int), hi - lo);
        assert(s@.subrange(lo as int, n as int).subrange(0, hi - lo) =~= s@.subrange(
            lo as int,
            hi as int,
        ));
    }
    out.to_owned()
}

/// Whether a computed digest agrees with a reference value, once the
/// reference value is brought to its canonical form.
pub fn digest_matches(digest: &String, reference_value: &String) -> (r: bool)
    ensures
        r == (digest@ == normalized_reference(reference_value@)),
{
    let normalized = normalize_reference(reference_value);
    digest.eq(&normalized)
}

} // verus!
