//! Resolution of a single object's transfer attempt. The surrounding
//! program issues the conditional retrieval and hands back what the service
//! answered — either the full body, materialized in a private temporary
//! file, or a refusal message. This module decides what that answer means:
//! unchanged, verified, mismatched, or a per-object transfer error.

use vstd::prelude::*;
use vstd::string::StrSliceExecFns;
use vstd::string::StringExecFns;
use crate::digest::calculate_md5;
use crate::digest::digest_matches;
use crate::digest::digest_of;
use crate::digest::normalized_reference;

verus! {

/// One remote object as the listing reported it: its key and the opaque
/// content fingerprint the service attached to it.
pub struct RemoteObjectDescriptor {
    pub key: String,
    pub reference_value: String,
}

/// What the service answered to a conditional retrieval, reduced to plain
/// values: either the full body arrived and was spooled into a private
/// temporary file, or the service refused with a message.
pub enum FetchEvent {
    Delivered { bytes: Vec<u8>, temp_path: String },
    Refused { message: String },
}

/// The three resolutions of one object's transfer attempt. `Unchanged`
/// means the service reported no modification and no bytes moved.
/// `Verified` carries the stable local path of a copy whose digest agrees
/// with the reference value. `Mismatched` carries the temporary path of a
/// copy that is kept but must not be trusted.
pub enum TransferOutcome {
    Unchanged,
    Verified(String),
    Mismatched(String),
}

/// A per-object transfer failure: the object is skipped, the run goes on.
pub enum TransferError {
    InvalidKey,
    Service(String),
}

/// The text by which the service signals that the object is unchanged
/// relative to the offered reference value.
pub open spec fn not_modified_marker() -> Seq<char> {
    "304 Not Modified"@
}

/// Whether `needle` occurs contiguously inside `hay`.
pub open spec fn contains_seq(hay: Seq<char>, needle: Seq<char>) -> bool {
    exists|i: int|
        0 <= i && i + needle.len() <= hay.len() && #[trigger] hay.subrange(i, i + needle.len())
            == needle
}

/// Whether `marker` occurs in `sl` starting exactly at position `i`.
fn matches_at(sl: &str, marker: &str, i: usize) -> (r: bool)
    requires
        i + marker@.len() <= sl@.len(),
        sl@.len() <= usize::MAX,
    ensures
        r == (sl@.subrange(i as int, i + marker@.len()) == marker@),
{
    let m: usize = marker.unicode_len();
    let mut j: usize = 0;
    while j < m
        invariant
            m == marker@.len(),
            i + m <= sl@.len() <= usize::MAX,
            j <= m,
            forall|k: int| 0 <= k < j ==> sl@[i + k] == marker@[k],
        decreases m - j,
    {
        if sl.get_char(i + j) != marker.get_char(j) {
            proof {
                let sub = sl@.subrange(i as int, i + marker@.len());
                assert(sub[j as int] == sl@[i + j]);
            }
            return false;
        }
        j = j + 1;
    }
    proof {
        assert(sl@.subrange(i as int, i + marker@.len()) =~= marker@);
    }
    true
}

/// Whether a service refusal message is the "unchanged" signal.
pub fn is_not_modified(message: &String) -> (r: bool)
    ensures
        r == contains_seq(message@, not_modified_marker()),
{
    let marker: &str = "304 Not Modified";
    proof {
        reveal_strlit("304 Not Modified");
    }
    let m: usize = marker.unicode_len();
    let sl: &str = message.as_str();
    let n: usize = sl.unicode_len();
    if n < m {
        return false;
    }
    let mut i: usize = 0;
    while i <= n - m
        invariant
            m == not_modified_marker().len(),
            n == message@.len(),
            sl@ == message@,
            marker@ == not_modified_marker(),
            1 <= m <= n,
            i <= n - m + 1,
            forall|k: int|
                0 <= k < i ==> #[trigger] message@.subrange(k, k + not_modified_marker().len())
                    != not_modified_marker(),
        decreases n - m - i + 1,
    {
        if matches_at(sl, marker, i) {
            return true;
        }
        i = i + 1;
    }
    false
}

/// The longest suffix of a key that contains no separator. Empty when the
/// key is empty or ends in a separator.
pub open spec fn last_segment_of(key: Seq<char>) -> Seq<char>
    decreases key.len(),
{
    if key.len() == 0 || key[key.len() - 1] == '/' {
        Seq::empty()
    } else {
        last_segment_of(key.drop_last()).push(key[key.len() - 1])
    }
}

/// The object's base name, by the platform rule for a path's final
/// component: trailing separators are ignored, a final `.` segment is
/// dropped, and a key whose final segment is `..` — like an empty key or
/// one made of separators alone — has no base name (empty here).
pub open spec fn base_name_of(key: Seq<char>) -> Seq<char>
    decreases key.len(),
{
    if key.len() == 0 {
        Seq::empty()
    } else if key[key.len() - 1] == '/' {
        base_name_of(key.drop_last())
    } else if last_segment_of(key) == seq!['.'] {
        base_name_of(key.drop_last())
    } else if last_segment_of(key) == seq!['.', '.'] {
        Seq::empty()
    } else {
        last_segment_of(key)
    }
}

proof fn lemma_last_segment_at(s: Seq<char>, i: int)
    requires
        0 <= i <= s.len(),
        forall|j: int| i <= j < s.len() ==> s[j] != '/',
        i == 0 || s[i - 1] == '/',
    ensures
        last_segment_of(s) == s.subrange(i, s.len() as int),
    decreases s.len(),
{
    if i == s.len() {
        assert(s.subrange(i, s.len() as int) =~= Seq::<char>::empty());
    } else {
        assert(s[s.len() - 1] != '/');
        lemma_last_segment_at(s.drop_last(), i);
        assert(s.drop_last().subrange(i, s.drop_last().len() as int).push(s[s.len() - 1])
            =~= s.subrange(i, s.len() as int));
    }
}

/// The object's base name, or `None` when the key has none (it is empty,
/// is made of separators alone, or its final segment is `.` segments away
/// from one of those or is `..`).
pub fn base_name(key: &String) -> (r: Option<String>)
    ensures
        (r matches Some(name) ==> name@ == base_name_of(key@) && name@.len() > 0),
        (r is None <==> base_name_of(key@).len() == 0),
{
    let sl: &str = key.as_str();
    let n: usize = sl.unicode_len();
    let mut hi: usize = n;
    proof {
        assert(key@.take(n as int) =~= key@);
    }
    loop
        invariant
            hi <= n,
            n == key@.len(),
            sl@ == key@,
            base_name_of(key@) == base_name_of(key@.take(hi as int)),
        decreases hi,
    {
        let ghost hi_at_entry = hi;
        while hi > 0 && sl.get_char(hi - 1) == '/'
            invariant
                hi <= hi_at_entry,
                hi <= n,
                n == key@.len(),
                sl@ == key@,
                base_name_of(key@) == base_name_of(key@.take(hi as int)),
            decreases hi,
        {
            proof {
                assert(key@.take(hi as int).drop_last() =~= key@.take(hi - 1));
            }
            hi = hi - 1;
        }
        if hi == 0 {
            proof {
                assert(key@.take(0) =~= Seq::<char>::empty());
            }
            return None;
        }
        let mut lo: usize = hi;
        while lo > 0 && sl.get_char(lo - 1) != '/'
            invariant
                lo <= hi <= n,
                n == key@.len(),
                sl@ == key@,
                key@[hi - 1] != '/',
                forall|j: int| lo <= j < hi ==> key@[j] != '/',
            decreases lo,
        {
            lo = lo - 1;
        }
        proof {
            assert(lo < hi);
            lemma_last_segment_at(key@.take(hi as int), lo as int);
            assert(key@.take(hi as int).subrange(lo as int, hi as int) =~= key@.subrange(
                lo as int,
                hi as int,
            ));
        }
        let ghost t = last_segment_of(key@.take(hi as int));
        if hi - lo == 1 && sl.get_char(lo) == '.' {
            proof {
                assert(t =~= seq!['.']);
                assert(key@.take(hi as int).drop_last() =~= key@.take(hi - 1));
            }
            hi = hi - 1;
        } else if hi - lo == 2 && sl.get_char(lo) == '.' && sl.get_char(lo + 1) == '.' {
            proof {
                assert(t =~= seq!['.', '.']);
            }
            return None;
        } else {
            proof {
                assert(t.len() == hi - lo);
                if t == seq!['.'] {
                    assert(seq!['.'][0] == '.');
                    assert(key@[lo as int] == '.');
                    assert(false);
                }
                if t == seq!['.', '.'] {
                    assert(seq!['.', '.'][0] == '.' && seq!['.', '.'][1] == '.');
                    assert(key@[lo as int] == '.' && key@[lo + 1] == '.');
                    assert(false);
                }
                assert(base_name_of(key@.take(hi as int)) == t);
            }
            let out: &str = sl.substring_char(lo, hi);
            return Some(out.to_owned());
        }
    }
}

/// The stable path a verified copy is promoted to: the object's base name
/// under the scratch area.
pub open spec fn stable_path_of(scratch_dir: Seq<char>, key: Seq<char>) -> Seq<char> {
    scratch_dir + "/"@ + base_name_of(key)
}

/// Joins the scratch area and a base name with a separator.
fn join_path(dir: &String, name: &String) -> (r: String)
    ensures
        r@ == dir@ + "/"@ + name@,
{
    let a: String = dir.as_str().to_owned();
    let b: String = a.concat("/");
    b.concat(name.as_str())
}

/// Resolves one object's transfer attempt.
///
/// A refusal carrying the "unchanged" signal resolves to `Unchanged`; any
/// other refusal is a per-object `Service` error. A delivered body whose
/// digest agrees with the normalized reference value resolves to
/// `Verified` at the stable path derived from the key's base name — unless
/// the key has no base name, which is an `InvalidKey` error. A delivered
/// body whose digest disagrees resolves to `Mismatched` at the temporary
/// path it was spooled to.
pub fn resolve_transfer(
    desc: &RemoteObjectDescriptor,
    event: FetchEvent,
    scratch_dir: &String,
) -> (r: Result<TransferOutcome, TransferError>)
    ensures
        (event matches FetchEvent::Refused { message } ==> (if contains_seq(
            message@,
            not_modified_marker(),
        ) {
            r matches Ok(o) && o is Unchanged
        } else {
            r matches Err(e) && (e matches TransferError::Service(m) && m@ == message@)
        })),
        (event matches FetchEvent::Delivered { bytes, temp_path } ==> (if digest_of(bytes@)
            == normalized_reference(desc.reference_value@) {
            if base_name_of(desc.key@).len() > 0 {
                r matches Ok(o) && (o matches TransferOutcome::Verified(p) && p@ == stable_path_of(
                    scratch_dir@,
                    desc.key@,
                ))
            } else {
                r matches Err(e) && e is InvalidKey
            }
        } else {
            r matches Ok(o) && (o matches TransferOutcome::Mismatched(p) && p@ == temp_path@)
        })),
{
    match event {
        FetchEvent::Refused { message } => {
            if is_not_modified(&message) {
                Ok(TransferOutcome::Unchanged)
            } else {
                Err(TransferError::Service(message))
            }
        },
        FetchEvent::Delivered { bytes, temp_path } => {
            let digest = calculate_md5(&bytes);
            if digest_matches(&digest, &desc.reference_value) {
                match base_name(&desc.key) {
                    Some(name) => Ok(TransferOutcome::Verified(join_path(scratch_dir, &name))),
                    None => Err(TransferError::InvalidKey),
                }
            } else {
                Ok(TransferOutcome::Mismatched(temp_path))
            }
        },
    }
}

} // verus!
