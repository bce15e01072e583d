//! Extraction policy for one archive against a shared destination
//! directory. The surrounding program snapshots the destination's entry
//! names and enumerates the archive's entry names; this module decides,
//! all-or-nothing, whether the archive needs extracting: it does exactly
//! when some entry name is absent from the snapshot. Extraction itself —
//! and the worker pool the archives are distributed across — is the
//! surrounding program's work.

use vstd::prelude::*;

verus! {

/// Whether an archive needs extracting: some entry name is absent from
/// the destination snapshot.
pub open spec fn needs_extraction_spec(existing: Set<Seq<char>>, entries: Seq<Seq<char>>) -> bool {
    exists|i: int| 0 <= i < entries.len() && !existing.contains(#[trigger] entries[i])
}

/// The destination's entry-name set after one pass over an archive: when
/// the archive needs extracting, every entry is materialized; otherwise
/// the pass writes nothing at all.
pub open spec fn dir_after_pass(existing: Set<Seq<char>>, entries: Seq<Seq<char>>) -> Set<
    Seq<char>,
> {
    if needs_extraction_spec(existing, entries) {
        existing.union(entries.to_set())
    } else {
        existing
    }
}

/// Whether `target` occurs among `names`.
fn contains_name(names: &Vec<String>, target: &String) -> (r: bool)
    ensures
        r == names.deep_view().contains(target@),
{
    let n: usize = names.len();
    let mut i: usize = 0;
    while i < n
        invariant
            i <= n,
            n == names.len(),
            forall|j: int| 0 <= j < i ==> names.deep_view()[j] != target@,
        decreases n - i,
    {
        if names[i].eq(target) {
            assert(names.deep_view()[i as int] == target@);
            return true;
        }
        i = i + 1;
    }
    assert(forall|j: int| 0 <= j < names.deep_view().len() ==> names.deep_view()[j] != target@);
    false
}

/// Decides whether an archive needs extracting, given the snapshot of the
/// destination's entry names and the archive's entry names.
pub fn needs_extraction(existing: &Vec<String>, entries: &Vec<String>) -> (r: bool)
    ensures
        r == needs_extraction_spec(existing.deep_view().to_set(), entries.deep_view()),
{
    let n: usize = entries.len();
    let mut i: usize = 0;
    while i < n
        invariant
            i <= n,
            n == entries.len(),
            forall|j: int|
                0 <= j < i ==> existing.deep_view().to_set().contains(
                    #[trigger] entries.deep_view()[j],
                ),
        decreases n - i,
    {
        if !contains_name(existing, &entries[i]) {
            proof {
                assert(!existing.deep_view().to_set().contains(entries.deep_view()[i as int]));
            }
            return true;
        }
        i = i + 1;
    }
    false
}

/// Skip-all-or-nothing: when the destination already holds every entry
/// name of the archive, the pass decides to skip and writes nothing.
pub proof fn lemma_skip_when_all_present(existing: Set<Seq<char>>, entries: Seq<Seq<char>>)
    requires
        forall|i: int| 0 <= i < entries.len() ==> existing.contains(#[trigger] entries[i]),
    ensures
        !needs_extraction_spec(existing, entries),
        dir_after_pass(existing, entries) == existing,
{
}

/// Extraction idempotence: a second pass over the same archive and
/// destination leaves the destination exactly as the first pass left it —
/// no duplicate entries, no further writes.
pub proof fn lemma_extraction_idempotent(existing: Set<Seq<char>>, entries: Seq<Seq<char>>)
    ensures
        dir_after_pass(dir_after_pass(existing, entries), entries) == dir_after_pass(
            existing,
            entries,
        ),
{
    let once = dir_after_pass(existing, entries);
    if needs_extraction_spec(existing, entries) {
        assert forall|i: int| 0 <= i < entries.len() implies once.contains(
            #[trigger] entries[i],
        ) by {
            assert(entries.contains(entries[i]));
            assert(entries.to_set().contains(entries[i]));
        }
        lemma_skip_when_all_present(once, entries);
    }
}

} // verus!
