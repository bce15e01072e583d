//! Orchestration bookkeeping for one run: as each object's transfer
//! attempt resolves, the plan records which keys are to be retired at the
//! source and which local archive paths are queued for extraction. A key
//! is retired exactly when its outcome is `Verified`, and only verified
//! stable paths ever reach the extraction queue.

use vstd::prelude::*;
use crate::transfer::TransferOutcome;

verus! {

/// One object's resolved transfer attempt: the key it was listed under
/// and the outcome it resolved to.
pub struct ResolvedObject {
    pub key: String,
    pub outcome: TransferOutcome,
}

/// The accumulated decisions of a run: keys whose remote copies may be
/// deleted, and local archive paths awaiting extraction.
pub struct PipelinePlan {
    pub retire_keys: Vec<String>,
    pub extraction_queue: Vec<String>,
}

/// The keys a run retires, in resolution order: the keys of the records
/// whose outcome is `Verified`.
pub open spec fn retire_keys_of(log: Seq<ResolvedObject>) -> Seq<Seq<char>>
    decreases log.len(),
{
    if log.len() == 0 {
        Seq::empty()
    } else {
        retire_keys_of(log.drop_last()) + (if log.last().outcome is Verified {
            seq![log.last().key@]
        } else {
            Seq::empty()
        })
    }
}

/// The archive paths a run queues for extraction, in resolution order:
/// the stable paths of the records whose outcome is `Verified`.
pub open spec fn extraction_queue_of(log: Seq<ResolvedObject>) -> Seq<Seq<char>>
    decreases log.len(),
{
    if log.len() == 0 {
        Seq::empty()
    } else {
        extraction_queue_of(log.drop_last()) + (if log.last().outcome is Verified {
            seq![log.last().outcome->Verified_0@]
        } else {
            Seq::empty()
        })
    }
}

impl PipelinePlan {
    /// An empty plan: nothing to retire, nothing to extract.
    pub fn new() -> (plan: PipelinePlan)
        ensures
            plan.retire_keys.deep_view() == Seq::<Seq<char>>::empty(),
            plan.extraction_queue.deep_view() == Seq::<Seq<char>>::empty(),
    {
        let plan = PipelinePlan { retire_keys: Vec::new(), extraction_queue: Vec::new() };
        proof {
            assert(plan.retire_keys.deep_view() =~= Seq::<Seq<char>>::empty());
            assert(plan.extraction_queue.deep_view() =~= Seq::<Seq<char>>::empty());
        }
        plan
    }

    /// Records one resolved object: a `Verified` outcome retires the key
    /// and queues the stable path; `Unchanged` and `Mismatched` leave the
    /// plan exactly as it was.
    pub fn record_outcome(&mut self, key: &String, outcome: &TransferOutcome)
        ensures
            final(self).retire_keys.deep_view() == old(self).retire_keys.deep_view() + (
            if outcome is Verified {
                seq![key@]
            } else {
                Seq::<Seq<char>>::empty()
            }),
            final(self).extraction_queue.deep_view() == old(self).extraction_queue.deep_view() + (
            if outcome is Verified {
                seq![outcome->Verified_0@]
            } else {
                Seq::<Seq<char>>::empty()
            }),
    {
        match outcome {
            TransferOutcome::Verified(local_path) => {
                self.retire_keys.push(key.clone());
                self.extraction_queue.push(local_path.clone());
                proof {
                    assert(self.retire_keys.deep_view() =~= old(self).retire_keys.deep_view()
                        + seq![key@]);
                    assert(self.extraction_queue.deep_view() =~= old(
                        self,
                    ).extraction_queue.deep_view() + seq![outcome->Verified_0@]);
                }
            },
            _ => {
                proof {
                    assert(self.retire_keys.deep_view() =~= old(self).retire_keys.deep_view()
                        + Seq::<Seq<char>>::empty());
                    assert(self.extraction_queue.deep_view() =~= old(
                        self,
                    ).extraction_queue.deep_view() + Seq::<Seq<char>>::empty());
                }
            },
        }
    }
}

/// Builds the plan for a whole run from its resolved objects.
pub fn plan_run(resolved: &Vec<ResolvedObject>) -> (plan: PipelinePlan)
    ensures
        plan.retire_keys.deep_view() == retire_keys_of(resolved@),
        plan.extraction_queue.deep_view() == extraction_queue_of(resolved@),
{
    let mut plan = PipelinePlan::new();
    let n: usize = resolved.len();
    let mut i: usize = 0;
    while i < n
        invariant
            i <= n,
            n == resolved.len(),
            plan.retire_keys.deep_view() == retire_keys_of(resolved@.take(i as int)),
            plan.extraction_queue.deep_view() == extraction_queue_of(resolved@.take(i as int)),
        decreases n - i,
    {
        let current = &resolved[i];
        plan.record_outcome(&current.key, &current.outcome);
        proof {
            assert(resolved@.take(i + 1).drop_last() =~= resolved@.take(i as int));
            assert(resolved@.take(i + 1).last() == resolved@[i as int]);
        }
        i = i + 1;
    }
    proof {
        assert(resolved@.take(n as int) =~= resolved@);
    }
    plan
}

/// Verify-then-retire ordering: a key is retired by a run exactly when
/// some record of that run resolved to `Verified` under that key. No
/// `Unchanged` or `Mismatched` record ever causes a retirement.
pub proof fn lemma_verify_then_retire(log: Seq<ResolvedObject>, k: Seq<char>)
    ensures
        retire_keys_of(log).contains(k) <==> (exists|i: int|
            0 <= i < log.len() && (#[trigger] log[i].outcome) is Verified && log[i].key@ == k),
    decreases log.len(),
{
    if log.len() > 0 {
        let prefix = retire_keys_of(log.drop_last());
        let whole = retire_keys_of(log);
        lemma_verify_then_retire(log.drop_last(), k);
        assert(forall|i: int| 0 <= i < log.len() - 1 ==> log.drop_last()[i] == log[i]);
        if log.last().outcome is Verified {
            assert(whole == prefix + seq![log.last().key@]);
            if whole.contains(k) {
                let j = choose|j: int| 0 <= j < whole.len() && whole[j] == k;
                if j < prefix.len() {
                    assert(prefix[j] == k);
                    assert(prefix.contains(k));
                    let i0 = choose|i: int|
                        0 <= i < log.drop_last().len() && (#[trigger] log.drop_last()[i].outcome)
                            is Verified && log.drop_last()[i].key@ == k;
                    assert(log[i0].outcome is Verified && log[i0].key@ == k);
                } else {
                    assert(whole[j] == log.last().key@);
                    assert(log[log.len() - 1].outcome is Verified && log[log.len() - 1].key@ == k);
                }
            }
            if exists|i: int|
                0 <= i < log.len() && (#[trigger] log[i].outcome) is Verified && log[i].key@
                    == k {
                let i0 = choose|i: int|
                    0 <= i < log.len() && (#[trigger] log[i].outcome) is Verified && log[i].key@
                        == k;
                if i0 == log.len() - 1 {
                    assert(whole[prefix.len() as int] == k);
                    assert(whole.contains(k));
                } else {
                    assert(log.drop_last()[i0].outcome is Verified && log.drop_last()[i0].key@
                        == k);
                    assert(prefix.contains(k));
                    let j0 = choose|j: int| 0 <= j < prefix.len() && prefix[j] == k;
                    assert(whole[j0] == k);
                    assert(whole.contains(k));
                }
            }
        } else {
            assert(whole =~= prefix);
            if whole.contains(k) {
                let i0 = choose|i: int|
                    0 <= i < log.drop_last().len() && (#[trigger] log.drop_last()[i].outcome)
                        is Verified && log.drop_last()[i].key@ == k;
                assert(log[i0].outcome is Verified && log[i0].key@ == k);
            }
            if exists|i: int|
                0 <= i < log.len() && (#[trigger] log[i].outcome) is Verified && log[i].key@
                    == k {
                let i0 = choose|i: int|
                    0 <= i < log.len() && (#[trigger] log[i].outcome) is Verified && log[i].key@
                        == k;
                assert(i0 < log.len() - 1);
                assert(log.drop_last()[i0].outcome is Verified && log.drop_last()[i0].key@ == k);
                assert(prefix.contains(k));
            }
        }
    }
}

/// Extraction only after verification: a path is queued for extraction by
/// a run exactly when some record of that run resolved to `Verified` with
/// that stable path. `Unchanged` and `Mismatched` records queue nothing.
pub proof fn lemma_extract_only_verified(log: Seq<ResolvedObject>, p: Seq<char>)
    ensures
        extraction_queue_of(log).contains(p) <==> (exists|i: int|
            0 <= i < log.len() && ((#[trigger] log[i].outcome) matches TransferOutcome::Verified(
                q,
            ) && q@ == p)),
    decreases log.len(),
{
    if log.len() > 0 {
        let prefix = extraction_queue_of(log.drop_last());
        let whole = extraction_queue_of(log);
        lemma_extract_only_verified(log.drop_last(), p);
        assert(forall|i: int| 0 <= i < log.len() - 1 ==> log.drop_last()[i] == log[i]);
        if log.last().outcome is Verified {
            assert(whole == prefix + seq![log.last().outcome->Verified_0@]);
            if whole.contains(p) {
                let j = choose|j: int| 0 <= j < whole.len() && whole[j] == p;
                if j < prefix.len() {
                    assert(prefix[j] == p);
                    assert(prefix.contains(p));
                    let i0 = choose|i: int|
                        0 <= i < log.drop_last().len() && ((#[trigger] log.drop_last()[i].outcome) matches TransferOutcome::Verified(q) && q@ == p);
                    assert(log[i0].outcome matches TransferOutcome::Verified(q) && q@ == p);
                } else {
                    assert(whole[j] == log.last().outcome->Verified_0@);
                    assert(log[log.len() - 1].outcome matches TransferOutcome::Verified(q) && q@
                        == p);
                }
            }
            if exists|i: int|
                0 <= i < log.len() && ((#[trigger] log[i].outcome) matches TransferOutcome::Verified(q) && q@ == p) {
                let i0 = choose|i: int|
                    0 <= i < log.len() && ((#[trigger] log[i].outcome) matches TransferOutcome::Verified(q) && q@ == p);
                if i0 == log.len() - 1 {
                    assert(whole[prefix.len() as int] == p);
                    assert(whole.contains(p));
                } else {
                    assert(log.drop_last()[i0].outcome matches TransferOutcome::Verified(q) && q@
                        == p);
                    assert(prefix.contains(p));
                    let j0 = choose|j: int| 0 <= j < prefix.len() && prefix[j] == p;
                    assert(whole[j0] == p);
                    assert(whole.contains(p));
                }
            }
        } else {
            assert(whole =~= prefix);
            if whole.contains(p) {
                let i0 = choose|i: int|
                    0 <= i < log.drop_last().len() && ((#[trigger] log.drop_last()[i].outcome) matches TransferOutcome::Verified(q) && q@ == p);
                assert(log[i0].outcome matches TransferOutcome::Verified(q) && q@ == p);
            }
            if exists|i: int|
                0 <= i < log.len() && ((#[trigger] log[i].outcome) matches TransferOutcome::Verified(q) && q@ == p) {
                let i0 = choose|i: int|
                    0 <= i < log.len() && ((#[trigger] log[i].outcome) matches TransferOutcome::Verified(q) && q@ == p);
                assert(i0 < log.len() - 1);
                assert(log.drop_last()[i0].outcome matches TransferOutcome::Verified(q) && q@
                    == p);
                assert(prefix.contains(p));
            }
        }
    }
}

} // verus!
