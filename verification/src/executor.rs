//! Task execution model: outcome classification and failure collection.
//!
//! The worker pool itself is plain I/O plumbing and lives with the
//! caller; what is verified here is the task-type-specific failure
//! policy of each outcome and the set of identifiers reported as
//! failed, which reconciliation consumes.

use vstd::prelude::*;
use crate::error::Error;
use crate::package::Package;
use crate::package::PackageView;
use crate::package::views_of;

verus! {

/// Which failure policy a batch runs under.
#[derive(Clone, Copy, Debug, PartialEq, Eq, Structural)]
pub enum TaskType {
    Install,
    Update,
}

/// The failure policy: whether a package with this outcome stays in
/// the persisted set.
///
/// Installing over an existing directory is an idempotent re-run, so
/// "already installed" keeps the package; any other install error
/// drops it.  An update keeps the package when the plugin is local or
/// the sync protocol failed (typically transient), and drops it only
/// when the plugin is not installed at all (or the outcome is another
/// hard error).
pub open spec fn spec_keep(ty: TaskType, res: Result<(), Error>) -> bool {
    match res {
        Ok(_) => true,
        Err(e) => match ty {
            TaskType::Install => e is PluginInstalled,
            TaskType::Update => e is SkipLocal || e is Git,
        },
    }
}

/// Decide the failure policy for one outcome.
pub fn keep_outcome(ty: TaskType, res: &Result<(), Error>) -> (k: bool)
    ensures
        k == spec_keep(ty, *res),
{
    match res {
        Ok(_) => true,
        Err(e) => match ty {
            TaskType::Install => matches!(e, Error::PluginInstalled(_)),
            TaskType::Update => matches!(e, Error::SkipLocal | Error::Git(_)),
        },
    }
}

/// The identifiers of a package-model sequence.
pub open spec fn ids_of(s: Seq<PackageView>) -> Seq<Seq<char>> {
    s.map_values(|p: PackageView| p.idname)
}

/// The identifiers whose outcome the policy drops, in input order.
pub open spec fn failed_ids(
    ty: TaskType,
    ids: Seq<Seq<char>>,
    outs: Seq<Result<(), Error>>,
) -> Seq<Seq<char>>
    decreases ids.len(),
{
    if ids.len() == 0 || outs.len() != ids.len() {
        Seq::empty()
    } else {
        failed_ids(ty, ids.drop_last(), outs.drop_last()) + (if spec_keep(ty, outs.last()) {
            Seq::empty()
        } else {
            seq![ids.last()]
        })
    }
}

/// A completed run never reports more failures than it had packages,
/// and every failed identifier was one of the input identifiers.
pub proof fn lemma_failed_ids_bounded(
    ty: TaskType,
    ids: Seq<Seq<char>>,
    outs: Seq<Result<(), Error>>,
)
    requires
        outs.len() == ids.len(),
    ensures
        failed_ids(ty, ids, outs).len() <= ids.len(),
        forall|k: int|
            0 <= k < failed_ids(ty, ids, outs).len() ==> ids.contains(
                #[trigger] failed_ids(ty, ids, outs)[k],
            ),
    decreases ids.len(),
{
    if ids.len() > 0 {
        let idsp = ids.drop_last();
        let outsp = outs.drop_last();
        lemma_failed_ids_bounded(ty, idsp, outsp);
        assert forall|k: int|
            0 <= k < failed_ids(ty, ids, outs).len() implies ids.contains(
            #[trigger] failed_ids(ty, ids, outs)[k],
        ) by {
            let f = failed_ids(ty, ids, outs);
            let fp = failed_ids(ty, idsp, outsp);
            if k < fp.len() {
                let i = choose|i: int| 0 <= i < idsp.len() && idsp[i] == fp[k];
                assert(ids[i] == fp[k]);
            } else {
                assert(f[k] == ids.last());
                assert(ids[ids.len() - 1] == ids.last());
            }
        }
    }
}

/// When the policy keeps every outcome, no identifier is reported as
/// failed.
pub proof fn lemma_all_kept_no_failures(
    ty: TaskType,
    ids: Seq<Seq<char>>,
    outs: Seq<Result<(), Error>>,
)
    requires
        outs.len() == ids.len(),
        forall|k: int| 0 <= k < outs.len() ==> spec_keep(ty, #[trigger] outs[k]),
    ensures
        failed_ids(ty, ids, outs) == Seq::<Seq<char>>::empty(),
    decreases ids.len(),
{
    if ids.len() > 0 {
        lemma_all_kept_no_failures(ty, ids.drop_last(), outs.drop_last());
        assert(failed_ids(ty, ids, outs) =~= Seq::<Seq<char>>::empty());
    }
}

/// A batch of packages to run under one policy with a fixed number of
/// workers.  The caller drains `packs` with its worker pool (one
/// worker per thread, pulling until exhausted), collects one outcome
/// per package in order, and hands the outcomes back to
/// `collect_failed`.
pub struct TaskManager {
    /// The failure policy for this batch.
    pub ty: TaskType,
    /// Worker count; at least 1, validated by the caller.
    pub threads: usize,
    /// The pending packages, in the order they were added.
    pub packs: Vec<Package>,
}

impl TaskManager {
    /// An empty batch.  A worker count of zero is a caller error.
    pub fn new(ty: TaskType, threads: usize) -> (m: TaskManager)
        requires
            threads >= 1,
        ensures
            m.ty == ty,
            m.threads == threads,
            m.packs@.len() == 0,
    {
        TaskManager { ty, threads, packs: Vec::new() }
    }

    /// Enqueue one package.
    pub fn add(&mut self, pack: Package)
        ensures
            final(self).ty == old(self).ty,
            final(self).threads == old(self).threads,
            final(self).packs@.len() == old(self).packs@.len() + 1,
            views_of(final(self).packs@) == views_of(old(self).packs@).push(pack@),
    {
        self.packs.push(pack);
        proof {
            assert(views_of(self.packs@) =~= views_of(old(self).packs@).push(
                self.packs@.last()@,
            ));
        }
    }

    /// Given one outcome per package, the identifiers the policy
    /// drops, in input order.
    pub fn collect_failed(&self, outcomes: &Vec<Result<(), Error>>) -> (failed: Vec<String>)
        requires
            outcomes@.len() == self.packs@.len(),
        ensures
            failed@.map_values(|s: String| s@) == failed_ids(
                self.ty,
                ids_of(views_of(self.packs@)),
                outcomes@,
            ),
            failed@.len() <= self.packs@.len(),
            forall|k: int|
                0 <= k < failed@.len() ==> ids_of(views_of(self.packs@)).contains(
                    #[trigger] failed@[k]@,
                ),
    {
        proof {
            assert(ids_of(views_of(self.packs@)).len() == self.packs@.len());
        }
        let ghost all_ids = ids_of(views_of(self.packs@));
        let mut failed: Vec<String> = Vec::new();
        let mut i: usize = 0;
        while i < self.packs.len()
            invariant
                i <= self.packs@.len(),
                outcomes@.len() == self.packs@.len(),
                all_ids == ids_of(views_of(self.packs@)),
                all_ids.len() == self.packs@.len(),
                failed@.map_values(|s: String| s@) == failed_ids(
                    self.ty,
                    all_ids.take(i as int),
                    outcomes@.take(i as int),
                ),
            decreases self.packs@.len() - i,
        {
            let ghost prev = failed@.map_values(|s: String| s@);
            if !keep_outcome(self.ty, &outcomes[i]) {
                failed.push(self.packs[i].idname.clone());
            }
            proof {
                let ti = all_ids.take(i + 1 as int);
                let to = outcomes@.take(i + 1 as int);
                assert(ti.drop_last() =~= all_ids.take(i as int));
                assert(to.drop_last() =~= outcomes@.take(i as int));
                assert(ti.last() == all_ids[i as int]);
                assert(to.last() == outcomes@[i as int]);
                if spec_keep(self.ty, outcomes@[i as int]) {
                    assert(failed@.map_values(|s: String| s@) =~= failed_ids(self.ty, ti, to));
                } else {
                    assert(failed@.map_values(|s: String| s@) =~= prev.push(
                        self.packs@[i as int]@.idname,
                    ));
                    assert(failed_ids(self.ty, ti, to) =~= failed_ids(
                        self.ty,
                        ti.drop_last(),
                        to.drop_last(),
                    ).push(ti.last()));
                }
            }
            i += 1;
        }
        proof {
            assert(all_ids.take(all_ids.len() as int) =~= all_ids);
            assert(outcomes@.take(outcomes@.len() as int) =~= outcomes@);
            lemma_failed_ids_bounded(self.ty, all_ids, outcomes@);
            assert forall|k: int| 0 <= k < failed@.len() implies all_ids.contains(
                #[trigger] failed@[k]@,
            ) by {
                assert(failed@.map_values(|s: String| s@)[k] == failed@[k]@);
            }
        }
        failed
    }
}

} // verus!
