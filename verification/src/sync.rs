//! The repository synchronization engine, as a decision procedure.
//!
//! Bringing a working copy to a requested reference is a strictly
//! ordered procedure: fetch, resolve, checkout, head update,
//! submodules; any step's failure aborts the whole sync.  The caller
//! owns the repository handles and performs each `SyncAction` (the
//! I/O), feeding the outcome back; every decision — which step comes
//! next, which ref path is resolved, how the head is updated, which
//! submodules are entered, and the all-or-nothing cleanup of a failed
//! clone — is made here, under contract.

use vstd::prelude::*;
use vstd::string::StringExecFns;
use crate::error::Error;
use crate::reference::RefKind;
use crate::reference::RefView;
use crate::reference::RepoReference;
use crate::strutil::str_eq;

verus! {

/// Whether the sync creates a new local repository or updates an
/// existing one.  A failed clone must leave no partial directory; a
/// failed pull leaves the installation untouched.
#[derive(Clone, Copy, Debug, PartialEq, Eq, Structural)]
pub enum SyncMode {
    CloneRepo,
    PullRepo,
}

/// What the caller must do next.
#[derive(Debug)]
pub enum SyncAction {
    /// Create a new local repository at the package path.
    Init,
    /// Open the existing repository at the package path.
    Open,
    /// Fetch all branches and tags from the remote; report the
    /// remote's default branch back.
    Fetch,
    /// Resolve this ref path to an object id.
    ResolveRef(String),
    /// Parse this 40-character hash directly as the object id.
    ResolveCommit(String),
    /// Force-checkout the resolved object's tree, discarding local
    /// modifications.
    Checkout,
    /// Point the repository's head at this ref.
    SetHead(String),
    /// Detach the head at the resolved object id.
    SetHeadDetached,
    /// Begin the submodule walk at the root repository.
    Submodules,
    /// Delete the package path entirely (failed clone cleanup).
    RemoveDir,
    /// The sync is over; collect the result.
    Finish,
}

/// Where the procedure stands.
#[derive(Clone, Copy, Debug, PartialEq, Eq, Structural)]
pub enum SyncPhase {
    Ready,
    Initializing,
    Fetching,
    Resolving,
    CheckingOut,
    SettingHead,
    Submodules,
    Cleaning,
    Done,
}

/// The reference the sync actually targets: the requested one, or the
/// remote's default branch when none was requested.
pub open spec fn spec_target(requested: Option<RefView>, default_branch: Seq<char>) -> RefView {
    match requested {
        Some(r) => r,
        None => RefView { kind: RefKind::Branch, value: default_branch },
    }
}

/// The sync state machine for one package.
pub struct SyncFlow {
    pub mode: SyncMode,
    pub reference: Option<RepoReference>,
    pub target: Option<RepoReference>,
    pub phase: SyncPhase,
    pub error: Option<Error>,
}

impl SyncFlow {
    /// The machine's invariant: a validated reference, a target from
    /// the phase where one exists, an error exactly in the failure
    /// phases.
    pub open spec fn wf(self) -> bool {
        &&& (self.reference matches Some(r) ==> r@.wf())
        &&& ((self.phase is Resolving || self.phase is CheckingOut || self.phase is SettingHead)
            ==> self.target is Some)
        &&& (self.phase is Cleaning ==> self.error is Some)
        &&& (!(self.phase is Cleaning || self.phase is Done) ==> self.error is None)
    }

    /// A machine about to sync one package to `reference` (or the
    /// remote's default branch).
    pub fn new(mode: SyncMode, reference: Option<RepoReference>) -> (m: SyncFlow)
        requires
            reference matches Some(r) ==> r@.wf(),
        ensures
            m.wf(),
            m.mode == mode,
            m.phase is Ready,
            m.error is None,
            match reference {
                Some(r) => m.reference matches Some(mr) && mr@ == r@,
                None => m.reference is None,
            },
    {
        SyncFlow { mode, reference, target: None, phase: SyncPhase::Ready, error: None }
    }

    /// Any step failed: a clone cleans up its partial directory before
    /// finishing, a pull finishes at once with the directory untouched.
    pub fn fail(&mut self, e: Error) -> (a: SyncAction)
        requires
            old(self).wf(),
            !(old(self).phase is Cleaning),
            !(old(self).phase is Done),
        ensures
            final(self).wf(),
            final(self).mode == old(self).mode,
            final(self).reference == old(self).reference,
            final(self).target == old(self).target,
            final(self).error == Some(e),
            old(self).mode is CloneRepo ==> a is RemoveDir && final(self).phase is Cleaning,
            old(self).mode is PullRepo ==> a is Finish && final(self).phase is Done,
    {
        self.error = Some(e);
        match self.mode {
            SyncMode::CloneRepo => {
                self.phase = SyncPhase::Cleaning;
                SyncAction::RemoveDir
            },
            SyncMode::PullRepo => {
                self.phase = SyncPhase::Done;
                SyncAction::Finish
            },
        }
    }

    /// Begin: a clone creates the repository, a pull opens it.
    pub fn start(&mut self) -> (a: SyncAction)
        requires
            old(self).wf(),
            old(self).phase is Ready,
        ensures
            final(self).wf(),
            final(self).mode == old(self).mode,
            final(self).reference == old(self).reference,
            final(self).error is None,
            final(self).phase is Initializing,
            old(self).mode is CloneRepo ==> a is Init,
            old(self).mode is PullRepo ==> a is Open,
    {
        self.phase = SyncPhase::Initializing;
        match self.mode {
            SyncMode::CloneRepo => SyncAction::Init,
            SyncMode::PullRepo => SyncAction::Open,
        }
    }

    /// The repository was created or opened (or not): next, fetch.
    pub fn on_init(&mut self, res: Result<(), Error>) -> (a: SyncAction)
        requires
            old(self).wf(),
            old(self).phase is Initializing,
        ensures
            final(self).wf(),
            final(self).mode == old(self).mode,
            final(self).reference == old(self).reference,
            res is Ok ==> a is Fetch && final(self).phase is Fetching && final(self).error is None,
            res matches Err(e) ==> final(self).error == Some(e) && (old(self).mode is CloneRepo
                ==> a is RemoveDir && final(self).phase is Cleaning) && (old(self).mode is PullRepo
                ==> a is Finish && final(self).phase is Done),
    {
        match res {
            Ok(_) => {
                self.phase = SyncPhase::Fetching;
                SyncAction::Fetch
            },
            Err(e) => self.fail(e),
        }
    }

    /// Everything is fetched and the remote's default branch is known:
    /// pick the target reference and resolve it — by ref path for a
    /// branch or tag, directly as an object id for a commit.
    pub fn on_fetch(&mut self, res: Result<String, Error>) -> (a: SyncAction)
        requires
            old(self).wf(),
            old(self).phase is Fetching,
        ensures
            final(self).wf(),
            final(self).mode == old(self).mode,
            res matches Ok(b) ==> {
                let t = spec_target(
                    match old(self).reference {
                        Some(r) => Some(r@),
                        None => None,
                    },
                    b@,
                );
                &&& final(self).phase is Resolving
                &&& final(self).error is None
                &&& final(self).target matches Some(ft) && ft@ == t
                &&& (t.kind is Commit ==> (a matches SyncAction::ResolveCommit(h) && h@ == t.value))
                &&& (!(t.kind is Commit) ==> (a matches SyncAction::ResolveRef(p) && p@
                    == t.ref_path()))
            },
            res matches Err(e) ==> final(self).error == Some(e) && (old(self).mode is CloneRepo
                ==> a is RemoveDir && final(self).phase is Cleaning) && (old(self).mode is PullRepo
                ==> a is Finish && final(self).phase is Done),
    {
        match res {
            Ok(b) => {
                let t = match &self.reference {
                    Some(r) => r.clone(),
                    None => RepoReference { kind: RefKind::Branch, value: b },
                };
                let a = match t.kind {
                    RefKind::Commit => SyncAction::ResolveCommit(t.value.clone()),
                    _ => SyncAction::ResolveRef(t.ref_path()),
                };
                self.target = Some(t);
                self.phase = SyncPhase::Resolving;
                a
            },
            Err(e) => self.fail(e),
        }
    }

    /// The target resolved to an object id (or did not): a resolution
    /// that yields nothing is a format error; otherwise, checkout.
    pub fn on_resolve(&mut self, res: Result<bool, Error>) -> (a: SyncAction)
        requires
            old(self).wf(),
            old(self).phase is Resolving,
        ensures
            final(self).wf(),
            final(self).mode == old(self).mode,
            final(self).target == old(self).target,
            res == Result::<bool, Error>::Ok(true) ==> a is Checkout && final(self).phase is CheckingOut && final(self).error is None,
            res == Result::<bool, Error>::Ok(false) ==> (final(self).error matches Some(fe)
                && fe is Format) && (old(self).mode is CloneRepo ==> a is RemoveDir && final(self).phase is Cleaning) && (old(self).mode is PullRepo ==> a is Finish && final(self).phase is Done),
            res matches Err(e) ==> final(self).error == Some(e) && (old(self).mode is CloneRepo
                ==> a is RemoveDir && final(self).phase is Cleaning) && (old(self).mode is PullRepo
                ==> a is Finish && final(self).phase is Done),
    {
        match res {
            Ok(true) => {
                self.phase = SyncPhase::CheckingOut;
                SyncAction::Checkout
            },
            Ok(false) => self.fail(Error::Format),
            Err(e) => self.fail(e),
        }
    }

    /// The working tree now matches the target: point the head at it —
    /// a normal ref for a branch or tag (so later pulls track it), a
    /// detached pointer for a commit.
    pub fn on_checkout(&mut self, res: Result<(), Error>) -> (a: SyncAction)
        requires
            old(self).wf(),
            old(self).phase is CheckingOut,
        ensures
            final(self).wf(),
            final(self).mode == old(self).mode,
            final(self).target == old(self).target,
            res is Ok ==> {
                let t = old(self).target->0@;
                &&& final(self).phase is SettingHead
                &&& final(self).error is None
                &&& (t.kind is Commit ==> a is SetHeadDetached)
                &&& (!(t.kind is Commit) ==> (a matches SyncAction::SetHead(p) && p@ == t.ref_path()))
            },
            res matches Err(e) ==> final(self).error == Some(e) && (old(self).mode is CloneRepo
                ==> a is RemoveDir && final(self).phase is Cleaning) && (old(self).mode is PullRepo
                ==> a is Finish && final(self).phase is Done),
    {
        match res {
            Ok(_) => {
                self.phase = SyncPhase::SettingHead;
                match &self.target {
                    Some(t) => match t.kind {
                        RefKind::Commit => SyncAction::SetHeadDetached,
                        _ => SyncAction::SetHead(t.ref_path()),
                    },
                    None => SyncAction::SetHeadDetached,
                }
            },
            Err(e) => self.fail(e),
        }
    }

    /// The head is set: walk the submodules.
    pub fn on_head(&mut self, res: Result<(), Error>) -> (a: SyncAction)
        requires
            old(self).wf(),
            old(self).phase is SettingHead,
        ensures
            final(self).wf(),
            final(self).mode == old(self).mode,
            res is Ok ==> a is Submodules && final(self).phase is Submodules && final(self).error is None,
            res matches Err(e) ==> final(self).error == Some(e) && (old(self).mode is CloneRepo
                ==> a is RemoveDir && final(self).phase is Cleaning) && (old(self).mode is PullRepo
                ==> a is Finish && final(self).phase is Done),
    {
        match res {
            Ok(_) => {
                self.phase = SyncPhase::Submodules;
                SyncAction::Submodules
            },
            Err(e) => self.fail(e),
        }
    }

    /// Every reachable submodule is updated: the sync succeeded.
    pub fn on_submodules_done(&mut self) -> (a: SyncAction)
        requires
            old(self).wf(),
            old(self).phase is Submodules,
        ensures
            final(self).wf(),
            final(self).mode == old(self).mode,
            final(self).phase is Done,
            final(self).error is None,
            a is Finish,
    {
        self.phase = SyncPhase::Done;
        SyncAction::Finish
    }

    /// The partial clone directory was deleted (or could not be): the
    /// sync finishes with the original error, or with the removal
    /// error when even the cleanup failed.
    pub fn on_removed(&mut self, res: Result<(), Error>) -> (a: SyncAction)
        requires
            old(self).wf(),
            old(self).phase is Cleaning,
        ensures
            final(self).wf(),
            final(self).mode == old(self).mode,
            final(self).phase is Done,
            a is Finish,
            res is Ok ==> final(self).error == old(self).error,
            res matches Err(re) ==> final(self).error == Some(re),
    {
        self.phase = SyncPhase::Done;
        if let Err(re) = res {
            self.error = Some(re);
        }
        SyncAction::Finish
    }

    /// Collect the overall result once the machine is done.
    pub fn finish(self) -> (r: Result<(), Error>)
        requires
            self.phase is Done,
        ensures
            self.error is None ==> r is Ok,
            self.error matches Some(e) ==> r == Result::<(), Error>::Err(e),
    {
        match self.error {
            None => Ok(()),
            Some(e) => Err(e),
        }
    }
}

/// A clone refuses to run over an existing directory: the plugin is
/// already installed, and the existing installation must not be
/// touched.
pub fn clone_precheck(path: &str, path_exists: bool) -> (r: Result<(), Error>)
    ensures
        r is Ok <==> !path_exists,
        path_exists ==> (r matches Err(e) && e is PluginInstalled && e.spec_message()
            == "Plugin already installed under \""@ + path@ + "\""@),
{
    if path_exists {
        Err(Error::plugin_installed(path))
    } else {
        Ok(())
    }
}

/// An update needs an existing directory: without one the plugin is
/// not installed.
pub fn update_precheck(idname: &str, path_exists: bool) -> (r: Result<(), Error>)
    ensures
        r is Ok <==> path_exists,
        !path_exists ==> (r matches Err(e) && e is PluginNotInstalled && e.spec_message()
            == idname@ + " not installed"@),
{
    if path_exists {
        Ok(())
    } else {
        Err(Error::plugin_not_installed(idname))
    }
}

/// The submodule indices a repository's walk enters, in order: every
/// submodule except any literally named `docs`.
pub open spec fn non_docs_indices(names: Seq<Seq<char>>) -> Seq<int>
    decreases names.len(),
{
    if names.len() == 0 {
        Seq::empty()
    } else {
        non_docs_indices(names.drop_last()) + (if names.last() == "docs"@ {
            Seq::empty()
        } else {
            seq![names.len() - 1]
        })
    }
}

/// The walk selects exactly the submodules not named `docs`: a
/// selected index never carries that name, and every other index is
/// selected.  Applied at every repository the walk opens, this holds
/// at any nesting depth.
pub proof fn lemma_docs_never_selected(names: Seq<Seq<char>>)
    ensures
        forall|k: int|
            0 <= k < non_docs_indices(names).len() ==> 0 <= #[trigger] non_docs_indices(names)[k]
                < names.len() && names[non_docs_indices(names)[k]] != "docs"@,
        forall|i: int|
            0 <= i < names.len() && names[i] != "docs"@ ==> non_docs_indices(names).contains(i),
    decreases names.len(),
{
    if names.len() > 0 {
        lemma_docs_never_selected(names.drop_last());
        let prev = non_docs_indices(names.drop_last());
        assert forall|i: int|
            0 <= i < names.len() && names[i] != "docs"@ implies non_docs_indices(
            names,
        ).contains(i) by {
            if i < names.len() - 1 {
                assert(names.drop_last()[i] == names[i]);
                let k = choose|k: int| 0 <= k < prev.len() && prev[k] == i;
                assert(non_docs_indices(names)[k] == i);
            } else {
                assert(non_docs_indices(names).last() == i);
            }
        }
    }
}

/// Decide which submodules of one repository the walk enters.
pub fn submodule_indices(names: &Vec<String>) -> (r: Vec<usize>)
    ensures
        r@.map_values(|u: usize| u as int) == non_docs_indices(
            names@.map_values(|s: String| s@),
        ),
{
    let ghost nv = names@.map_values(|s: String| s@);
    let mut r: Vec<usize> = Vec::new();
    let mut i: usize = 0;
    while i < names.len()
        invariant
            i <= names@.len(),
            nv == names@.map_values(|s: String| s@),
            nv.len() == names@.len(),
            r@.map_values(|u: usize| u as int) == non_docs_indices(nv.take(i as int)),
        decreases names@.len() - i,
    {
        let ghost before = r@.map_values(|u: usize| u as int);
        if !str_eq(names[i].as_str(), "docs") {
            r.push(i);
        }
        proof {
            let t1 = nv.take(i + 1 as int);
            assert(t1.drop_last() =~= nv.take(i as int));
            assert(t1.last() == nv[i as int]);
            assert(nv[i as int] == names@[i as int]@);
            if nv[i as int] == "docs"@ {
                assert(r@.map_values(|u: usize| u as int) =~= non_docs_indices(t1));
            } else {
                assert(r@.map_values(|u: usize| u as int) =~= before.push(i as int));
                assert(non_docs_indices(t1) =~= non_docs_indices(t1.drop_last()).push(
                    t1.len() - 1,
                ));
            }
        }
        i += 1;
    }
    proof {
        assert(nv.take(nv.len() as int) =~= nv);
    }
    r
}

/// The iterative submodule worklist: pending repositories still to be
/// walked, and the keys (canonical paths) of every repository already
/// entered.  A key is never entered twice, which bounds the walk even
/// on cyclic submodule graphs.
pub struct SubmoduleWalk {
    pub pending: Vec<u64>,
    pub visited: Vec<String>,
}

/// The keys of the visited list.
pub open spec fn keys_of(visited: Seq<String>) -> Seq<Seq<char>> {
    visited.map_values(|s: String| s@)
}

impl SubmoduleWalk {
    /// No key is recorded twice.
    pub open spec fn wf(self) -> bool {
        forall|i: int, j: int|
            0 <= i < j < keys_of(self.visited@).len() ==> (#[trigger] keys_of(self.visited@)[i])
                != (#[trigger] keys_of(self.visited@)[j])
    }

    /// A walk that has entered only the root repository.
    pub fn new(root_key: String) -> (w: SubmoduleWalk)
        ensures
            w.wf(),
            w.pending@.len() == 0,
            keys_of(w.visited@) == seq![root_key@],
    {
        let mut visited: Vec<String> = Vec::new();
        visited.push(root_key);
        let w = SubmoduleWalk { pending: Vec::new(), visited };
        proof {
            assert(keys_of(w.visited@) =~= seq![root_key@]);
        }
        w
    }

    /// A submodule repository was updated and opened under `key`: it
    /// joins the worklist only if the walk has never entered it — a
    /// repository seen before (a submodule cycle) is not enqueued
    /// again.
    pub fn note_opened(&mut self, id: u64, key: &String) -> (fresh: bool)
        requires
            old(self).wf(),
        ensures
            final(self).wf(),
            fresh == !keys_of(old(self).visited@).contains(key@),
            !fresh ==> final(self).pending@ == old(self).pending@ && keys_of(final(self).visited@)
                == keys_of(old(self).visited@),
            fresh ==> final(self).pending@ == old(self).pending@.push(id) && keys_of(
                final(self).visited@,
            ) == keys_of(old(self).visited@).push(key@),
    {
        let ghost kv = keys_of(self.visited@);
        let mut seen = false;
        let mut i: usize = 0;
        while i < self.visited.len()
            invariant
                i <= self.visited@.len(),
                kv == keys_of(self.visited@),
                kv.len() == self.visited@.len(),
                seen == exists|l: int| 0 <= l < i && kv[l] == key@,
            decreases self.visited@.len() - i,
        {
            if str_eq(self.visited[i].as_str(), key.as_str()) {
                seen = true;
                proof {
                    assert(kv[i as int] == key@);
                }
            }
            i += 1;
        }
        proof {
            if seen {
                assert(kv.contains(key@));
            } else {
                assert(!kv.contains(key@));
            }
        }
        if seen {
            false
        } else {
            self.pending.push(id);
            self.visited.push(key.clone());
            proof {
                assert(keys_of(self.visited@) =~= kv.push(key@));
                assert forall|a: int, b: int|
                    0 <= a < b < keys_of(self.visited@).len() implies (
                #[trigger] keys_of(self.visited@)[a]) != (#[trigger] keys_of(
                    self.visited@,
                )[b]) by {
                    if b == keys_of(self.visited@).len() - 1 {
                        assert(kv[a] != key@);
                    }
                }
            }
            true
        }
    }

    /// The next pending repository whose submodules are to be listed,
    /// if any are left.
    pub fn next_repo(&mut self) -> (r: Option<u64>)
        requires
            old(self).wf(),
        ensures
            final(self).wf(),
            keys_of(final(self).visited@) == keys_of(old(self).visited@),
            old(self).pending@.len() == 0 ==> r is None && final(self).pending@ == old(
                self,
            ).pending@,
            old(self).pending@.len() > 0 ==> r == Some(old(self).pending@.last()) && final(self).pending@ == old(self).pending@.drop_last(),
    {
        self.pending.pop()
    }
}

} // verus!
