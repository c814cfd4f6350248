use pac::error::Error;
use pac::reference::RefKind;
use pac::reference::RepoReference;
use pac::sync::SubmoduleWalk;
use pac::sync::SyncAction;
use pac::sync::SyncFlow;
use pac::sync::SyncMode;
use pac::sync::clone_precheck;
use pac::sync::submodule_indices;
use pac::sync::update_precheck;

fn branch(v: &str) -> RepoReference {
    RepoReference::new(RefKind::Branch, String::from(v)).unwrap()
}

#[test]
fn clone_failing_at_checkout_cleans_up_before_reporting() {
    // Clone of a remote into an empty path that fails at the checkout
    // step: the machine orders the path deleted before it finishes,
    // so the path ends up nonexistent.
    assert!(clone_precheck("base/x/start/p", false).is_ok());
    let mut flow = SyncFlow::new(SyncMode::CloneRepo, None);
    assert!(matches!(flow.start(), SyncAction::Init));
    assert!(matches!(flow.on_init(Ok(())), SyncAction::Fetch));
    let a = flow.on_fetch(Ok(String::from("refs/heads/main")));
    assert!(matches!(a, SyncAction::ResolveRef(_)));
    assert!(matches!(flow.on_resolve(Ok(true)), SyncAction::Checkout));
    let a = flow.on_checkout(Err(Error::Git(String::from("checkout failed"))));
    assert!(matches!(a, SyncAction::RemoveDir));
    assert!(matches!(flow.on_removed(Ok(())), SyncAction::Finish));
    let r = flow.finish();
    assert!(matches!(r, Err(Error::Git(_))));
}

#[test]
fn failed_cleanup_takes_precedence() {
    let mut flow = SyncFlow::new(SyncMode::CloneRepo, None);
    flow.start();
    flow.on_init(Ok(()));
    let a = flow.on_fetch(Err(Error::Git(String::from("network"))));
    assert!(matches!(a, SyncAction::RemoveDir));
    let a = flow.on_removed(Err(Error::Io(String::from("permission denied"))));
    assert!(matches!(a, SyncAction::Finish));
    assert!(matches!(flow.finish(), Err(Error::Io(_))));
}

#[test]
fn pull_failure_leaves_directory_alone() {
    assert!(matches!(
        update_precheck("a", false),
        Err(Error::PluginNotInstalled(_))
    ));
    assert!(update_precheck("a", true).is_ok());
    let mut flow = SyncFlow::new(SyncMode::PullRepo, None);
    assert!(matches!(flow.start(), SyncAction::Open));
    assert!(matches!(flow.on_init(Ok(())), SyncAction::Fetch));
    let a = flow.on_fetch(Err(Error::Git(String::from("network"))));
    assert!(matches!(a, SyncAction::Finish));
    assert!(matches!(flow.finish(), Err(Error::Git(_))));
}

#[test]
fn clone_over_existing_directory_is_already_installed() {
    assert!(matches!(
        clone_precheck("base/x/start/p", true),
        Err(Error::PluginInstalled(_))
    ));
}

#[test]
fn default_branch_used_when_no_reference_requested() {
    let mut flow = SyncFlow::new(SyncMode::PullRepo, None);
    flow.start();
    flow.on_init(Ok(()));
    match flow.on_fetch(Ok(String::from("main"))) {
        SyncAction::ResolveRef(p) => assert_eq!(p, "refs/heads/main"),
        _ => panic!("expected a ref resolution"),
    }
    flow.on_resolve(Ok(true));
    match flow.on_checkout(Ok(())) {
        SyncAction::SetHead(p) => assert_eq!(p, "refs/heads/main"),
        _ => panic!("a default-branch head is a normal ref"),
    }
}

#[test]
fn commit_reference_resolves_directly_to_its_object_id() {
    let hash = "0123456789abcdef0123456789abcdef01234567";
    let rr = RepoReference::new(RefKind::Commit, String::from(hash)).unwrap();
    let mut flow = SyncFlow::new(SyncMode::CloneRepo, Some(rr));
    flow.start();
    flow.on_init(Ok(()));
    match flow.on_fetch(Ok(String::from("main"))) {
        SyncAction::ResolveCommit(h) => assert_eq!(h, hash),
        _ => panic!("a commit hash is used directly as an object id"),
    }
    assert!(matches!(flow.on_resolve(Ok(true)), SyncAction::Checkout));
    // head is detached for a commit
    assert!(matches!(flow.on_checkout(Ok(())), SyncAction::SetHeadDetached));
    assert!(matches!(flow.on_head(Ok(())), SyncAction::Submodules));
    assert!(matches!(flow.on_submodules_done(), SyncAction::Finish));
    assert!(flow.finish().is_ok());
}

#[test]
fn branch_head_set_as_normal_ref() {
    let mut flow = SyncFlow::new(SyncMode::PullRepo, Some(branch("dev")));
    flow.start();
    flow.on_init(Ok(()));
    match flow.on_fetch(Ok(String::from("main"))) {
        SyncAction::ResolveRef(p) => assert_eq!(p, "refs/heads/dev"),
        _ => panic!("expected a ref resolution"),
    }
    flow.on_resolve(Ok(true));
    match flow.on_checkout(Ok(())) {
        SyncAction::SetHead(p) => assert_eq!(p, "refs/heads/dev"),
        _ => panic!("a branch head is a normal ref"),
    }
}

#[test]
fn resolution_yielding_nothing_is_a_format_error() {
    let mut flow = SyncFlow::new(SyncMode::PullRepo, Some(branch("gone")));
    flow.start();
    flow.on_init(Ok(()));
    flow.on_fetch(Ok(String::from("main")));
    let a = flow.on_resolve(Ok(false));
    assert!(matches!(a, SyncAction::Finish));
    assert!(matches!(flow.finish(), Err(Error::Format)));
}

#[test]
fn docs_submodule_never_visited() {
    let names = vec![
        String::from("lib"),
        String::from("docs"),
        String::from("vendor"),
    ];
    let idx = submodule_indices(&names);
    assert_eq!(idx, vec![0, 2]);
    for &i in &idx {
        assert_ne!(names[i], "docs");
    }
    // nested level: the same exclusion applies at any depth
    let nested = vec![String::from("docs"), String::from("docs2")];
    assert_eq!(submodule_indices(&nested), vec![1]);
    let only_docs = vec![String::from("docs")];
    assert!(submodule_indices(&only_docs).is_empty());
}

#[test]
fn cyclic_submodules_are_not_requeued() {
    let mut walk = SubmoduleWalk::new(String::from("/repo"));
    // root's submodule
    assert!(walk.note_opened(1, &String::from("/repo/sub")));
    assert_eq!(walk.next_repo(), Some(1));
    // the submodule points back at the root and at itself: neither is
    // enqueued again, so the walk terminates
    assert!(!walk.note_opened(2, &String::from("/repo")));
    assert!(!walk.note_opened(3, &String::from("/repo/sub")));
    assert_eq!(walk.next_repo(), None);
}
