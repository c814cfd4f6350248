use pac::error::Error;
use pac::executor::TaskManager;
use pac::executor::TaskType;
use pac::executor::keep_outcome;
use pac::package::Package;
use pac::reconcile::find_path_collision;
use pac::reconcile::lookup_by_id;
use pac::reconcile::reconcile;
use pac::reconcile::remove_failed;
use pac::reconcile::select_for_update;
use pac::reconcile::sort_by_idname;

fn pack(idname: &str, opt: bool, category: &str) -> Package {
    Package {
        name: String::from(idname),
        idname: String::from(idname),
        remote: format!("https://github.com/{}", idname),
        reference: None,
        category: String::from(category),
        opt,
        for_types: Vec::new(),
        load_command: None,
        build_command: None,
    }
}

fn ids(packs: &[Package]) -> Vec<String> {
    packs.iter().map(|p| p.idname.clone()).collect()
}

#[test]
fn merge_has_one_entry_per_distinct_idname() {
    let persisted = vec![pack("a/a", false, "x"), pack("b/b", false, "x")];
    let installed = vec![true, false];
    let target = vec![pack("b/b", true, "y"), pack("c/c", false, "z"), pack("c/c", true, "z2")];
    let r = reconcile(persisted, installed, target);
    let got = ids(&r.persisted);
    assert_eq!(got, vec!["a/a", "b/b", "c/c"]);
}

#[test]
fn installed_entry_placement_is_sticky() {
    // persisted a with opt=false category=x, already installed;
    // target re-declares a with opt=true category=y: the merged entry
    // keeps opt=false and category=x.
    let persisted = vec![pack("a", false, "x")];
    let installed = vec![true];
    let target = vec![pack("a", true, "y")];
    let r = reconcile(persisted, installed, target);
    assert_eq!(r.persisted.len(), 1);
    assert_eq!(r.persisted[0].category, "x");
    assert!(!r.persisted[0].opt);
    // the operand the executor runs keeps its identity but adopts the
    // sticky placement too
    assert_eq!(r.operands.len(), 1);
    assert_eq!(r.operands[0].idname, "a");
    assert_eq!(r.operands[0].category, "x");
    assert!(!r.operands[0].opt);
}

#[test]
fn stale_entry_adopts_declared_intent() {
    let mut p = pack("a", false, "x");
    p.build_command = Some(String::from("make old"));
    let persisted = vec![p];
    let installed = vec![false];
    let mut t = pack("a", true, "y");
    t.for_types = vec![String::from("rs")];
    t.load_command = Some(String::from("cmd"));
    t.build_command = Some(String::from("make new"));
    let target = vec![t];
    let r = reconcile(persisted, installed, target);
    assert_eq!(r.persisted.len(), 1);
    let m = &r.persisted[0];
    assert_eq!(m.category, "y");
    assert!(m.opt);
    assert_eq!(m.for_types, vec![String::from("rs")]);
    assert_eq!(m.load_command, Some(String::from("cmd")));
    assert_eq!(m.build_command, Some(String::from("make new")));
}

#[test]
fn empty_target_operates_on_everything() {
    let persisted = vec![pack("a", false, "x"), pack("b", false, "x")];
    let installed = vec![true, true];
    let r = reconcile(persisted, installed, Vec::new());
    assert_eq!(ids(&r.persisted), vec!["a", "b"]);
    assert_eq!(ids(&r.operands), vec!["a", "b"]);
}

#[test]
fn install_twice_keeps_persisted_set() {
    // First run: two fresh installs succeed.
    let target = vec![pack("a", false, "x"), pack("b", false, "x")];
    let r1 = reconcile(Vec::new(), Vec::new(), target.clone());
    let mut mgr = TaskManager::new(TaskType::Install, 2);
    for p in &r1.operands {
        mgr.add(p.clone());
    }
    let outcomes: Vec<Result<(), Error>> = vec![Ok(()), Ok(())];
    let failed = mgr.collect_failed(&outcomes);
    assert!(failed.is_empty());
    let after_first = sort_by_idname(remove_failed(r1.persisted, &failed));
    assert_eq!(ids(&after_first), vec!["a", "b"]);

    // Second run, same target, both directories now exist: every
    // outcome is "already installed", which the install policy keeps.
    let r2 = reconcile(after_first.clone(), vec![true, true], target);
    let mut mgr2 = TaskManager::new(TaskType::Install, 2);
    for p in &r2.operands {
        mgr2.add(p.clone());
    }
    let outcomes2: Vec<Result<(), Error>> = vec![
        Err(Error::plugin_installed("base/x/start/a")),
        Err(Error::plugin_installed("base/x/start/b")),
    ];
    let failed2 = mgr2.collect_failed(&outcomes2);
    assert!(failed2.is_empty());
    let after_second = sort_by_idname(remove_failed(r2.persisted, &failed2));
    assert_eq!(ids(&after_second), ids(&after_first));
}

#[test]
fn failed_identifiers_bounded_by_input() {
    let mut mgr = TaskManager::new(TaskType::Update, 4);
    let batch = vec![pack("a", false, "x"), pack("b", false, "x"), pack("c", false, "x")];
    for p in &batch {
        mgr.add(p.clone());
    }
    let outcomes: Vec<Result<(), Error>> = vec![
        Err(Error::plugin_not_installed("a")),
        Ok(()),
        Err(Error::plugin_not_installed("c")),
    ];
    let failed = mgr.collect_failed(&outcomes);
    assert!(failed.len() <= batch.len());
    for f in &failed {
        assert!(batch.iter().any(|p| &p.idname == f));
    }
    assert_eq!(failed, vec![String::from("a"), String::from("c")]);
}

#[test]
fn update_ten_packages_three_not_installed_leaves_seven_sorted() {
    let names = ["j", "d", "h", "a", "f", "b", "i", "c", "g", "e"];
    let packs: Vec<Package> = names.iter().map(|n| pack(n, false, "x")).collect();
    let mut mgr = TaskManager::new(TaskType::Update, 4);
    for p in &packs {
        mgr.add(p.clone());
    }
    let mut outcomes: Vec<Result<(), Error>> = Vec::new();
    for (i, n) in names.iter().enumerate() {
        if i % 3 == 0 && i < 9 {
            // j, a, i return "not installed"
            outcomes.push(Err(Error::plugin_not_installed(n)));
        } else {
            outcomes.push(Ok(()));
        }
    }
    let failed = mgr.collect_failed(&outcomes);
    assert_eq!(failed.len(), 3);
    let kept = sort_by_idname(remove_failed(packs, &failed));
    assert_eq!(kept.len(), 7);
    assert_eq!(ids(&kept), vec!["b", "c", "d", "e", "f", "g", "h"]);
}

#[test]
fn install_policy_keeps_only_already_installed_errors() {
    assert!(keep_outcome(TaskType::Install, &Ok(())));
    assert!(keep_outcome(TaskType::Install, &Err(Error::plugin_installed("p"))));
    assert!(!keep_outcome(TaskType::Install, &Err(Error::Git(String::from("net")))));
    assert!(!keep_outcome(TaskType::Install, &Err(Error::Format)));
    assert!(!keep_outcome(TaskType::Install, &Err(Error::build("cc"))));
}

#[test]
fn update_policy_keeps_local_and_sync_errors() {
    assert!(keep_outcome(TaskType::Update, &Ok(())));
    assert!(keep_outcome(TaskType::Update, &Err(Error::SkipLocal)));
    assert!(keep_outcome(TaskType::Update, &Err(Error::Git(String::from("net")))));
    assert!(!keep_outcome(TaskType::Update, &Err(Error::plugin_not_installed("a"))));
    assert!(!keep_outcome(TaskType::Update, &Err(Error::Format)));
}

#[test]
fn select_for_update_honours_names_and_skips() {
    let packs = vec![pack("aa", false, "x"), pack("ab", false, "x"), pack("bb", false, "x")];
    // no names: skip everything containing "a"
    let all = select_for_update(&packs, &Vec::new(), &vec![String::from("a")]);
    assert_eq!(ids(&all), vec!["bb"]);
    // names given: exactly the named ones, skip list ignored
    let named = select_for_update(
        &packs,
        &vec![String::from("ab"), String::from("zz")],
        &vec![String::from("a")],
    );
    assert_eq!(ids(&named), vec!["ab"]);
}

#[test]
fn lookup_finds_known_names_and_rejects_unknown() {
    let packs = vec![pack("a", false, "x"), pack("b", false, "x")];
    assert_eq!(lookup_by_id(&packs, &String::from("a")).unwrap(), 0);
    assert_eq!(lookup_by_id(&packs, &String::from("b")).unwrap(), 1);
    let e = lookup_by_id(&packs, &String::from("zz")).unwrap_err();
    assert!(matches!(e, Error::PluginNotInstalled(_)));
    assert_eq!(e.message(), "zz not installed");
}

#[test]
fn path_collision_detected() {
    let a = pack("a", false, "x");
    let mut b = pack("b", false, "x");
    b.name = String::from("a");
    let packs = vec![a, b];
    assert_eq!(find_path_collision(&packs), Some((0, 1)));

    let c = pack("c", true, "x");
    let mut d = pack("d", false, "x");
    d.name = String::from("c");
    let ok = vec![c, d];
    assert_eq!(find_path_collision(&ok), None);
}
