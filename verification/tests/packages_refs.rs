use pac::error::Error;
use pac::package::Package;
use pac::reference::RefKind;
use pac::reference::RepoReference;
use pac::strutil::last_segment;
use pac::strutil::str_contains;
use pac::strutil::str_eq;
use pac::strutil::str_le;
use pac::strutil::str_starts_with;

#[test]
fn commit_hash_must_be_forty_hex_chars() {
    let forty = "0123456789abcdef0123456789abcdef01234567";
    assert!(RepoReference::new(RefKind::Commit, String::from(forty)).is_ok());
    let thirty_nine = &forty[..39];
    assert!(matches!(
        RepoReference::new(RefKind::Commit, String::from(thirty_nine)),
        Err(Error::Format)
    ));
    let forty_one = format!("{}0", forty);
    assert!(matches!(
        RepoReference::new(RefKind::Commit, forty_one),
        Err(Error::Format)
    ));
    let not_hex = "0123456789abcdef0123456789abcdef0123456g";
    assert!(matches!(
        RepoReference::new(RefKind::Commit, String::from(not_hex)),
        Err(Error::Format)
    ));
}

#[test]
fn ref_paths_follow_kind() {
    let b = RepoReference::new(RefKind::Branch, String::from("main")).unwrap();
    assert_eq!(b.ref_path(), "refs/heads/main");
    let t = RepoReference::new(RefKind::Tag, String::from("v1.0")).unwrap();
    assert_eq!(t.ref_path(), "refs/tags/v1.0");
    let hash = "0123456789abcdef0123456789abcdef01234567";
    let c = RepoReference::new(RefKind::Commit, String::from(hash)).unwrap();
    assert_eq!(c.ref_path(), hash);
}

#[test]
fn branch_and_tag_values_unconstrained() {
    assert!(RepoReference::new(RefKind::Branch, String::from("x")).is_ok());
    assert!(RepoReference::new(RefKind::Tag, String::new()).is_ok());
}

#[test]
fn idname_strips_scheme() {
    assert_eq!(
        Package::idname_from_remote("https://github.com/foo/bar"),
        "github.com/foo/bar"
    );
    assert_eq!(Package::idname_from_remote("example.org/baz"), "example.org/baz");
}

#[test]
fn install_args_build_a_full_package() {
    let p = Package::from_install_args(
        "foo/bar",
        None,
        None,
        "default",
        false,
        Vec::new(),
        None,
        None,
    );
    assert_eq!(p.remote, "https://github.com/foo/bar");
    assert_eq!(p.idname, "github.com/foo/bar");
    assert_eq!(p.name, "bar");
    assert_eq!(p.category, "default");
    assert!(!p.opt);

    let q = Package::from_install_args(
        "https://example.org/baz",
        Some("renamed"),
        None,
        "colors",
        true,
        vec![String::from("rs")],
        Some(String::from("Cmd")),
        Some(String::from("make")),
    );
    assert_eq!(q.remote, "https://example.org/baz");
    assert_eq!(q.idname, "example.org/baz");
    assert_eq!(q.name, "renamed");
    assert!(q.opt);
}

#[test]
fn package_path_layout() {
    let p = Package::from_install_args(
        "foo/bar",
        None,
        None,
        "default",
        false,
        Vec::new(),
        None,
        None,
    );
    assert_eq!(p.path_under("base"), "base/default/start/bar");
    let mut q = p.clone();
    q.set_opt(true);
    q.set_category("colors");
    assert_eq!(q.path_under("base"), "base/colors/opt/bar");
}

#[test]
fn error_messages_carry_their_payload() {
    assert_eq!(Error::copy_dir("why").message(), "Fail to copy directory: why");
    assert_eq!(Error::build("cc failed").message(), "Fail to build plugin: cc failed");
    assert_eq!(
        Error::plugin_installed("base/x/start/a").message(),
        "Plugin already installed under \"base/x/start/a\""
    );
    assert_eq!(Error::plugin_not_installed("a").message(), "a not installed");
    assert_eq!(Error::Format.message(), "Invalid format");
    assert_eq!(Error::SaveYaml.message(), "Fail to save packfile");
    assert_eq!(Error::LoadYaml.message(), "Fail to load packfile");
    assert_eq!(Error::NoPlugin.message(), "Can not find such plugin");
    assert_eq!(Error::SkipLocal.message(), "Local plugin. Skipping");
    assert_eq!(Error::Editor.message(), "Can not open editor");
    assert_eq!(Error::Io(String::from("io")).message(), "io");
    assert_eq!(Error::Git(String::from("net")).message(), "net");
    assert_eq!(Error::PackFile(String::from("pf")).message(), "pf");
}

#[test]
fn string_helpers_behave() {
    assert!(str_eq("abc", "abc"));
    assert!(!str_eq("abc", "abd"));
    assert!(!str_eq("abc", "ab"));
    assert!(str_starts_with("https://x", "https://"));
    assert!(!str_starts_with("http://x", "https://"));
    assert!(str_contains("github.com/foo", "hub"));
    assert!(!str_contains("github.com/foo", "lab"));
    assert!(str_contains("x", ""));
    assert!(str_le("abc", "abd"));
    assert!(str_le("ab", "abc"));
    assert!(!str_le("b", "abc"));
    assert!(str_le("same", "same"));
    assert_eq!(last_segment("a/b/c"), "c");
    assert_eq!(last_segment("plain"), "plain");
    assert_eq!(last_segment("trailing/"), "");
}
