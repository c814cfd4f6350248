//! The unit of work: one plugin, its identity, placement and sync
//! parameters.
//!
//! `idname` is the stable merge key, derived deterministically from the
//! remote address (the address with its scheme prefix stripped).  The
//! on-disk location is `base / category / (opt ? "opt" : "start") / name`.

use vstd::prelude::*;
use vstd::string::StrSliceExecFns;
use vstd::string::StringExecFns;
use crate::reference::RefView;
use crate::reference::RepoReference;
use crate::strutil::after_last_slash;
use crate::strutil::is_prefix_of;
use crate::strutil::last_segment;
use crate::strutil::str_starts_with;

verus! {

/// Identity, placement and sync parameters of one plugin.
#[derive(Debug)]
pub struct Package {
    /// Directory / display name; unique within a `(category, opt)` bucket.
    pub name: String,
    /// Stable identifier derived from `remote`; the merge key.
    pub idname: String,
    /// Address to fetch from.
    pub remote: String,
    /// Revision to check out; absent means the remote's default branch.
    pub reference: Option<RepoReference>,
    /// Logical grouping.
    pub category: String,
    /// Load on demand (`opt`) instead of eagerly (`start`).
    pub opt: bool,
    /// Filetypes the plugin is loaded for (loader-config metadata).
    pub for_types: Vec<String>,
    /// Command that triggers loading (loader-config metadata).
    pub load_command: Option<String>,
    /// Command run after sync to build the plugin.
    pub build_command: Option<String>,
}

/// Mathematical model of a package: every field as a plain value.
#[verifier::ext_equal]
pub ghost struct PackageView {
    pub name: Seq<char>,
    pub idname: Seq<char>,
    pub remote: Seq<char>,
    pub reference: Option<RefView>,
    pub category: Seq<char>,
    pub opt: bool,
    pub for_types: Seq<Seq<char>>,
    pub load_command: Option<Seq<char>>,
    pub build_command: Option<Seq<char>>,
}

impl View for Package {
    type V = PackageView;

    open spec fn view(&self) -> PackageView {
        PackageView {
            name: self.name@,
            idname: self.idname@,
            remote: self.remote@,
            reference: match self.reference {
                Some(rr) => Some(rr@),
                None => None,
            },
            category: self.category@,
            opt: self.opt,
            for_types: self.for_types@.map_values(|s: String| s@),
            load_command: match self.load_command {
                Some(s) => Some(s@),
                None => None,
            },
            build_command: match self.build_command {
                Some(s) => Some(s@),
                None => None,
            },
        }
    }
}

/// The models of a package sequence.
pub open spec fn views_of(s: Seq<Package>) -> Seq<PackageView> {
    s.map_values(|p: Package| p@)
}

/// The stable identity for a remote address: the address without its
/// `https://` scheme prefix (host plus path), or the address itself if
/// it has none.
pub open spec fn idname_of(remote: Seq<char>) -> Seq<char> {
    if is_prefix_of("https://"@, remote) {
        remote.skip("https://"@.len() as int)
    } else {
        remote
    }
}

/// The clone address for an install argument: taken verbatim when it
/// already names a scheme, otherwise treated as a repository on the
/// default host.
pub open spec fn remote_of(plug: Seq<char>) -> Seq<char> {
    if is_prefix_of("https://"@, plug) {
        plug
    } else {
        "https://github.com/"@ + plug
    }
}

impl PackageView {
    /// Where a package lives under `base`:
    /// `base / category / (opt ? "opt" : "start") / name`.
    pub open spec fn path_under(self, base: Seq<char>) -> Seq<char> {
        base + "/"@ + self.category + "/"@ + (if self.opt {
            "opt"@
        } else {
            "start"@
        }) + "/"@ + self.name
    }
}

/// A persisted entry that is not yet realized on disk adopts the
/// declared intent: category, placement, filetypes and commands of the
/// target; identity, name, remote and reference stay its own.
pub open spec fn declared_onto(p: PackageView, t: PackageView) -> PackageView {
    PackageView {
        category: t.category,
        opt: t.opt,
        for_types: t.for_types,
        load_command: t.load_command,
        build_command: t.build_command,
        ..p
    }
}

/// A re-declared target adopts the sticky placement of an entry that
/// is already installed: its category and opt flag.
pub open spec fn placement_onto(t: PackageView, p: PackageView) -> PackageView {
    PackageView { category: p.category, opt: p.opt, ..t }
}

fn clone_string_vec(v: &Vec<String>) -> (r: Vec<String>)
    ensures
        r@ == v@,
{
    let mut r: Vec<String> = Vec::new();
    let mut i: usize = 0;
    while i < v.len()
        invariant
            i <= v@.len(),
            r@ == v@.take(i as int),
        decreases v@.len() - i,
    {
        r.push(v[i].clone());
        proof {
            assert(v@.take(i + 1 as int) =~= v@.take(i as int).push(v@[i as int]));
        }
        i += 1;
    }
    proof {
        assert(v@.take(v@.len() as int) =~= v@);
    }
    r
}

fn clone_opt_string(o: &Option<String>) -> (r: Option<String>)
    ensures
        r == *o,
{
    match o {
        Some(s) => Some(s.clone()),
        None => None,
    }
}

impl Clone for Package {
    fn clone(&self) -> (r: Self)
        ensures
            r@ == self@,
    {
        let r = Package {
            name: self.name.clone(),
            idname: self.idname.clone(),
            remote: self.remote.clone(),
            reference: match &self.reference {
                Some(rr) => Some(rr.clone()),
                None => None,
            },
            category: self.category.clone(),
            opt: self.opt,
            for_types: clone_string_vec(&self.for_types),
            load_command: clone_opt_string(&self.load_command),
            build_command: clone_opt_string(&self.build_command),
        };
        proof {
            assert(r@ =~= self@);
        }
        r
    }
}

impl Package {
    /// Derive the stable identifier from a remote address.
    pub fn idname_from_remote(remote: &str) -> (r: String)
        ensures
            r@ == idname_of(remote@),
    {
        if str_starts_with(remote, "https://") {
            proof {
                reveal_strlit("https://");
            }
            let len = remote.unicode_len();
            let r = remote.substring_char(8, len).to_owned();
            proof {
                assert(remote@.subrange(8, remote@.len() as int) =~= remote@.skip(8));
            }
            r
        } else {
            remote.to_owned()
        }
    }

    /// Build a package from install-command arguments: `plug` names the
    /// repository, `as_name` overrides the directory name (which
    /// defaults to the last path segment of the remote address).
    pub fn from_install_args(
        plug: &str,
        as_name: Option<&str>,
        reference: Option<RepoReference>,
        category: &str,
        opt: bool,
        for_types: Vec<String>,
        load_command: Option<String>,
        build_command: Option<String>,
    ) -> (p: Package)
        ensures
            p@.remote == remote_of(plug@),
            p@.idname == idname_of(remote_of(plug@)),
            p@.name == (match as_name {
                Some(n) => n@,
                None => after_last_slash(remote_of(plug@)),
            }),
            p.reference == reference,
            p@.category == category@,
            p@.opt == opt,
            p.for_types@ == for_types@,
            p.load_command == load_command,
            p.build_command == build_command,
    {
        let remote: String = if str_starts_with(plug, "https://") {
            plug.to_owned()
        } else {
            "https://github.com/".to_owned().concat(plug)
        };
        let name: String = match as_name {
            Some(n) => n.to_owned(),
            None => last_segment(remote.as_str()),
        };
        let idname = Package::idname_from_remote(remote.as_str());
        Package {
            name,
            idname,
            remote,
            reference,
            category: category.to_owned(),
            opt,
            for_types,
            load_command,
            build_command,
        }
    }

    /// Filesystem location of this package under `base`.
    pub fn path_under(&self, base: &str) -> (r: String)
        ensures
            r@ == self@.path_under(base@),
    {
        let r = base
            .to_owned()
            .concat("/")
            .concat(self.category.as_str())
            .concat("/")
            .concat(if self.opt { "opt" } else { "start" })
            .concat("/")
            .concat(self.name.as_str());
        proof {
            assert(r@ =~= self@.path_under(base@));
        }
        r
    }

    /// Replace the category.
    pub fn set_category(&mut self, category: &str)
        ensures
            final(self)@ == (PackageView { category: category@, ..old(self)@ }),
    {
        self.category = category.to_owned();
        proof {
            assert(self@ =~= (PackageView { category: category@, ..old(self)@ }));
        }
    }

    /// Replace the opt/start placement flag.
    pub fn set_opt(&mut self, opt: bool)
        ensures
            final(self)@ == (PackageView { opt, ..old(self)@ }),
    {
        self.opt = opt;
        proof {
            assert(self@ =~= (PackageView { opt, ..old(self)@ }));
        }
    }

    /// Adopt the declared intent of target `t` (category, placement,
    /// filetypes, commands), keeping identity, name, remote and
    /// reference.
    pub fn adopt_declared(&mut self, t: &Package)
        ensures
            final(self)@ == declared_onto(old(self)@, t@),
    {
        self.category = t.category.clone();
        self.opt = t.opt;
        self.for_types = clone_string_vec(&t.for_types);
        self.load_command = clone_opt_string(&t.load_command);
        self.build_command = clone_opt_string(&t.build_command);
        proof {
            assert(self@ =~= declared_onto(old(self)@, t@));
        }
    }

    /// Adopt the sticky placement (category and opt flag) of the
    /// already-installed entry `p`.
    pub fn adopt_placement(&mut self, p: &Package)
        ensures
            final(self)@ == placement_onto(old(self)@, p@),
    {
        self.category = p.category.clone();
        self.opt = p.opt;
        proof {
            assert(self@ =~= placement_onto(old(self)@, p@));
        }
    }

    /// Replace the filetype list.
    pub fn set_types(&mut self, for_types: Vec<String>)
        ensures
            final(self)@ == (PackageView {
                for_types: for_types@.map_values(|s: String| s@),
                ..old(self)@
            }),
    {
        self.for_types = for_types;
        proof {
            assert(self@ =~= (PackageView {
                for_types: for_types@.map_values(|s: String| s@),
                ..old(self)@
            }));
        }
    }
}

} // verus!
