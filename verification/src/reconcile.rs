//! Reconciliation: merging a declared target package set with the
//! persisted installed set.
//!
//! The merge walks the target list in order.  A target whose identity
//! is already persisted either updates the stale entry (when the entry
//! is not realized on disk, the declared intent wins) or adopts the
//! entry's sticky placement (when it is installed); an unknown target
//! is appended.  After the executor reports its failed identifiers,
//! they are removed, and the final list is sorted by identity for
//! deterministic output.

use vstd::prelude::*;
use crate::error::Error;
use crate::executor::TaskType;
use crate::executor::failed_ids;
use crate::executor::lemma_all_kept_no_failures;
use crate::executor::ids_of;
use crate::executor::spec_keep;
use crate::package::Package;
use crate::package::PackageView;
use crate::package::declared_onto;
use crate::package::placement_onto;
use crate::package::views_of;
use crate::strutil::lemma_lex_antisym;
use crate::strutil::lemma_lex_total;
use crate::strutil::lemma_lex_trans;
use crate::strutil::lex_le;
use crate::strutil::seq_contains;
use crate::strutil::str_contains;
use crate::strutil::str_eq;
use crate::strutil::str_le;

verus! {

broadcast use
    vstd::seq_lib::group_to_multiset_ensures,
    vstd::seq_lib::to_multiset_insert,
    vstd::seq_lib::to_multiset_remove,
    vstd::multiset::group_multiset_axioms;


/// First index in `s` whose identity is `id`, or -1.
pub open spec fn index_of_id(s: Seq<PackageView>, id: Seq<char>) -> int
    decreases s.len(),
{
    if s.len() == 0 {
        -1
    } else if s.first().idname == id {
        0
    } else {
        let r = index_of_id(s.drop_first(), id);
        if r < 0 {
            -1
        } else {
            r + 1
        }
    }
}

/// `index_of_id` finds the first match, and -1 exactly when there is
/// none.
pub proof fn lemma_index_of_id(s: Seq<PackageView>, id: Seq<char>)
    ensures
        index_of_id(s, id) == -1 || 0 <= index_of_id(s, id) < s.len(),
        index_of_id(s, id) == -1 ==> forall|j: int| 0 <= j < s.len() ==> s[j].idname != id,
        0 <= index_of_id(s, id) ==> s[index_of_id(s, id)].idname == id && forall|j: int|
            0 <= j < index_of_id(s, id) ==> s[j].idname != id,
    decreases s.len(),
{
    if s.len() > 0 && s.first().idname != id {
        lemma_index_of_id(s.drop_first(), id);
        assert forall|j: int| 1 <= j < s.len() implies s.drop_first()[j - 1] == s[j] by {}
    }
}

/// One merge step: how the persisted list, its installed flags and the
/// operand handed to the executor come out of one target entry.
pub open spec fn merge_step(ps: Seq<PackageView>, fl: Seq<bool>, t: PackageView) -> (
    Seq<PackageView>,
    Seq<bool>,
    PackageView,
) {
    let i = index_of_id(ps, t.idname);
    if 0 <= i {
        if !fl[i] {
            let a = declared_onto(ps[i], t);
            (ps.update(i, a), fl, a)
        } else {
            (ps, fl, placement_onto(t, ps[i]))
        }
    } else {
        (ps.push(t), fl.push(false), t)
    }
}

/// Fold of `merge_step` over the whole target list, collecting the
/// operands in target order.
pub open spec fn merge_from(ps: Seq<PackageView>, fl: Seq<bool>, ts: Seq<PackageView>) -> (
    Seq<PackageView>,
    Seq<bool>,
    Seq<PackageView>,
)
    decreases ts.len(),
{
    if ts.len() == 0 {
        (ps, fl, Seq::empty())
    } else {
        let s = merge_step(ps, fl, ts.first());
        let r = merge_from(s.0, s.1, ts.drop_first());
        (r.0, r.1, seq![s.2] + r.2)
    }
}

/// The whole reconciliation: an empty target list means "operate on
/// everything persisted, unchanged"; otherwise the merge fold runs.
pub open spec fn reconcile_spec(ps: Seq<PackageView>, fl: Seq<bool>, ts: Seq<PackageView>) -> (
    Seq<PackageView>,
    Seq<bool>,
    Seq<PackageView>,
) {
    if ts.len() == 0 {
        (ps, fl, ps)
    } else {
        merge_from(ps, fl, ts)
    }
}

/// Result of reconciling: the merged persisted list, the installed
/// flag of each entry (appended entries are not yet on disk), and the
/// operand list the executor runs over.
pub struct Reconciled {
    pub persisted: Vec<Package>,
    pub installed: Vec<bool>,
    pub operands: Vec<Package>,
}

fn clone_packages(v: &Vec<Package>) -> (r: Vec<Package>)
    ensures
        views_of(r@) == views_of(v@),
{
    let mut r: Vec<Package> = Vec::new();
    let mut i: usize = 0;
    while i < v.len()
        invariant
            i <= v@.len(),
            r@.len() == i,
            views_of(r@) == views_of(v@).take(i as int),
        decreases v@.len() - i,
    {
        r.push(v[i].clone());
        proof {
            let vv = views_of(v@);
            assert forall|j: int| 0 <= j < i + 1 implies views_of(r@)[j] == vv.take(i + 1 as int)[j]
            by {
                assert(views_of(r@)[j] == r@[j]@);
                if j < i {
                    assert(vv.take(i as int)[j] == vv[j]);
                }
            }
            assert(views_of(r@) =~= vv.take(i + 1 as int));
        }
        i += 1;
    }
    proof {
        assert(views_of(v@).take(v@.len() as int) =~= views_of(v@));
    }
    r
}

/// First index of the working list carrying identity `id`, if any.
fn find_by_id(packs: &Vec<Package>, id: &String) -> (r: Option<usize>)
    ensures
        r matches Some(i) ==> i < packs@.len() && i == index_of_id(views_of(packs@), id@),
        r is None ==> index_of_id(views_of(packs@), id@) == -1,
{
    proof {
        assert(views_of(packs@).len() == packs@.len());
        lemma_index_of_id(views_of(packs@), id@);
    }
    let mut j: usize = 0;
    while j < packs.len()
        invariant
            j <= packs@.len(),
            views_of(packs@).len() == packs@.len(),
            forall|l: int| 0 <= l < j ==> views_of(packs@)[l].idname != id@,
        decreases packs@.len() - j,
    {
        if str_eq(packs[j].idname.as_str(), id.as_str()) {
            proof {
                let s = views_of(packs@);
                lemma_index_of_id(s, id@);
                let idx = index_of_id(s, id@);
                assert(s.len() == packs@.len());
                assert(s[j as int] == packs@[j as int]@);
                assert(s[j as int].idname == id@);
                if idx == -1 {
                    assert(s[j as int].idname != id@);
                } else if idx < j {
                    assert(s[idx].idname != id@);
                } else if idx > j {
                    assert(s[j as int].idname != id@);
                }
            }
            return Some(j);
        }
        j += 1;
    }
    None
}

/// Look a package up by its identity: the index of the first entry
/// carrying `id@`, or the "not installed" error reported for an
/// unknown name.  Callers that delete can validate every name through
/// this before touching the first directory.
pub fn lookup_by_id(packs: &Vec<Package>, id: &String) -> (r: Result<usize, Error>)
    ensures
        r matches Ok(i) ==> i < packs@.len() && i == index_of_id(views_of(packs@), id@),
        r matches Err(e) ==> index_of_id(views_of(packs@), id@) == -1 && e is PluginNotInstalled
            && e.spec_message() == id@ + " not installed"@,
{
    match find_by_id(packs, id) {
        Some(i) => Ok(i),
        None => Err(Error::plugin_not_installed(id.as_str())),
    }
}

/// Merge the declared `target` set with the `persisted` set.
///
/// `installed` says, entry for entry, whether the persisted package is
/// currently realized on disk.  With an empty target the entire
/// persisted list is the operand set and nothing changes; otherwise
/// each target either updates its stale persisted entry, defers to an
/// installed entry's placement, or is appended as new.
pub fn reconcile(persisted: Vec<Package>, installed: Vec<bool>, target: Vec<Package>) -> (r:
    Reconciled)
    requires
        installed@.len() == persisted@.len(),
    ensures
        views_of(r.persisted@) == reconcile_spec(views_of(persisted@), installed@, views_of(target@)).0,
        r.installed@ == reconcile_spec(views_of(persisted@), installed@, views_of(target@)).1,
        views_of(r.operands@) == reconcile_spec(views_of(persisted@), installed@, views_of(target@)).2,
        r.installed@.len() == r.persisted@.len(),
{
    let ghost ps0 = views_of(persisted@);
    let ghost fl0 = installed@;
    let ghost ts0 = views_of(target@);
    if target.len() == 0 {
        let operands = clone_packages(&persisted);
        return Reconciled { persisted, installed, operands };
    }
    let mut working = persisted;
    let mut inst = installed;
    let mut operands: Vec<Package> = Vec::new();
    proof {
        assert(ts0.skip(0) =~= ts0);
        assert(views_of(operands@) =~= Seq::<PackageView>::empty());
        assert(views_of(operands@) + merge_from(ps0, fl0, ts0).2 =~= merge_from(ps0, fl0, ts0).2);
    }
    let mut k: usize = 0;
    while k < target.len()
        invariant
            k <= target@.len(),
            target@.len() == ts0.len(),
            ts0 == views_of(target@),
            inst@.len() == working@.len(),
            views_of(working@).len() == working@.len(),
            merge_from(ps0, fl0, ts0).0 == merge_from(views_of(working@), inst@, ts0.skip(k as int)).0,
            merge_from(ps0, fl0, ts0).1 == merge_from(views_of(working@), inst@, ts0.skip(k as int)).1,
            merge_from(ps0, fl0, ts0).2 == views_of(operands@) + merge_from(
                views_of(working@),
                inst@,
                ts0.skip(k as int),
            ).2,
        decreases target@.len() - k,
    {
        let ghost cur_ps = views_of(working@);
        let ghost cur_fl = inst@;
        let ghost rest = ts0.skip(k as int);
        proof {
            assert(rest.len() > 0);
            assert(rest.first() == ts0[k as int]);
            assert(rest.drop_first() =~= ts0.skip(k + 1 as int));
        }
        let mut t = target[k].clone();
        proof {
            assert(t@ == ts0[k as int]);
        }
        let found = find_by_id(&working, &t.idname);
        let ghost step = merge_step(cur_ps, cur_fl, ts0[k as int]);
        let ghost ops_before = views_of(operands@);
        match found {
            Some(i) => {
                if !inst[i] {
                    let mut p = working.remove(i);
                    p.adopt_declared(&t);
                    let ghost a = declared_onto(cur_ps[i as int], ts0[k as int]);
                    proof {
                        assert(p@ == a);
                        assert(step.0 == cur_ps.update(i as int, a));
                        assert(step.2 == a);
                    }
                    working.insert(i, p.clone());
                    operands.push(p);
                    proof {
                        assert(views_of(working@) =~= cur_ps.update(i as int, a));
                        assert(views_of(operands@) =~= ops_before.push(a));
                    }
                } else {
                    t.adopt_placement(&working[i]);
                    proof {
                        assert(step.0 == cur_ps);
                        assert(step.2 == placement_onto(ts0[k as int], cur_ps[i as int]));
                    }
                    operands.push(t);
                    proof {
                        assert(views_of(operands@) =~= ops_before.push(step.2));
                    }
                }
            },
            None => {
                proof {
                    assert(step.0 == cur_ps.push(ts0[k as int]));
                    assert(step.2 == ts0[k as int]);
                }
                working.push(t.clone());
                inst.push(false);
                operands.push(t);
                proof {
                    assert(views_of(working@) =~= cur_ps.push(ts0[k as int]));
                    assert(views_of(operands@) =~= ops_before.push(step.2));
                }
            },
        }
        proof {
            assert(views_of(working@) == step.0);
            assert(inst@ == step.1);
            assert(views_of(operands@) == ops_before.push(step.2));
            let r = merge_from(step.0, step.1, rest.drop_first());
            assert(merge_from(cur_ps, cur_fl, rest).0 == r.0);
            assert(merge_from(cur_ps, cur_fl, rest).1 == r.1);
            assert(merge_from(cur_ps, cur_fl, rest).2 == seq![step.2] + r.2);
            assert(ops_before.push(step.2) + r.2 =~= ops_before + (seq![step.2] + r.2));
        }
        k += 1;
    }
    proof {
        assert(ts0.skip(ts0.len() as int) =~= Seq::<PackageView>::empty());
    }
    Reconciled { persisted: working, installed: inst, operands }
}

/// Entries whose identity is not among `bad`, in order.
pub open spec fn remove_ids(s: Seq<PackageView>, bad: Seq<Seq<char>>) -> Seq<PackageView>
    decreases s.len(),
{
    if s.len() == 0 {
        s
    } else {
        remove_ids(s.drop_last(), bad) + (if bad.contains(s.last().idname) {
            Seq::empty()
        } else {
            seq![s.last()]
        })
    }
}

/// Whether `id@` is one of the identifiers in `bad`.
fn contains_id(bad: &Vec<String>, id: &String) -> (r: bool)
    ensures
        r == bad@.map_values(|s: String| s@).contains(id@),
{
    let ghost bv = bad@.map_values(|s: String| s@);
    let mut i: usize = 0;
    while i < bad.len()
        invariant
            i <= bad@.len(),
            bv == bad@.map_values(|s: String| s@),
            bv.len() == bad@.len(),
            forall|l: int| 0 <= l < i ==> bv[l] != id@,
        decreases bad@.len() - i,
    {
        if str_eq(bad[i].as_str(), id.as_str()) {
            proof {
                assert(bv[i as int] == id@);
            }
            return true;
        }
        i += 1;
    }
    false
}

/// Drop every package whose identity the executor reported as failed.
pub fn remove_failed(packs: Vec<Package>, failed: &Vec<String>) -> (r: Vec<Package>)
    ensures
        views_of(r@) == remove_ids(views_of(packs@), failed@.map_values(|s: String| s@)),
{
    let ghost bad = failed@.map_values(|s: String| s@);
    let ghost all = views_of(packs@);
    let mut r: Vec<Package> = Vec::new();
    let mut i: usize = 0;
    while i < packs.len()
        invariant
            i <= packs@.len(),
            all == views_of(packs@),
            all.len() == packs@.len(),
            bad == failed@.map_values(|s: String| s@),
            views_of(r@) == remove_ids(all.take(i as int), bad),
        decreases packs@.len() - i,
    {
        let ghost before = views_of(r@);
        if !contains_id(failed, &packs[i].idname) {
            r.push(packs[i].clone());
        }
        proof {
            let t1 = all.take(i + 1 as int);
            assert(t1.drop_last() =~= all.take(i as int));
            assert(t1.last() == all[i as int]);
            assert(all[i as int].idname == packs@[i as int].idname@);
            if bad.contains(all[i as int].idname) {
                assert(views_of(r@) =~= remove_ids(t1, bad));
            } else {
                assert(views_of(r@) =~= before.push(all[i as int]));
                assert(remove_ids(t1, bad) =~= remove_ids(t1.drop_last(), bad).push(t1.last()));
            }
        }
        i += 1;
    }
    proof {
        assert(all.take(all.len() as int) =~= all);
    }
    r
}

/// Sorted by identity, lexicographically by code point.
pub open spec fn sorted_by_idname(s: Seq<PackageView>) -> bool {
    forall|i: int, j: int| 0 <= i < j < s.len() ==> lex_le(#[trigger] s[i].idname, #[trigger] s[j].idname)
}

/// Sort packages by identity for deterministic, diff-friendly output.
/// The result holds exactly the input packages.
pub fn sort_by_idname(packs: Vec<Package>) -> (r: Vec<Package>)
    ensures
        views_of(r@).to_multiset() == views_of(packs@).to_multiset(),
        sorted_by_idname(views_of(r@)),
{
    let mut input = packs;
    let mut out: Vec<Package> = Vec::new();
    proof {
        assert(views_of(out@) =~= Seq::<PackageView>::empty());
        assert(views_of(out@).to_multiset().add(views_of(input@).to_multiset()) =~= views_of(
            input@,
        ).to_multiset());
    }
    while input.len() > 0
        invariant
            views_of(input@).len() == input@.len(),
            views_of(out@).len() == out@.len(),
            views_of(out@).to_multiset().add(views_of(input@).to_multiset()) == views_of(
                packs@,
            ).to_multiset(),
            sorted_by_idname(views_of(out@)),
        decreases input@.len(),
    {
        let ghost in_before = views_of(input@);
        let ghost out_before = views_of(out@);
        let p = input.remove(0);
        proof {
            assert(views_of(input@) =~= in_before.remove(0));
            assert(p@ == in_before[0]);
        }
        let mut j: usize = 0;
        while j < out.len() && str_le(out[j].idname.as_str(), p.idname.as_str())
            invariant
                j <= out@.len(),
                out_before == views_of(out@),
                out_before.len() == out@.len(),
                forall|l: int| 0 <= l < j ==> lex_le(#[trigger] out_before[l].idname, p@.idname),
            decreases out@.len() - j,
        {
            j += 1;
        }
        let ghost jj = j as int;
        let ghost stops = jj < out_before.len();
        proof {
            if stops {
                assert(!lex_le(out_before[jj].idname, p@.idname));
                lemma_lex_total(out_before[jj].idname, p@.idname);
            }
        }
        out.insert(j, p);
        proof {
            let nv = views_of(out@);
            assert(nv =~= out_before.insert(jj, p@));
            out_before.insert_ensures(jj, p@);
            assert forall|a: int, b: int| 0 <= a < b < nv.len() implies lex_le(
                #[trigger] nv[a].idname,
                #[trigger] nv[b].idname,
            ) by {
                if b < jj {
                    assert(nv[a] == out_before[a] && nv[b] == out_before[b]);
                } else if a < jj && b == jj {
                    assert(nv[a] == out_before[a] && nv[b] == p@);
                } else if a < jj && b > jj {
                    assert(nv[a] == out_before[a] && nv[b] == out_before[b - 1]);
                    if b - 1 > a {
                        assert(lex_le(out_before[a].idname, out_before[b - 1].idname));
                    }
                } else if a == jj {
                    assert(nv[a] == p@ && nv[b] == out_before[b - 1]);
                    assert(stops);
                    assert(lex_le(p@.idname, out_before[jj].idname));
                    if b - 1 > jj {
                        assert(lex_le(out_before[jj].idname, out_before[b - 1].idname));
                        lemma_lex_trans(p@.idname, out_before[jj].idname, out_before[b - 1].idname);
                    }
                } else {
                    assert(nv[a] == out_before[a - 1] && nv[b] == out_before[b - 1]);
                }
            }
            // multiset bookkeeping: one package moved from input to out
            assert(in_before.contains(in_before[0]));
            assert(in_before.to_multiset().count(p@) > 0);
            assert(nv.to_multiset() == out_before.to_multiset().insert(p@));
            assert(views_of(input@).to_multiset() == in_before.to_multiset().remove(p@));
            assert(nv.to_multiset().add(views_of(input@).to_multiset()) =~= out_before.to_multiset()
                .add(in_before.to_multiset()));
        }
    }
    out
}

/// A package is skipped when its identity contains one of the skip
/// strings.
pub open spec fn spec_skipped(id: Seq<char>, skip: Seq<Seq<char>>) -> bool {
    exists|k: int| 0 <= k < skip.len() && seq_contains(id, #[trigger] skip[k])
}

/// The update batch: with no explicit names, everything persisted
/// except skipped identities; with names, exactly the named packages.
pub open spec fn select_update(
    ps: Seq<PackageView>,
    plugins: Seq<Seq<char>>,
    skip: Seq<Seq<char>>,
) -> Seq<PackageView>
    decreases ps.len(),
{
    if ps.len() == 0 {
        ps
    } else {
        let keep = if plugins.len() == 0 {
            !spec_skipped(ps.last().idname, skip)
        } else {
            plugins.contains(ps.last().idname)
        };
        select_update(ps.drop_last(), plugins, skip) + (if keep {
            seq![ps.last()]
        } else {
            Seq::empty()
        })
    }
}

/// Whether one of the skip strings occurs in `id@`.
fn skipped_exec(id: &String, skip: &Vec<String>) -> (r: bool)
    ensures
        r == spec_skipped(id@, skip@.map_values(|s: String| s@)),
{
    let ghost sv = skip@.map_values(|s: String| s@);
    let mut k: usize = 0;
    while k < skip.len()
        invariant
            k <= skip@.len(),
            sv == skip@.map_values(|s: String| s@),
            sv.len() == skip@.len(),
            forall|l: int| 0 <= l < k ==> !seq_contains(id@, #[trigger] sv[l]),
        decreases skip@.len() - k,
    {
        if str_contains(id.as_str(), skip[k].as_str()) {
            proof {
                assert(seq_contains(id@, sv[k as int]));
            }
            return true;
        }
        k += 1;
    }
    false
}

/// Build the batch an update run operates on: all persisted packages
/// minus skipped identities when no names are given, else the named
/// ones.
pub fn select_for_update(packs: &Vec<Package>, plugins: &Vec<String>, skip: &Vec<String>) -> (r:
    Vec<Package>)
    ensures
        views_of(r@) == select_update(
            views_of(packs@),
            plugins@.map_values(|s: String| s@),
            skip@.map_values(|s: String| s@),
        ),
{
    let ghost all = views_of(packs@);
    let ghost plv = plugins@.map_values(|s: String| s@);
    let ghost skv = skip@.map_values(|s: String| s@);
    let mut r: Vec<Package> = Vec::new();
    let mut i: usize = 0;
    while i < packs.len()
        invariant
            i <= packs@.len(),
            all == views_of(packs@),
            all.len() == packs@.len(),
            plv == plugins@.map_values(|s: String| s@),
            skv == skip@.map_values(|s: String| s@),
            views_of(r@) == select_update(all.take(i as int), plv, skv),
        decreases packs@.len() - i,
    {
        let ghost before = views_of(r@);
        let keep = if plugins.len() == 0 {
            !skipped_exec(&packs[i].idname, skip)
        } else {
            contains_id(plugins, &packs[i].idname)
        };
        if keep {
            r.push(packs[i].clone());
        }
        proof {
            let t1 = all.take(i + 1 as int);
            assert(t1.drop_last() =~= all.take(i as int));
            assert(t1.last() == all[i as int]);
            assert(all[i as int].idname == packs@[i as int].idname@);
            if keep {
                assert(views_of(r@) =~= before.push(all[i as int]));
                assert(select_update(t1, plv, skv) =~= select_update(t1.drop_last(), plv, skv).push(
                    t1.last(),
                ));
            } else {
                assert(views_of(r@) =~= select_update(t1, plv, skv));
            }
        }
        i += 1;
    }
    proof {
        assert(all.take(all.len() as int) =~= all);
    }
    r
}

/// No two packages share an identity.
pub open spec fn unique_ids(s: Seq<PackageView>) -> bool {
    forall|i: int, j: int|
        0 <= i < j < s.len() ==> (#[trigger] s[i].idname) != (#[trigger] s[j].idname)
}

proof fn lemma_merge_ids(ps: Seq<PackageView>, fl: Seq<bool>, ts: Seq<PackageView>)
    requires
        fl.len() == ps.len(),
        unique_ids(ps),
    ensures
        merge_from(ps, fl, ts).1.len() == merge_from(ps, fl, ts).0.len(),
        unique_ids(merge_from(ps, fl, ts).0),
        ids_of(merge_from(ps, fl, ts).0).to_set() == ids_of(ps).to_set().union(
            ids_of(ts).to_set(),
        ),
    decreases ts.len(),
{
    broadcast use vstd::set::group_set_axioms;

    if ts.len() == 0 {
        assert(ids_of(ts).to_set() =~= Set::<Seq<char>>::empty());
        assert(ids_of(ps).to_set().union(ids_of(ts).to_set()) =~= ids_of(ps).to_set());
    } else {
        let t = ts.first();
        lemma_index_of_id(ps, t.idname);
        let i = index_of_id(ps, t.idname);
        let s = merge_step(ps, fl, t);
        if 0 <= i {
            if !fl[i] {
                assert(ids_of(s.0) =~= ids_of(ps));
            } else {
                assert(s.0 == ps);
            }
            assert(ids_of(ps)[i] == t.idname);
            assert(ids_of(ps).contains(t.idname));
            assert(ids_of(s.0).to_set() =~= ids_of(ps).to_set().insert(t.idname));
            assert forall|a: int, b: int| 0 <= a < b < s.0.len() implies (
            #[trigger] s.0[a].idname) != (#[trigger] s.0[b].idname) by {
                assert(s.0[a].idname == ids_of(s.0)[a] && s.0[b].idname == ids_of(s.0)[b]);
                assert(ids_of(ps)[a] == ps[a].idname && ids_of(ps)[b] == ps[b].idname);
            }
        } else {
            assert(ids_of(s.0) =~= ids_of(ps).push(t.idname));
            ids_of(ps).lemma_push_to_set_commute(t.idname);
            assert(ids_of(s.0).to_set() =~= ids_of(ps).to_set().insert(t.idname));
            assert forall|a: int, b: int| 0 <= a < b < s.0.len() implies (
            #[trigger] s.0[a].idname) != (#[trigger] s.0[b].idname) by {
                if b == s.0.len() - 1 {
                    assert(s.0[a].idname == ps[a].idname);
                    assert(ps[a].idname != t.idname);
                } else {
                    assert(s.0[a].idname == ps[a].idname && s.0[b].idname == ps[b].idname);
                }
            }
        }
        lemma_merge_ids(s.0, s.1, ts.drop_first());
        assert forall|x: Seq<char>|
            ids_of(ts).to_set().contains(x) <==> (x == t.idname || ids_of(
                ts.drop_first(),
            ).to_set().contains(x)) by {
            if ids_of(ts).contains(x) {
                let k = choose|k: int| 0 <= k < ids_of(ts).len() && ids_of(ts)[k] == x;
                if k > 0 {
                    assert(ids_of(ts.drop_first())[k - 1] == x);
                }
            }
            if x == t.idname {
                assert(ids_of(ts)[0] == x);
            }
            if ids_of(ts.drop_first()).contains(x) {
                let k = choose|k: int|
                    0 <= k < ids_of(ts.drop_first()).len() && ids_of(ts.drop_first())[k] == x;
                assert(ids_of(ts)[k + 1] == x);
            }
        }
        assert(ids_of(merge_from(ps, fl, ts).0).to_set() =~= ids_of(ps).to_set().union(
            ids_of(ts).to_set(),
        ));
    }
}

/// The reconciled persisted list holds exactly one entry per distinct
/// identity occurring in the persisted or the target set: identities
/// stay unique, and the identity set of the output is the union of the
/// two inputs' identity sets.
pub proof fn lemma_reconcile_one_entry_per_id(
    ps: Seq<PackageView>,
    fl: Seq<bool>,
    ts: Seq<PackageView>,
)
    requires
        fl.len() == ps.len(),
        unique_ids(ps),
    ensures
        unique_ids(reconcile_spec(ps, fl, ts).0),
        ids_of(reconcile_spec(ps, fl, ts).0).to_set() == ids_of(ps).to_set().union(
            ids_of(ts).to_set(),
        ),
{
    broadcast use vstd::set::group_set_axioms;

    if ts.len() == 0 {
        assert(ids_of(ts).to_set() =~= Set::<Seq<char>>::empty());
        assert(ids_of(ps).to_set().union(ids_of(ts).to_set()) =~= ids_of(ps).to_set());
    } else {
        lemma_merge_ids(ps, fl, ts);
    }
}

proof fn lemma_merge_all_installed(ps: Seq<PackageView>, fl: Seq<bool>, ts: Seq<PackageView>)
    requires
        fl.len() == ps.len(),
        forall|i: int| 0 <= i < fl.len() ==> fl[i],
        forall|k: int| 0 <= k < ts.len() ==> ids_of(ps).contains(#[trigger] ts[k].idname),
    ensures
        merge_from(ps, fl, ts).0 == ps,
        merge_from(ps, fl, ts).1 == fl,
    decreases ts.len(),
{
    if ts.len() > 0 {
        let t = ts.first();
        lemma_index_of_id(ps, t.idname);
        let i = index_of_id(ps, t.idname);
        assert(ids_of(ps).contains(ts[0].idname));
        if i == -1 {
            let k = choose|k: int| 0 <= k < ids_of(ps).len() && ids_of(ps)[k] == t.idname;
            assert(ps[k].idname == t.idname);
            assert(false);
        }
        assert(fl[i]);
        assert forall|k: int| 0 <= k < ts.drop_first().len() implies ids_of(ps).contains(
            #[trigger] ts.drop_first()[k].idname,
        ) by {
            assert(ts.drop_first()[k] == ts[k + 1]);
        }
        lemma_merge_all_installed(ps, fl, ts.drop_first());
    }
}

proof fn lemma_remove_none(s: Seq<PackageView>, bad: Seq<Seq<char>>)
    requires
        forall|k: int| 0 <= k < s.len() ==> !bad.contains(#[trigger] s[k].idname),
    ensures
        remove_ids(s, bad) == s,
    decreases s.len(),
{
    if s.len() > 0 {
        lemma_remove_none(s.drop_last(), bad);
        assert(remove_ids(s, bad) =~= s);
    }
}

/// Installing the same target twice is idempotent: when every target
/// identity is already persisted, every persisted entry is realized on
/// disk, and every outcome of the re-run is kept by the install policy
/// (as "already installed" re-runs are), the persisted set that
/// reconciliation and failure-removal produce is the input set,
/// unchanged.
pub proof fn lemma_install_idempotent(
    ps: Seq<PackageView>,
    fl: Seq<bool>,
    ts: Seq<PackageView>,
    outs: Seq<Result<(), Error>>,
)
    requires
        fl.len() == ps.len(),
        forall|i: int| 0 <= i < fl.len() ==> fl[i],
        forall|k: int| 0 <= k < ts.len() ==> ids_of(ps).contains(#[trigger] ts[k].idname),
        outs.len() == ids_of(reconcile_spec(ps, fl, ts).2).len(),
        forall|k: int|
            0 <= k < outs.len() ==> spec_keep(TaskType::Install, #[trigger] outs[k]),
    ensures
        remove_ids(
            reconcile_spec(ps, fl, ts).0,
            failed_ids(TaskType::Install, ids_of(reconcile_spec(ps, fl, ts).2), outs),
        ) == ps,
{
    if ts.len() > 0 {
        lemma_merge_all_installed(ps, fl, ts);
    }
    assert(reconcile_spec(ps, fl, ts).0 == ps);
    lemma_all_kept_no_failures(TaskType::Install, ids_of(reconcile_spec(ps, fl, ts).2), outs);
    lemma_remove_none(ps, Seq::<Seq<char>>::empty());
}

/// Sorting by identity is canonical for unique identities: two sorted
/// lists holding the same packages are the same list.  Together with
/// the idempotence of the merge, a re-run's sorted persisted output is
/// the previous run's output, unchanged.
pub proof fn lemma_sorted_unique_canonical(a: Seq<PackageView>, b: Seq<PackageView>)
    requires
        a.to_multiset() == b.to_multiset(),
        sorted_by_idname(a),
        sorted_by_idname(b),
        unique_ids(a),
    ensures
        a == b,
    decreases a.len(),
{
    assert(a.to_multiset().len() == a.len());
    assert(b.to_multiset().len() == b.len());
    if a.len() == 0 {
        assert(a =~= b);
    } else {
        let la = a.last();
        let lb = b.last();
        assert(a[a.len() - 1] == la);
        assert(a.contains(la));
        assert(b.to_multiset().count(la) > 0);
        assert(b.contains(la));
        let k = choose|k: int| 0 <= k < b.len() && b[k] == la;
        assert(b[b.len() - 1] == lb);
        assert(b.contains(lb));
        assert(a.to_multiset().count(lb) > 0);
        assert(a.contains(lb));
        let m = choose|m: int| 0 <= m < a.len() && a[m] == lb;
        if k < b.len() - 1 {
            assert(lex_le(b[k].idname, b[b.len() - 1].idname));
        } else {
            lemma_lex_total(la.idname, lb.idname);
        }
        assert(lex_le(la.idname, lb.idname));
        if m < a.len() - 1 {
            assert(lex_le(a[m].idname, a[a.len() - 1].idname));
        } else {
            lemma_lex_total(lb.idname, la.idname);
        }
        assert(lex_le(lb.idname, la.idname));
        lemma_lex_antisym(la.idname, lb.idname);
        if m < a.len() - 1 {
            assert(a[m].idname != a[a.len() - 1].idname);
            assert(false);
        }
        assert(la == lb);
        let a2 = a.drop_last();
        let b2 = b.drop_last();
        assert(a =~= a2.push(la));
        assert(b =~= b2.push(lb));
        assert(a2.push(la).to_multiset() == a2.to_multiset().insert(la));
        assert(b2.push(lb).to_multiset() == b2.to_multiset().insert(lb));
        assert forall|x: PackageView| a2.to_multiset().count(x) == b2.to_multiset().count(x) by {
            assert(a.to_multiset().count(x) == a2.to_multiset().insert(la).count(x));
            assert(b.to_multiset().count(x) == b2.to_multiset().insert(la).count(x));
            if x == la {
                assert(a2.to_multiset().insert(la).count(x) == a2.to_multiset().count(x) + 1);
                assert(b2.to_multiset().insert(la).count(x) == b2.to_multiset().count(x) + 1);
            } else {
                assert(a2.to_multiset().insert(la).count(x) == a2.to_multiset().count(x));
                assert(b2.to_multiset().insert(la).count(x) == b2.to_multiset().count(x));
            }
        }
        assert(a2.to_multiset() =~= b2.to_multiset());
        assert forall|i: int, j: int| 0 <= i < j < a2.len() implies lex_le(
            #[trigger] a2[i].idname,
            #[trigger] a2[j].idname,
        ) by {
            assert(a2[i] == a[i] && a2[j] == a[j]);
        }
        assert forall|i: int, j: int| 0 <= i < j < b2.len() implies lex_le(
            #[trigger] b2[i].idname,
            #[trigger] b2[j].idname,
        ) by {
            assert(b2[i] == b[i] && b2[j] == b[j]);
        }
        assert forall|i: int, j: int| 0 <= i < j < a2.len() implies (#[trigger] a2[i].idname) != (
        #[trigger] a2[j].idname) by {
            assert(a2[i] == a[i] && a2[j] == a[j]);
        }
        lemma_sorted_unique_canonical(a2, b2);
        assert(a =~= b);
    }
}

/// Two packages that would occupy the same directory.
pub open spec fn same_bucket(a: PackageView, b: PackageView) -> bool {
    a.category == b.category && a.opt == b.opt && a.name == b.name
}

/// Find two distinct packages aliasing one on-disk path, if any: such
/// a pair must be rejected before running concurrent installs over it.
pub fn find_path_collision(packs: &Vec<Package>) -> (r: Option<(usize, usize)>)
    ensures
        r matches Some((i, j)) ==> i < j < packs@.len() && same_bucket(
            views_of(packs@)[i as int],
            views_of(packs@)[j as int],
        ),
        r is None ==> forall|i: int, j: int|
            0 <= i < j < packs@.len() ==> !same_bucket(
                #[trigger] views_of(packs@)[i],
                #[trigger] views_of(packs@)[j],
            ),
{
    let ghost all = views_of(packs@);
    let mut i: usize = 0;
    while i < packs.len()
        invariant
            i <= packs@.len(),
            all == views_of(packs@),
            all.len() == packs@.len(),
            forall|a: int, b: int| 0 <= a < b < packs@.len() && a < i ==> !same_bucket(
                #[trigger] all[a],
                #[trigger] all[b],
            ),
        decreases packs@.len() - i,
    {
        let mut j: usize = i + 1;
        while j < packs.len()
            invariant
                i < j <= packs@.len() || (i + 1 == j && j <= packs@.len()),
                i < packs@.len(),
                all == views_of(packs@),
                all.len() == packs@.len(),
                forall|b: int| i < b < j ==> !same_bucket(all[i as int], #[trigger] all[b]),
            decreases packs@.len() - j,
        {
            if str_eq(packs[i].category.as_str(), packs[j].category.as_str()) && packs[i].opt
                == packs[j].opt && str_eq(packs[i].name.as_str(), packs[j].name.as_str()) {
                return Some((i, j));
            }
            j += 1;
        }
        i += 1;
    }
    None
}

} // verus!
