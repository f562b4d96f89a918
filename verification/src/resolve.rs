//! Resolution Engine: decides, for each catalog entry, whether it is
//! redundant, and expands each removal decision into the deterministic set
//! of dependent files to remove (the primary file plus its sidecars).
//!
//! Presence of either suffixed alternate (`-C` or `-UC`) marks the
//! unsuffixed original as superseded. When both alternates exist, the `-UC`
//! variant wins: the original and the `-C` variant are both removed.

use vstd::prelude::*;
use crate::catalog::Catalog;
use crate::names::{key_c, key_uc, stem_of, split_name, derive_keys};
use crate::sidecar::{sidecar_names, parent_of, join, get_file_name, parent_dir, join_path};

verus! {

/// The outcome of resolving one catalog entry.
#[derive(Clone, Copy, Debug, PartialEq, Eq, Structural)]
pub enum Decision {
    /// Neither alternate-version key exists: the entry is untouched.
    Keep,
    /// Exactly one alternate key exists: the entry is redundant.
    RemovePrimary,
    /// Both alternate keys exist: the entry and the `-C` variant are both
    /// redundant; the `-UC` variant is kept.
    RemoveConflictingVariant,
}

/// The decision for an entry named `name` against catalog mapping `m`.
pub open spec fn decision_of(name: Seq<char>, m: Map<Seq<char>, Seq<char>>) -> Decision {
    if m.contains_key(key_c(name)) && m.contains_key(key_uc(name)) {
        Decision::RemoveConflictingVariant
    } else if m.contains_key(key_c(name)) || m.contains_key(key_uc(name)) {
        Decision::RemovePrimary
    } else {
        Decision::Keep
    }
}

/// The removal targets for one redundant file: the file itself, then its
/// four sidecars, each resolved in the file's parent directory.
pub open spec fn plan_for(name: Seq<char>, path: Seq<char>) -> Seq<(Seq<char>, Seq<char>)> {
    seq![(name, path)] + sidecar_names(stem_of(name)).map_values(
        |n: Seq<char>| (n, join(parent_of(path), n)),
    )
}

/// The plans an entry gives rise to: none when it is kept; its own plan when
/// it is redundant; its own plan plus the `-C` variant's plan when both
/// alternates exist.
pub open spec fn plans_for_entry(
    name: Seq<char>,
    path: Seq<char>,
    m: Map<Seq<char>, Seq<char>>,
) -> Seq<Seq<(Seq<char>, Seq<char>)>> {
    match decision_of(name, m) {
        Decision::Keep => Seq::empty(),
        Decision::RemovePrimary => seq![plan_for(name, path)],
        Decision::RemoveConflictingVariant => seq![
            plan_for(name, path),
            plan_for(key_c(name), m[key_c(name)]),
        ],
    }
}

/// The concrete set of (name, path) targets to dispose of for one resolved
/// redundant entry.
pub struct RemovalPlan {
    targets: Vec<(String, String)>,
}

impl View for RemovalPlan {
    type V = Seq<(Seq<char>, Seq<char>)>;

    closed spec fn view(&self) -> Seq<(Seq<char>, Seq<char>)> {
        self.targets@.map_values(|p: (String, String)| (p.0@, p.1@))
    }
}

impl RemovalPlan {
    pub fn len(&self) -> (r: usize)
        ensures
            r == self@.len(),
    {
        self.targets.len()
    }

    /// The target at position `i`: its file name and its path.
    pub fn target_at(&self, i: usize) -> (r: &(String, String))
        requires
            i < self@.len(),
        ensures
            r.0@ == self@[i as int].0,
            r.1@ == self@[i as int].1,
    {
        &self.targets[i]
    }
}

/// Resolves one entry against the catalog.
pub fn resolve(name: &String, catalog: &Catalog) -> (d: Decision)
    ensures
        d == decision_of(name@, catalog@),
{
    let (kc, kuc) = derive_keys(name.as_str());
    let has_c = catalog.contains_name(&kc);
    let has_uc = catalog.contains_name(&kuc);
    if has_c && has_uc {
        Decision::RemoveConflictingVariant
    } else if has_c || has_uc {
        Decision::RemovePrimary
    } else {
        Decision::Keep
    }
}

/// Builds the removal plan for one redundant file: the file plus its
/// sidecar set, the sidecars placed in the file's parent directory.
pub fn build_plan(name: &String, path: &String) -> (r: RemovalPlan)
    ensures
        r@ == plan_for(name@, path@),
{
    let (stem, _ext) = split_name(name.as_str());
    let parent = parent_dir(path.as_str());
    let sides = get_file_name(stem.as_str());
    let mut targets: Vec<(String, String)> = Vec::new();
    targets.push((name.clone(), path.clone()));
    let side0 = sides[0].clone();
    let path0 = join_path(parent.as_str(), side0.as_str());
    targets.push((side0, path0));
    let side1 = sides[1].clone();
    let path1 = join_path(parent.as_str(), side1.as_str());
    targets.push((side1, path1));
    let side2 = sides[2].clone();
    let path2 = join_path(parent.as_str(), side2.as_str());
    targets.push((side2, path2));
    let side3 = sides[3].clone();
    let path3 = join_path(parent.as_str(), side3.as_str());
    targets.push((side3, path3));
    let r = RemovalPlan { targets };
    proof {
        assert(r@ =~= plan_for(name@, path@));
    }
    r
}

/// Builds every plan one entry gives rise to: none when it is kept, one for
/// the entry itself when it is redundant, and additionally one for the `-C`
/// variant when both alternates exist.
pub fn build_plans(name: &String, path: &String, catalog: &Catalog) -> (r: Vec<RemovalPlan>)
    requires
        catalog.wf(),
    ensures
        r@.map_values(|p: RemovalPlan| p@) == plans_for_entry(name@, path@, catalog@),
{
    let (kc, kuc) = derive_keys(name.as_str());
    let has_c = catalog.contains_name(&kc);
    let has_uc = catalog.contains_name(&kuc);
    let mut r: Vec<RemovalPlan> = Vec::new();
    if has_c || has_uc {
        r.push(build_plan(name, path));
    }
    if has_c && has_uc {
        match catalog.get(&kc) {
            Some(cpath) => {
                let cp = cpath.clone();
                r.push(build_plan(&kc, &cp));
            },
            None => {
                proof {
                    assert(false);
                }
            },
        }
    }
    proof {
        assert(r@.map_values(|p: RemovalPlan| p@) =~= plans_for_entry(name@, path@, catalog@));
    }
    r
}

/// Every plan for a whole catalog, entries taken in their stored order, each
/// decision evaluated against the same immutable catalog snapshot.
pub open spec fn plans_for_catalog_spec(
    entries: Seq<(Seq<char>, Seq<char>)>,
    m: Map<Seq<char>, Seq<char>>,
) -> Seq<Seq<(Seq<char>, Seq<char>)>>
    decreases entries.len(),
{
    if entries.len() == 0 {
        Seq::empty()
    } else {
        plans_for_catalog_spec(entries.drop_last(), m)
            + plans_for_entry(entries.last().0, entries.last().1, m)
    }
}

/// Resolves every catalog entry against the one catalog snapshot and
/// collects all removal plans, in entry order.
pub fn plans_for_catalog(catalog: &Catalog) -> (r: Vec<RemovalPlan>)
    requires
        catalog.wf(),
    ensures
        r@.map_values(|p: RemovalPlan| p@) == plans_for_catalog_spec(catalog.seq(), catalog@),
{
    let mut r: Vec<RemovalPlan> = Vec::new();
    let n = catalog.len();
    let mut i: usize = 0;
    while i < n
        invariant
            i <= n,
            n == catalog.seq().len(),
            catalog.wf(),
            r@.map_values(|p: RemovalPlan| p@)
                == plans_for_catalog_spec(catalog.seq().take(i as int), catalog@),
        decreases n - i,
    {
        let e = catalog.entry_at(i);
        let name = e.0.clone();
        let path = e.1.clone();
        let mut plans = build_plans(&name, &path, catalog);
        let ghost r0 = r@;
        let ghost ps = plans@;
        r.append(&mut plans);
        proof {
            let s = catalog.seq();
            assert(s.take(i as int + 1).drop_last() =~= s.take(i as int));
            assert(s.take(i as int + 1).last() == s[i as int]);
            assert(r@.map_values(|p: RemovalPlan| p@)
                =~= r0.map_values(|p: RemovalPlan| p@) + ps.map_values(|p: RemovalPlan| p@));
        }
        i = i + 1;
    }
    proof {
        assert(catalog.seq().take(n as int) =~= catalog.seq());
    }
    r
}

} // verus!
