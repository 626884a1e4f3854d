//! Dependency manifests of the state structs: reading the version a
//! dependency asks for, finding version conflicts between manifests,
//! ordering and describing those conflicts, and merging all manifests into
//! the dependency list of the generated state crate.
//!
//! A manifest's dependency table is held as a list in the order in which the
//! table is walked; a library that walks a hash map hands that order over, and
//! every result here is stated for each order.

use vstd::prelude::*;

use crate::text::{
    lemma_seq_lt_asymmetric, lemma_seq_lt_irreflexive, lemma_seq_lt_total, lemma_seq_lt_transitive,
    seq_lt, str_lt,
};

verus! {

/// A dependency given either as a bare version string or as a detailed table.
#[derive(Clone, Debug)]
pub enum TomlDependency {
    Simple(String),
    Detailed(DetailedTomlDependency),
}

/// The detailed form of a dependency entry.
#[derive(Clone, Debug, Default)]
pub struct DetailedTomlDependency {
    pub version: Option<String>,
    pub path: Option<String>,
    pub git: Option<String>,
    pub branch: Option<String>,
    pub tag: Option<String>,
    pub rev: Option<String>,
    pub features: Option<Vec<String>>,
    pub optional: Option<bool>,
    pub default_features: Option<bool>,
}

/// One entry of a dependency table.
#[derive(Clone, Debug)]
pub struct NamedDependency {
    pub name: String,
    pub dependency: TomlDependency,
}

/// A `Dependencies.toml` manifest: its dependency table, if it has one.
#[derive(Clone, Debug)]
pub struct TomlManifest {
    pub dependencies: Option<Vec<NamedDependency>>,
}

/// A manifest together with the name of the directory it was read from.
#[derive(Clone, Debug)]
pub struct NamedManifest {
    pub name: String,
    pub manifest: TomlManifest,
}

/// Two manifests asking for different versions of one dependency.
#[derive(Clone, Debug)]
pub struct Conflict {
    pub name: String,
    pub manifest_a: String,
    pub manifest_b: String,
    pub version_a: String,
    pub version_b: String,
}

/// The characters of a conflict's fields.
pub struct ConflictView {
    pub name: Seq<char>,
    pub manifest_a: Seq<char>,
    pub manifest_b: Seq<char>,
    pub version_a: Seq<char>,
    pub version_b: Seq<char>,
}

impl View for Conflict {
    type V = ConflictView;

    open spec fn view(&self) -> ConflictView {
        ConflictView {
            name: self.name@,
            manifest_a: self.manifest_a@,
            manifest_b: self.manifest_b@,
            version_a: self.version_a@,
            version_b: self.version_b@,
        }
    }
}

/// The characters of a detailed dependency entry's fields.
pub struct DetailedView {
    pub version: Option<Seq<char>>,
    pub path: Option<Seq<char>>,
    pub git: Option<Seq<char>>,
    pub branch: Option<Seq<char>>,
    pub tag: Option<Seq<char>>,
    pub rev: Option<Seq<char>>,
    pub features: Option<Seq<Seq<char>>>,
    pub optional: Option<bool>,
    pub default_features: Option<bool>,
}

/// A dependency entry with its strings taken by their characters.
pub enum DependencyView {
    Simple(Seq<char>),
    Detailed(DetailedView),
}

impl View for DetailedTomlDependency {
    type V = DetailedView;

    open spec fn view(&self) -> DetailedView {
        DetailedView {
            version: self.version.deep_view(),
            path: self.path.deep_view(),
            git: self.git.deep_view(),
            branch: self.branch.deep_view(),
            tag: self.tag.deep_view(),
            rev: self.rev.deep_view(),
            features: self.features.deep_view(),
            optional: self.optional,
            default_features: self.default_features,
        }
    }
}

impl View for TomlDependency {
    type V = DependencyView;

    open spec fn view(&self) -> DependencyView {
        match self {
            TomlDependency::Simple(v) => DependencyView::Simple(v@),
            TomlDependency::Detailed(d) => DependencyView::Detailed(d@),
        }
    }
}

fn copy_text(s: &Option<String>) -> (r: Option<String>)
    ensures
        r.deep_view() == s.deep_view(),
{
    match s {
        Some(v) => Some(v.clone()),
        None => None,
    }
}

fn copy_features(s: &Option<Vec<String>>) -> (r: Option<Vec<String>>)
    ensures
        r.deep_view() == s.deep_view(),
{
    match s {
        Some(v) => {
            let mut out: Vec<String> = Vec::new();
            let mut i: usize = 0;
            while i < v.len()
                invariant
                    i <= v@.len(),
                    out@.len() == i,
                    forall|k: int| 0 <= k < i ==> out@[k]@ == v@[k]@,
                decreases v@.len() - i,
            {
                out.push(v[i].clone());
                i = i + 1;
            }
            assert(out.deep_view() =~= v.deep_view());
            Some(out)
        },
        None => None,
    }
}

/// A copy of the dependency entry `d`.
pub fn copy_dependency(d: &TomlDependency) -> (r: TomlDependency)
    ensures
        r@ == d@,
{
    match d {
        TomlDependency::Simple(v) => TomlDependency::Simple(v.clone()),
        TomlDependency::Detailed(det) => TomlDependency::Detailed(
            DetailedTomlDependency {
                version: copy_text(&det.version),
                path: copy_text(&det.path),
                git: copy_text(&det.git),
                branch: copy_text(&det.branch),
                tag: copy_text(&det.tag),
                rev: copy_text(&det.rev),
                features: copy_features(&det.features),
                optional: det.optional,
                default_features: det.default_features,
            },
        ),
    }
}

/// The version a dependency asks for; the empty string where a detailed entry
/// names none.
pub open spec fn version_of(d: TomlDependency) -> Seq<char> {
    match d {
        TomlDependency::Simple(v) => v@,
        TomlDependency::Detailed(det) => match det.version {
            Some(v) => v@,
            None => Seq::empty(),
        },
    }
}

/// Returns the version that `d` asks for, or the empty string.
pub fn get_version(d: &TomlDependency) -> (r: String)
    ensures
        r@ == version_of(*d),
{
    match d {
        TomlDependency::Simple(version) => version.clone(),
        TomlDependency::Detailed(details) => match &details.version {
            Some(version) => version.clone(),
            None => String::new(),
        },
    }
}

/// The dependency entries of a manifest, in walk order; none when it has no
/// dependency table.
pub open spec fn deps_of(m: NamedManifest) -> Seq<NamedDependency> {
    match m.manifest.dependencies {
        Some(ds) => ds@,
        None => Seq::empty(),
    }
}

/// The conflicts that the dependency `dep_name` at version `version_a` of the
/// manifest `name_a` has with the first `k` entries `ds` of the manifest `name_b`.
pub open spec fn entry_conflicts(
    name_a: Seq<char>,
    dep_name: Seq<char>,
    version_a: Seq<char>,
    name_b: Seq<char>,
    ds: Seq<NamedDependency>,
    k: int,
) -> Seq<ConflictView>
    decreases k,
{
    if k <= 0 {
        Seq::empty()
    } else {
        let prev = entry_conflicts(name_a, dep_name, version_a, name_b, ds, k - 1);
        let d = ds[k - 1];
        if d.name@ == dep_name && version_of(d.dependency) != version_a {
            prev.push(
                ConflictView {
                    name: dep_name,
                    manifest_a: name_a,
                    manifest_b: name_b,
                    version_a,
                    version_b: version_of(d.dependency),
                },
            )
        } else {
            prev
        }
    }
}

/// Whether the walk for the manifest named `name` ends at manifest `j`: the
/// walk stops at the first manifest of that name that has dependency entries.
pub open spec fn stops_at(ms: Seq<NamedManifest>, name: Seq<char>, j: int) -> bool {
    deps_of(ms[j]).len() > 0 && ms[j].name@ == name
}

/// The index of the first manifest, from `j` on, at which the walk for `name`
/// stops; `ms.len()` if there is none.
pub open spec fn first_stop(ms: Seq<NamedManifest>, name: Seq<char>, j: int) -> int
    decreases ms.len() - j,
{
    if j >= ms.len() {
        ms.len() as int
    } else if stops_at(ms, name, j) {
        j
    } else {
        first_stop(ms, name, j + 1)
    }
}

/// The conflicts of the first entry of manifest `a` with the first `b`
/// manifests.
pub open spec fn range_conflicts(ms: Seq<NamedManifest>, a: int, b: int) -> Seq<ConflictView>
    decreases b,
{
    if b <= 0 {
        Seq::empty()
    } else {
        let da = deps_of(ms[a])[0];
        let mb = ms[b - 1];
        range_conflicts(ms, a, b - 1) + entry_conflicts(
            ms[a].name@,
            da.name@,
            version_of(da.dependency),
            mb.name@,
            deps_of(mb),
            deps_of(mb).len() as int,
        )
    }
}

/// The conflicts found for manifest `a`: its first dependency entry checked
/// against every manifest before the point where the walk meets `a`'s own name.
pub open spec fn manifest_conflicts(ms: Seq<NamedManifest>, a: int) -> Seq<ConflictView> {
    if deps_of(ms[a]).len() > 0 {
        range_conflicts(ms, a, first_stop(ms, ms[a].name@, 0))
    } else {
        Seq::empty()
    }
}

/// All conflicts found for the first `a` manifests, in the order found.
pub open spec fn conflicts_upto(ms: Seq<NamedManifest>, a: int) -> Seq<ConflictView>
    decreases a,
{
    if a <= 0 {
        Seq::empty()
    } else {
        conflicts_upto(ms, a - 1) + manifest_conflicts(ms, a - 1)
    }
}

proof fn lemma_first_stop(ms: Seq<NamedManifest>, name: Seq<char>, j: int, b: int)
    requires
        0 <= j <= b <= ms.len(),
        forall|k: int| j <= k < b ==> !stops_at(ms, name, k),
        b == ms.len() || stops_at(ms, name, b),
    ensures
        first_stop(ms, name, j) == b,
    decreases b - j,
{
    if j < b {
        lemma_first_stop(ms, name, j + 1, b);
    }
}

/// The views of a sequence of conflicts.
pub open spec fn conflict_views(cs: Seq<Conflict>) -> Seq<ConflictView> {
    cs.map_values(|c: Conflict| c@)
}

fn push_entry_conflicts(
    out: &mut Vec<Conflict>,
    name_a: &String,
    dep_name: &String,
    version_a: &String,
    name_b: &String,
    ds: &Vec<NamedDependency>,
)
    ensures
        conflict_views(final(out)@) == conflict_views(old(out)@) + entry_conflicts(
            name_a@,
            dep_name@,
            version_a@,
            name_b@,
            ds@,
            ds@.len() as int,
        ),
{
    let ghost start = conflict_views(out@);
    let mut k: usize = 0;
    while k < ds.len()
        invariant
            k <= ds@.len(),
            conflict_views(out@) == start + entry_conflicts(
                name_a@,
                dep_name@,
                version_a@,
                name_b@,
                ds@,
                k as int,
            ),
        decreases ds@.len() - k,
    {
        let d = &ds[k];
        let version_b = get_version(&d.dependency);
        let ghost prev = out@;
        if d.name == *dep_name && !(version_b == *version_a) {
            out.push(
                Conflict {
                    name: dep_name.clone(),
                    manifest_a: name_a.clone(),
                    manifest_b: name_b.clone(),
                    version_a: version_a.clone(),
                    version_b,
                },
            );
        }
        assert(*d == ds@[k as int]);
        assert(conflict_views(out@) =~= start + entry_conflicts(
            name_a@,
            dep_name@,
            version_a@,
            name_b@,
            ds@,
            k + 1,
        )) by {
            if out@.len() > prev.len() {
                assert(conflict_views(out@) =~= conflict_views(prev).push(out@.last()@));
            } else {
                assert(out@ == prev);
            }
        }
        k = k + 1;
    }
}

/// Finds the version conflicts between `manifests`, walked in the given order.
///
/// For each manifest that has dependency entries, its first entry is compared
/// with every entry of the manifests that come before the first manifest of
/// its own name having entries; each entry of the same name asking for another
/// version gives a conflict.
pub fn find_conflicts(manifests: &Vec<NamedManifest>) -> (r: Vec<Conflict>)
    ensures
        conflict_views(r@) == conflicts_upto(manifests@, manifests@.len() as int),
{
    let ghost ms = manifests@;
    let mut out: Vec<Conflict> = Vec::new();
    let n = manifests.len();
    let mut a: usize = 0;
    while a < n
        invariant
            n == ms.len(),
            ms == manifests@,
            a <= n,
            conflict_views(out@) == conflicts_upto(ms, a as int),
        decreases n - a,
    {
        let ma = &manifests[a];
        let ghost before = conflict_views(out@);
        match &ma.manifest.dependencies {
            Some(ds_a) => {
                if ds_a.len() > 0 {
                    let first = &ds_a[0];
                    let version_a = get_version(&first.dependency);
                    let mut b: usize = 0;
                    while b < n
                        invariant
                            n == ms.len(),
                            ms == manifests@,
                            a < n,
                            b <= n,
                            *ma == ms[a as int],
                            deps_of(*ma) == ds_a@,
                            ds_a@.len() > 0,
                            *first == ds_a@[0],
                            version_a@ == version_of(first.dependency),
                            forall|k: int| 0 <= k < b ==> !stops_at(ms, ma.name@, k),
                            conflict_views(out@) == before + range_conflicts(ms, a as int, b as int),
                        ensures
                            b == n || stops_at(ms, ma.name@, b as int),
                        decreases n - b,
                    {
                        let mb = &manifests[b];
                        match &mb.manifest.dependencies {
                            Some(ds_b) => {
                                if ds_b.len() > 0 && mb.name == ma.name {
                                    assert(stops_at(ms, ma.name@, b as int));
                                    break;
                                }
                                push_entry_conflicts(
                                    &mut out,
                                    &ma.name,
                                    &first.name,
                                    &version_a,
                                    &mb.name,
                                    ds_b,
                                );
                            },
                            None => {},
                        }
                        assert(!stops_at(ms, ma.name@, b as int));
                        assert(conflict_views(out@) =~= before + range_conflicts(ms, a as int, b + 1));
                        b = b + 1;
                    }
                    proof {
                        lemma_first_stop(ms, ma.name@, 0, b as int);
                    }
                }
            },
            None => {},
        }
        assert(conflict_views(out@) =~= conflicts_upto(ms, a + 1));
        a = a + 1;
    }
    out
}

/// Every dependency entry of the manifests, manifest by manifest, each in
/// walk order.
pub open spec fn all_entries(ms: Seq<NamedManifest>) -> Seq<NamedDependency>
    decreases ms.len(),
{
    if ms.len() == 0 {
        Seq::empty()
    } else {
        all_entries(ms.drop_last()) + deps_of(ms.last())
    }
}

/// The table that inserting the entries `es` one after the other into an
/// empty table gives: a later entry of a name replaces an earlier one.
pub open spec fn merged(es: Seq<NamedDependency>) -> Map<Seq<char>, DependencyView>
    decreases es.len(),
{
    if es.len() == 0 {
        Map::empty()
    } else {
        merged(es.drop_last()).insert(es.last().name@, es.last().dependency@)
    }
}

/// No two entries of `es` have the same name.
pub open spec fn distinct_names(es: Seq<NamedDependency>) -> bool {
    forall|i: int, j: int| 0 <= i < j < es.len() ==> es[i].name@ != es[j].name@
}

proof fn lemma_merged_distinct(es: Seq<NamedDependency>)
    requires
        distinct_names(es),
    ensures
        forall|k: Seq<char>|
            merged(es).contains_key(k) <==> exists|i: int| 0 <= i < es.len() && es[i].name@ == k,
        forall|i: int| 0 <= i < es.len() ==> merged(es)[#[trigger] es[i].name@] == es[i].dependency@,
{
    merge_keeps_last_entries(es);
    assert forall|i: int| 0 <= i < es.len() implies merged(es)[#[trigger] es[i].name@]
        == es[i].dependency@ by {
        assert forall|j: int| i < j < es.len() implies es[j].name@ != es[i].name@ by {}
    }
}

proof fn lemma_merged_update(es: Seq<NamedDependency>, j: int, e: NamedDependency)
    requires
        distinct_names(es),
        0 <= j < es.len(),
        es[j].name@ == e.name@,
    ensures
        distinct_names(es.update(j, e)),
        merged(es.update(j, e)) == merged(es).insert(e.name@, e.dependency@),
{
    let us = es.update(j, e);
    assert(distinct_names(us)) by {
        assert forall|a: int, b: int| 0 <= a < b < us.len() implies us[a].name@ != us[b].name@ by {
            if a == j {
                assert(es[j].name@ != es[b].name@);
            } else if b == j {
                assert(es[a].name@ != es[j].name@);
            } else {
                assert(es[a].name@ != es[b].name@);
            }
        }
    }
    lemma_merged_distinct(es);
    lemma_merged_distinct(us);
    let lhs = merged(us);
    let rhs = merged(es).insert(e.name@, e.dependency@);
    assert forall|k: Seq<char>| lhs.contains_key(k) <==> rhs.contains_key(k) by {
        if lhs.contains_key(k) {
            let i = choose|i: int| 0 <= i < us.len() && us[i].name@ == k;
            if i != j {
                assert(es[i].name@ == k);
            }
        }
        if rhs.contains_key(k) && k != e.name@ {
            let i = choose|i: int| 0 <= i < es.len() && es[i].name@ == k;
            assert(us[i].name@ == k);
        }
        if k == e.name@ {
            assert(us[j].name@ == k);
        }
    }
    assert forall|k: Seq<char>| lhs.contains_key(k) implies lhs[k] == rhs[k] by {
        let i = choose|i: int| 0 <= i < us.len() && us[i].name@ == k;
        assert(lhs[us[i].name@] == us[i].dependency@);
        if i != j {
            assert(merged(es)[es[i].name@] == es[i].dependency@);
        }
    }
    assert(lhs =~= rhs);
}

/// The index of the entry of `out` named `name`, if any.
fn find_entry(out: &Vec<NamedDependency>, name: &String) -> (r: Option<usize>)
    ensures
        match r {
            Some(j) => j < out@.len() && out@[j as int].name@ == name@,
            None => forall|i: int| 0 <= i < out@.len() ==> out@[i].name@ != name@,
        },
{
    let mut i: usize = 0;
    while i < out.len()
        invariant
            i <= out@.len(),
            forall|k: int| 0 <= k < i ==> out@[k].name@ != name@,
        decreases out@.len() - i,
    {
        if out[i].name == *name {
            return Some(i);
        }
        i = i + 1;
    }
    None
}

/// Merges the dependency tables of `manifests`, walked in the given order,
/// into one: the result names each dependency once, and holds for it the
/// entry of the last manifest, in walk order, that names it.
pub fn merge_dependencies(manifests: &Vec<NamedManifest>) -> (r: Vec<NamedDependency>)
    ensures
        distinct_names(r@),
        merged(r@) == merged(all_entries(manifests@)),
{
    let ghost ms = manifests@;
    let mut out: Vec<NamedDependency> = Vec::new();
    let n = manifests.len();
    let mut a: usize = 0;
    assert(ms.take(0) =~= Seq::<NamedManifest>::empty());
    while a < n
        invariant
            n == ms.len(),
            ms == manifests@,
            a <= n,
            distinct_names(out@),
            merged(out@) == merged(all_entries(ms.take(a as int))),
        decreases n - a,
    {
        let ghost done = all_entries(ms.take(a as int));
        assert(ms.take(a + 1).drop_last() =~= ms.take(a as int));
        assert(all_entries(ms.take(a + 1)) == done + deps_of(ms[a as int]));
        match &manifests[a].manifest.dependencies {
            Some(ds) => {
                let mut k: usize = 0;
                assert(done + ds@.take(0) =~= done);
                while k < ds.len()
                    invariant
                        k <= ds@.len(),
                        distinct_names(out@),
                        merged(out@) == merged(done + ds@.take(k as int)),
                    decreases ds@.len() - k,
                {
                    let e = NamedDependency {
                        name: ds[k].name.clone(),
                        dependency: copy_dependency(&ds[k].dependency),
                    };
                    assert((done + ds@.take(k + 1)).drop_last() =~= done + ds@.take(k as int));
                    let ghost prev = out@;
                    match find_entry(&out, &e.name) {
                        Some(j) => {
                            proof {
                                lemma_merged_update(out@, j as int, e);
                            }
                            out.set(j, e);
                        },
                        None => {
                            out.push(e);
                            assert(out@.drop_last() =~= prev);
                            assert(distinct_names(out@)) by {
                                assert forall|x: int, y: int| 0 <= x < y < out@.len() implies out@[x].name@
                                    != out@[y].name@ by {
                                    if y == out@.len() - 1 {
                                        assert(prev[x].name@ != e.name@);
                                    } else {
                                        assert(prev[x].name@ != prev[y].name@);
                                    }
                                }
                            }
                        },
                    }
                    k = k + 1;
                }
                assert(ds@.take(ds@.len() as int) =~= ds@);
            },
            None => {
                assert(done + Seq::<NamedDependency>::empty() =~= done);
            },
        }
        a = a + 1;
    }
    assert(ms.take(n as int) =~= ms);
    out
}

/// The conflict with its two manifests, and their versions, swapped where
/// needed so that the first manifest's name does not sort after the second's.
pub open spec fn oriented(c: ConflictView) -> ConflictView {
    if seq_lt(c.manifest_b, c.manifest_a) {
        ConflictView {
            name: c.name,
            manifest_a: c.manifest_b,
            manifest_b: c.manifest_a,
            version_a: c.version_b,
            version_b: c.version_a,
        }
    } else {
        c
    }
}

/// Each conflict oriented.
pub open spec fn oriented_seq(cs: Seq<ConflictView>) -> Seq<ConflictView> {
    cs.map_values(|c: ConflictView| oriented(c))
}

/// The views of the conflicts, each oriented.
pub open spec fn oriented_views(cs: Seq<Conflict>) -> Seq<ConflictView> {
    oriented_seq(conflict_views(cs))
}

/// `out` is `input` sorted by the first manifest's name, stably, with `p`
/// giving for each place of `out` the place of `input` it comes from.
pub open spec fn stable_sort_by_manifest(
    input: Seq<ConflictView>,
    out: Seq<ConflictView>,
    p: Seq<int>,
) -> bool {
    &&& out.len() == input.len()
    &&& p.len() == input.len()
    &&& forall|i: int| 0 <= i < out.len() ==> 0 <= #[trigger] p[i] < input.len() && out[i] == input[p[i]]
    &&& forall|i: int, j: int| 0 <= i < j < out.len() ==> p[i] != p[j]
    &&& forall|i: int, j: int|
        0 <= i < j < out.len() ==> !seq_lt(#[trigger] out[j].manifest_a, #[trigger] out[i].manifest_a)
    &&& forall|i: int, j: int|
        0 <= i < j < out.len() && (#[trigger] out[i]).manifest_a == (#[trigger] out[j]).manifest_a
            ==> p[i] < p[j]
}

fn orient(c: Conflict) -> (r: Conflict)
    ensures
        r@ == oriented(c@),
{
    if str_lt(c.manifest_b.as_str(), c.manifest_a.as_str()) {
        Conflict {
            name: c.name,
            manifest_a: c.manifest_b,
            manifest_b: c.manifest_a,
            version_a: c.version_b,
            version_b: c.version_a,
        }
    } else {
        c
    }
}

/// Puts each conflict's manifests in order of their names, then sorts the
/// conflicts stably by the name of their first manifest.
pub fn order_conflicts(conflicts: Vec<Conflict>) -> (r: Vec<Conflict>)
    ensures
        exists|p: Seq<int>|
            #[trigger] stable_sort_by_manifest(
                oriented_views(conflicts@),
                conflict_views(r@),
                p,
            ),
{
    let ghost input = oriented_views(conflicts@);
    let n = conflicts.len();
    let mut rest = conflicts;
    // Take the conflicts out from the back, so that they can be moved.
    let mut pending: Vec<Conflict> = Vec::new();
    let ghost all = rest@;
    while rest.len() > 0
        invariant
            rest@.len() + pending@.len() == n,
            n == all.len(),
            forall|k: int| 0 <= k < rest@.len() ==> rest@[k] == all[k],
            forall|k: int| 0 <= k < pending@.len() ==> pending@[k] == all[n - 1 - k],
        decreases rest@.len(),
    {
        let c = rest.pop().unwrap();
        pending.push(c);
    }
    let mut out: Vec<Conflict> = Vec::new();
    let ghost mut p: Seq<int> = Seq::empty();
    let mut i: usize = 0;
    while i < n
        invariant
            i <= n,
            n == all.len(),
            pending@.len() == n - i,
            forall|k: int| 0 <= k < pending@.len() ==> pending@[k] == all[n - 1 - k],
            input.len() == n,
            forall|k: int| 0 <= k < n ==> #[trigger] input[k] == oriented(all[k]@),
            stable_sort_by_manifest(input.take(i as int), conflict_views(out@), p),
        decreases n - i,
    {
        let c = orient(pending.pop().unwrap());
        assert(c@ == input[i as int]);
        let ghost before = conflict_views(out@);
        let mut pos: usize = 0;
        while pos < out.len() && !str_lt(c.manifest_a.as_str(), out[pos].manifest_a.as_str())
            invariant
                pos <= out@.len(),
                forall|k: int| 0 <= k < pos ==> !seq_lt(c@.manifest_a, #[trigger] out@[k]@.manifest_a),
            decreases out@.len() - pos,
        {
            pos = pos + 1;
        }
        proof {
            let pin = input.take(i as int);
            let pin2 = input.take(i + 1);
            let np = p.insert(pos as int, i as int);
            let nb = before.insert(pos as int, c@);
            assert forall|k: int| 0 <= k < pin.len() implies pin2[k] == pin[k] by {}
            if pos < before.len() {
                assert(seq_lt(c@.manifest_a, before[pos as int].manifest_a));
            }
            assert forall|l: int| pos <= l < before.len() implies seq_lt(
                c@.manifest_a,
                before[l].manifest_a,
            ) by {
                if l > pos {
                    assert(!seq_lt(before[l].manifest_a, before[pos as int].manifest_a));
                    lemma_seq_lt_total(before[l].manifest_a, before[pos as int].manifest_a);
                    if before[l].manifest_a != before[pos as int].manifest_a {
                        lemma_seq_lt_transitive(
                            c@.manifest_a,
                            before[pos as int].manifest_a,
                            before[l].manifest_a,
                        );
                    }
                }
            }
            assert(nb.len() == pin2.len());
            assert forall|x: int| 0 <= x < nb.len() implies 0 <= #[trigger] np[x] < pin2.len()
                && nb[x] == pin2[np[x]] by {
                if x < pos {
                    assert(np[x] == p[x]);
                } else if x > pos {
                    assert(np[x] == p[x - 1]);
                }
            }
            assert forall|x: int, y: int| 0 <= x < y < nb.len() implies np[x] != np[y] by {
                if y < pos {
                } else if y == pos {
                    assert(p[x] < i);
                } else if x < pos {
                    assert(np[y] == p[y - 1]);
                } else if x == pos {
                    assert(np[y] == p[y - 1]);
                    assert(p[y - 1] < i);
                } else {
                    assert(np[x] == p[x - 1]);
                    assert(np[y] == p[y - 1]);
                }
            }
            assert forall|x: int, y: int| 0 <= x < y < nb.len() implies !seq_lt(
                #[trigger] nb[y].manifest_a,
                #[trigger] nb[x].manifest_a,
            ) by {
                if y < pos {
                    assert(!seq_lt(before[y].manifest_a, before[x].manifest_a));
                } else if y == pos {
                    assert(!seq_lt(c@.manifest_a, before[x].manifest_a));
                } else if x < pos {
                    assert(!seq_lt(before[y - 1].manifest_a, before[x].manifest_a));
                } else if x == pos {
                    assert(seq_lt(c@.manifest_a, before[y - 1].manifest_a));
                    lemma_seq_lt_asymmetric(c@.manifest_a, before[y - 1].manifest_a);
                } else {
                    assert(!seq_lt(before[y - 1].manifest_a, before[x - 1].manifest_a));
                }
            }
            assert forall|x: int, y: int|
                0 <= x < y < nb.len() && (#[trigger] nb[x]).manifest_a == (#[trigger] nb[y]).manifest_a
                    implies np[x] < np[y] by {
                if y < pos {
                    assert(before[x].manifest_a == before[y].manifest_a);
                } else if y == pos {
                    assert(p[x] < i);
                } else if x < pos {
                    assert(before[x].manifest_a == before[y - 1].manifest_a);
                    assert(np[y] == p[y - 1]);
                } else if x == pos {
                    assert(seq_lt(c@.manifest_a, before[y - 1].manifest_a));
                    lemma_seq_lt_irreflexive(c@.manifest_a);
                } else {
                    assert(before[x - 1].manifest_a == before[y - 1].manifest_a);
                    assert(np[x] == p[x - 1]);
                    assert(np[y] == p[y - 1]);
                }
            }
            p = np;
        }
        out.insert(pos, c);
        assert(conflict_views(out@) =~= before.insert(pos as int, c@));
        i = i + 1;
    }
    assert(input.take(n as int) =~= input);
    out
}

/// How a manifest's demand on the dependency `name` reads in a message.
pub open spec fn requirement_text(version: Seq<char>, name: Seq<char>) -> Seq<char> {
    if version.len() == 0 {
        "uses the latest available version of "@ + name
    } else {
        "requires "@ + version + " of "@ + name
    }
}

/// The line that reports the conflict `c` to the operator.
pub open spec fn conflict_message_text(c: ConflictView) -> Seq<char> {
    "ERROR: Version mismatch: \""@ + c.manifest_a + "\" "@ + requirement_text(c.version_a, c.name)
        + ", while \""@ + c.manifest_b + "\" "@ + requirement_text(c.version_b, c.name) + "."@
}

fn append_requirement(out: &mut String, version: &String, name: &String)
    ensures
        final(out)@ == old(out)@ + requirement_text(version@, name@),
{
    if version.as_str().is_empty() {
        out.append("uses the latest available version of ");
        out.append(name.as_str());
    } else {
        out.append("requires ");
        out.append(version.as_str());
        out.append(" of ");
        out.append(name.as_str());
    }
}

/// The line that reports the conflict `c`.
pub fn conflict_message(c: &Conflict) -> (r: String)
    ensures
        r@ == conflict_message_text(c@),
{
    let mut r = String::from_str("ERROR: Version mismatch: \"");
    r.append(c.manifest_a.as_str());
    r.append("\" ");
    append_requirement(&mut r, &c.version_a, &c.name);
    r.append(", while \"");
    r.append(c.manifest_b.as_str());
    r.append("\" ");
    append_requirement(&mut r, &c.version_b, &c.name);
    r.append(".");
    r
}

/// The advice printed after the conflicts.
pub open spec fn conflict_advice_text() -> Seq<char> {
    "You may be able to resolve these conflicts by modifying their respective \"Dependencies.toml\" files."@
}

/// Checks the manifests, walked in the given order, for version conflicts.
/// Where there are none, the merged dependency table is returned. Otherwise
/// the lines to report are: one per conflict, the conflicts ordered as
/// `order_conflicts` orders them, then the advice.
pub fn check_and_merge_manifests(manifests: &Vec<NamedManifest>) -> (r: Result<
    Vec<NamedDependency>,
    Vec<String>,
>)
    ensures
        r is Ok <==> conflicts_upto(manifests@, manifests@.len() as int).len() == 0,
        r matches Ok(deps) ==> distinct_names(deps@) && merged(deps@) == merged(
            all_entries(manifests@),
        ),
        r matches Err(lines) ==> {
            let found = conflicts_upto(manifests@, manifests@.len() as int);
            &&& lines@.len() == found.len() + 1
            &&& lines@[found.len() as int]@ == conflict_advice_text()
            &&& exists|ordered: Seq<ConflictView>, p: Seq<int>|
                #[trigger] stable_sort_by_manifest(oriented_seq(found), ordered, p)
                    && forall|i: int|
                    0 <= i < found.len() ==> #[trigger] lines@[i]@ == conflict_message_text(ordered[i])
        },
{
    let conflicts = find_conflicts(manifests);
    if conflicts.len() == 0 {
        return Ok(merge_dependencies(manifests));
    }
    let ghost found = conflict_views(conflicts@);
    let ordered = order_conflicts(conflicts);
    let mut lines: Vec<String> = Vec::new();
    let mut i: usize = 0;
    while i < ordered.len()
        invariant
            i <= ordered@.len(),
            lines@.len() == i,
            forall|k: int| 0 <= k < i ==> #[trigger] lines@[k]@ == conflict_message_text(ordered@[k]@),
        decreases ordered@.len() - i,
    {
        lines.push(conflict_message(&ordered[i]));
        i = i + 1;
    }
    lines.push(String::from_str("You may be able to resolve these conflicts by modifying their respective \"Dependencies.toml\" files."));
    let ghost p = choose|p: Seq<int>| #[trigger] stable_sort_by_manifest(oriented_views(conflicts@), conflict_views(ordered@), p);
    assert(stable_sort_by_manifest(oriented_seq(found), conflict_views(ordered@), p));
    assert forall|k: int| 0 <= k < found.len() implies #[trigger] lines@[k]@ == conflict_message_text(conflict_views(ordered@)[k]) by {
        assert(lines@[k]@ == conflict_message_text(ordered@[k]@));
    }
    Err(lines)
}

/// The text of the state crate's `Cargo.toml` before the path of the common
/// crate.
pub open spec fn cargo_toml_head() -> Seq<char> {
    "#ATTENTION: This file is automatically generated. Don't modify it unless your life is terrible, or you wish it to be so.\n[package]\nname = \"state\"\nversion = \"0.0.1\"\nauthors = [ \"the ghost in the machine\" ]\n\n[lib]\nname = \"state\"\npath = \"state.rs\"\ncrate_type = [\"dylib\"]\nplugin = true\n\n[dependencies.worldsong-common]\npath = \""@
}

/// The text of the state crate's `Cargo.toml`: the package and library
/// sections, the path of the common crate, then `dependencies_text`, the
/// encoded dependency table.
pub open spec fn cargo_toml(common_dir: Seq<char>, dependencies_text: Seq<char>) -> Seq<char> {
    cargo_toml_head() + common_dir + "\"\n\n"@ + dependencies_text + "\n"@
}

/// Builds the state crate's `Cargo.toml` from the path of the common crate
/// and the encoded dependency table.
pub fn cargo_toml_text(common_dir: &str, dependencies_text: &str) -> (r: String)
    ensures
        r@ == cargo_toml(common_dir@, dependencies_text@),
{
    let mut r = String::from_str("#ATTENTION: This file is automatically generated. Don't modify it unless your life is terrible, or you wish it to be so.\n[package]\nname = \"state\"\nversion = \"0.0.1\"\nauthors = [ \"the ghost in the machine\" ]\n\n[lib]\nname = \"state\"\npath = \"state.rs\"\ncrate_type = [\"dylib\"]\nplugin = true\n\n[dependencies.worldsong-common]\npath = \"");
    r.append(common_dir);
    r.append("\"\n\n");
    r.append(dependencies_text);
    r.append("\n");
    r
}

proof fn lemma_entry_conflicts_real(
    name_a: Seq<char>,
    dep_name: Seq<char>,
    version_a: Seq<char>,
    name_b: Seq<char>,
    ds: Seq<NamedDependency>,
    k: int,
)
    requires
        k <= ds.len(),
    ensures
        forall|i: int|
            0 <= i < entry_conflicts(name_a, dep_name, version_a, name_b, ds, k).len() ==> {
                let c = #[trigger] entry_conflicts(name_a, dep_name, version_a, name_b, ds, k)[i];
                &&& c.name == dep_name
                &&& c.manifest_a == name_a
                &&& c.manifest_b == name_b
                &&& c.version_a == version_a
                &&& c.version_a != c.version_b
            },
    decreases k,
{
    if k > 0 {
        lemma_entry_conflicts_real(name_a, dep_name, version_a, name_b, ds, k - 1);
        let prev = entry_conflicts(name_a, dep_name, version_a, name_b, ds, k - 1);
        let cur = entry_conflicts(name_a, dep_name, version_a, name_b, ds, k);
        assert forall|i: int| 0 <= i < cur.len() implies {
            let c = #[trigger] cur[i];
            &&& c.name == dep_name
            &&& c.manifest_a == name_a
            &&& c.manifest_b == name_b
            &&& c.version_a == version_a
            &&& c.version_a != c.version_b
        } by {
            if i < prev.len() {
                assert(cur[i] == prev[i]);
            }
        }
    }
}

proof fn lemma_range_conflicts_real(ms: Seq<NamedManifest>, a: int, b: int)
    requires
        0 <= a < ms.len(),
        deps_of(ms[a]).len() > 0,
        0 <= b <= first_stop(ms, ms[a].name@, 0),
        first_stop(ms, ms[a].name@, 0) <= ms.len(),
        forall|k: int| 0 <= k < first_stop(ms, ms[a].name@, 0) ==> !stops_at(ms, ms[a].name@, k),
    ensures
        forall|i: int|
            0 <= i < range_conflicts(ms, a, b).len() ==> {
                let c = #[trigger] range_conflicts(ms, a, b)[i];
                &&& c.manifest_a == ms[a].name@
                &&& c.manifest_a != c.manifest_b
                &&& c.version_a != c.version_b
            },
    decreases b,
{
    if b > 0 {
        lemma_range_conflicts_real(ms, a, b - 1);
        let da = deps_of(ms[a])[0];
        let mb = ms[b - 1];
        lemma_entry_conflicts_real(
            ms[a].name@,
            da.name@,
            version_of(da.dependency),
            mb.name@,
            deps_of(mb),
            deps_of(mb).len() as int,
        );
        assert(!stops_at(ms, ms[a].name@, b - 1));
        let prev = range_conflicts(ms, a, b - 1);
        let ec = entry_conflicts(
            ms[a].name@,
            da.name@,
            version_of(da.dependency),
            mb.name@,
            deps_of(mb),
            deps_of(mb).len() as int,
        );
        assert forall|i: int| 0 <= i < range_conflicts(ms, a, b).len() implies {
            let c = #[trigger] range_conflicts(ms, a, b)[i];
            &&& c.manifest_a == ms[a].name@
            &&& c.manifest_a != c.manifest_b
            &&& c.version_a != c.version_b
        } by {
            if i < prev.len() {
                assert(range_conflicts(ms, a, b)[i] == prev[i]);
            } else {
                assert(range_conflicts(ms, a, b)[i] == ec[i - prev.len()]);
                if ec.len() > 0 {
                    assert(deps_of(mb).len() > 0);
                }
            }
        }
    }
}

proof fn lemma_first_stop_bounds(ms: Seq<NamedManifest>, name: Seq<char>, j: int)
    requires
        0 <= j <= ms.len(),
    ensures
        j <= first_stop(ms, name, j) <= ms.len(),
        forall|k: int| j <= k < first_stop(ms, name, j) ==> !stops_at(ms, name, k),
        first_stop(ms, name, j) < ms.len() ==> stops_at(ms, name, first_stop(ms, name, j)),
    decreases ms.len() - j,
{
    if j < ms.len() && !stops_at(ms, name, j) {
        lemma_first_stop_bounds(ms, name, j + 1);
    }
}

/// Every conflict that `find_conflicts` reports is between two different
/// manifests, which ask for different versions of the dependency.
pub proof fn reported_conflicts_are_real(ms: Seq<NamedManifest>, n: int)
    requires
        0 <= n <= ms.len(),
    ensures
        forall|i: int|
            0 <= i < conflicts_upto(ms, n).len() ==> {
                let c = #[trigger] conflicts_upto(ms, n)[i];
                &&& c.manifest_a != c.manifest_b
                &&& c.version_a != c.version_b
            },
    decreases n,
{
    if n > 0 {
        reported_conflicts_are_real(ms, n - 1);
        let a = n - 1;
        let prev = conflicts_upto(ms, a);
        let mc = manifest_conflicts(ms, a);
        if deps_of(ms[a]).len() > 0 {
            lemma_first_stop_bounds(ms, ms[a].name@, 0);
            lemma_range_conflicts_real(ms, a, first_stop(ms, ms[a].name@, 0));
        }
        assert forall|i: int| 0 <= i < conflicts_upto(ms, n).len() implies {
            let c = #[trigger] conflicts_upto(ms, n)[i];
            &&& c.manifest_a != c.manifest_b
            &&& c.version_a != c.version_b
        } by {
            if i < prev.len() {
                assert(conflicts_upto(ms, n)[i] == prev[i]);
            } else {
                assert(conflicts_upto(ms, n)[i] == mc[i - prev.len()]);
            }
        }
    }
}

/// After ordering, each conflict names first the manifest whose name sorts
/// no later than the other's.
pub proof fn ordered_conflicts_are_oriented(
    input: Seq<ConflictView>,
    out: Seq<ConflictView>,
    p: Seq<int>,
)
    requires
        stable_sort_by_manifest(oriented_seq(input), out, p),
    ensures
        forall|i: int| 0 <= i < out.len() ==> !seq_lt(#[trigger] out[i].manifest_b, out[i].manifest_a),
{
    assert forall|i: int| 0 <= i < out.len() implies !seq_lt(#[trigger] out[i].manifest_b, out[i].manifest_a) by {
        let c = input[p[i]];
        assert(out[i] == oriented(c));
        lemma_seq_lt_asymmetric(c.manifest_a, c.manifest_b);
    }
}

/// Merging keeps every dependency that some manifest names, with the entry
/// of the last manifest naming it, and nothing else.
pub proof fn merge_keeps_last_entries(es: Seq<NamedDependency>)
    ensures
        forall|k: Seq<char>|
            merged(es).contains_key(k) <==> exists|i: int| 0 <= i < es.len() && es[i].name@ == k,
        forall|i: int|
            0 <= i < es.len() && (forall|j: int| i < j < es.len() ==> es[j].name@ != es[i].name@)
                ==> merged(es)[#[trigger] es[i].name@] == es[i].dependency@,
    decreases es.len(),
{
    if es.len() > 0 {
        let init = es.drop_last();
        merge_keeps_last_entries(init);
        assert forall|k: Seq<char>|
            merged(es).contains_key(k) <==> exists|i: int| 0 <= i < es.len() && es[i].name@ == k by {
            if merged(es).contains_key(k) {
                if k == es.last().name@ {
                    assert(es[es.len() - 1].name@ == k);
                } else {
                    assert(merged(init).contains_key(k));
                    let i = choose|i: int| 0 <= i < init.len() && init[i].name@ == k;
                    assert(init[i] == es[i]);
                }
            }
            if exists|i: int| 0 <= i < es.len() && es[i].name@ == k {
                let i = choose|i: int| 0 <= i < es.len() && es[i].name@ == k;
                if i < es.len() - 1 {
                    assert(init[i] == es[i]);
                    assert(merged(init).contains_key(k));
                }
            }
        }
        assert forall|i: int|
            0 <= i < es.len() && (forall|j: int| i < j < es.len() ==> es[j].name@ != es[i].name@)
                implies merged(es)[#[trigger] es[i].name@] == es[i].dependency@ by {
            if i < es.len() - 1 {
                assert(init[i] == es[i]);
                assert(es[es.len() - 1].name@ != es[i].name@);
                assert forall|j: int| i < j < init.len() implies init[j].name@ != init[i].name@ by {
                    assert(init[j] == es[j]);
                }
            }
        }
    }
}

proof fn lemma_contains_concat<A>(s: Seq<A>, t: Seq<A>, x: A)
    requires
        s.contains(x) || t.contains(x),
    ensures
        (s + t).contains(x),
{
    if s.contains(x) {
        let i = choose|i: int| 0 <= i < s.len() && s[i] == x;
        assert((s + t)[i] == x);
    } else {
        let i = choose|i: int| 0 <= i < t.len() && t[i] == x;
        assert((s + t)[s.len() + i] == x);
    }
}

proof fn lemma_entry_conflicts_has(
    name_a: Seq<char>,
    dep_name: Seq<char>,
    version_a: Seq<char>,
    name_b: Seq<char>,
    ds: Seq<NamedDependency>,
    k: int,
    m: int,
)
    requires
        0 <= k < m <= ds.len(),
        ds[k].name@ == dep_name,
        version_of(ds[k].dependency) != version_a,
    ensures
        entry_conflicts(name_a, dep_name, version_a, name_b, ds, m).contains(
            ConflictView {
                name: dep_name,
                manifest_a: name_a,
                manifest_b: name_b,
                version_a,
                version_b: version_of(ds[k].dependency),
            },
        ),
    decreases m,
{
    let x = ConflictView {
        name: dep_name,
        manifest_a: name_a,
        manifest_b: name_b,
        version_a,
        version_b: version_of(ds[k].dependency),
    };
    let prev = entry_conflicts(name_a, dep_name, version_a, name_b, ds, m - 1);
    let cur = entry_conflicts(name_a, dep_name, version_a, name_b, ds, m);
    if m == k + 1 {
        assert(cur == prev.push(x));
        assert(cur[prev.len() as int] == x);
    } else {
        lemma_entry_conflicts_has(name_a, dep_name, version_a, name_b, ds, k, m - 1);
        let i = choose|i: int| 0 <= i < prev.len() && prev[i] == x;
        assert(cur[i] == x);
    }
}

proof fn lemma_range_conflicts_has(ms: Seq<NamedManifest>, a: int, b: int, m: int, x: ConflictView)
    requires
        0 <= a < ms.len(),
        0 <= b < m <= ms.len(),
        deps_of(ms[a]).len() > 0,
        entry_conflicts(
            ms[a].name@,
            deps_of(ms[a])[0].name@,
            version_of(deps_of(ms[a])[0].dependency),
            ms[b].name@,
            deps_of(ms[b]),
            deps_of(ms[b]).len() as int,
        ).contains(x),
    ensures
        range_conflicts(ms, a, m).contains(x),
    decreases m,
{
    let da = deps_of(ms[a])[0];
    let mb = ms[m - 1];
    let ec = entry_conflicts(
        ms[a].name@,
        da.name@,
        version_of(da.dependency),
        mb.name@,
        deps_of(mb),
        deps_of(mb).len() as int,
    );
    if m == b + 1 {
        lemma_contains_concat(range_conflicts(ms, a, m - 1), ec, x);
    } else {
        lemma_range_conflicts_has(ms, a, b, m - 1, x);
        lemma_contains_concat(range_conflicts(ms, a, m - 1), ec, x);
    }
}

proof fn lemma_conflicts_upto_has(ms: Seq<NamedManifest>, a: int, n: int, x: ConflictView)
    requires
        0 <= a < n <= ms.len(),
        manifest_conflicts(ms, a).contains(x),
    ensures
        conflicts_upto(ms, n).contains(x),
    decreases n,
{
    if n > a + 1 {
        lemma_conflicts_upto_has(ms, a, n - 1, x);
    }
    lemma_contains_concat(conflicts_upto(ms, n - 1), manifest_conflicts(ms, n - 1), x);
}

/// A conflict is reported whenever the first dependency entry of a manifest
/// and an entry of the same name, in a manifest that the walk meets before
/// any manifest of the first one's name that has entries, ask for different
/// versions, whichever form either entry has and whether or not either
/// version is empty: the conflict names the dependency, the two manifests and
/// the two versions.
pub proof fn conflicting_first_entries_are_reported(
    ms: Seq<NamedManifest>,
    a: int,
    b: int,
    k: int,
)
    requires
        0 <= a < ms.len(),
        0 <= b < ms.len(),
        deps_of(ms[a]).len() > 0,
        forall|j: int|
            0 <= j <= b ==> !(deps_of(#[trigger] ms[j]).len() > 0 && ms[j].name@ == ms[a].name@),
        0 <= k < deps_of(ms[b]).len(),
        deps_of(ms[b])[k].name@ == deps_of(ms[a])[0].name@,
        version_of(deps_of(ms[b])[k].dependency) != version_of(deps_of(ms[a])[0].dependency),
    ensures
        conflicts_upto(ms, ms.len() as int).contains(
            ConflictView {
                name: deps_of(ms[a])[0].name@,
                manifest_a: ms[a].name@,
                manifest_b: ms[b].name@,
                version_a: version_of(deps_of(ms[a])[0].dependency),
                version_b: version_of(deps_of(ms[b])[k].dependency),
            },
        ),
{
    let da = deps_of(ms[a])[0];
    let x = ConflictView {
        name: da.name@,
        manifest_a: ms[a].name@,
        manifest_b: ms[b].name@,
        version_a: version_of(da.dependency),
        version_b: version_of(deps_of(ms[b])[k].dependency),
    };
    let name = ms[a].name@;
    lemma_first_stop_bounds(ms, name, 0);
    let fs = first_stop(ms, name, 0);
    if fs <= b {
        assert(stops_at(ms, name, fs));
        assert(!(deps_of(ms[fs]).len() > 0 && ms[fs].name@ == name));
    }
    assert(fs > b);
    lemma_entry_conflicts_has(
        name,
        da.name@,
        version_of(da.dependency),
        ms[b].name@,
        deps_of(ms[b]),
        k,
        deps_of(ms[b]).len() as int,
    );
    lemma_range_conflicts_has(ms, a, b, fs, x);
    assert(manifest_conflicts(ms, a) == range_conflicts(ms, a, fs));
    lemma_conflicts_upto_has(ms, a, ms.len() as int, x);
}

/// The version that an entry asks for is the one written in it: a bare
/// version string, or the `version` of a detailed entry; a detailed entry
/// without one asks for none, read as the empty string.
pub proof fn versions_are_read_from_entries(d: TomlDependency)
    ensures
        d matches TomlDependency::Simple(v) ==> version_of(d) == v@,
        d matches TomlDependency::Detailed(det) ==> (det.version matches Some(v) ==> version_of(d) == v@),
        d matches TomlDependency::Detailed(det) ==> (det.version is None ==> version_of(d).len() == 0),
{
}

proof fn lemma_merged_append_absent(x: Seq<NamedDependency>, y: Seq<NamedDependency>, n: Seq<char>)
    requires
        forall|i: int| 0 <= i < y.len() ==> (#[trigger] y[i]).name@ != n,
    ensures
        merged(x + y).contains_key(n) == merged(x).contains_key(n),
        merged(x + y)[n] == merged(x)[n],
    decreases y.len(),
{
    if y.len() == 0 {
        assert(x + y =~= x);
    } else {
        assert((x + y).drop_last() =~= x + y.drop_last());
        assert((x + y).last() == y[y.len() - 1]);
        lemma_merged_append_absent(x, y.drop_last(), n);
    }
}

proof fn lemma_merge_has_entry(ms: Seq<NamedManifest>, a: int, k: int)
    requires
        0 <= a < ms.len(),
        0 <= k < deps_of(ms[a]).len(),
    ensures
        merged(all_entries(ms)).contains_key(deps_of(ms[a])[k].name@),
    decreases ms.len(),
{
    let n = deps_of(ms[a])[k].name@;
    let init = ms.drop_last();
    let e0 = all_entries(init);
    let d = deps_of(ms.last());
    let es = all_entries(ms);
    assert(es == e0 + d);
    merge_keeps_last_entries(es);
    if a == ms.len() - 1 {
        assert(es[e0.len() + k].name@ == n);
    } else {
        assert(init[a] == ms[a]);
        lemma_merge_has_entry(init, a, k);
        merge_keeps_last_entries(e0);
        let i = choose|i: int| 0 <= i < e0.len() && e0[i].name@ == n;
        assert(es[i].name@ == n);
    }
}

proof fn lemma_merge_keeps_entry(ms: Seq<NamedManifest>, a: int, k: int)
    requires
        0 <= a < ms.len(),
        0 <= k < deps_of(ms[a]).len(),
        forall|j: int|
            k < j < deps_of(ms[a]).len() ==> (#[trigger] deps_of(ms[a])[j]).name@
                != deps_of(ms[a])[k].name@,
        forall|b: int, j: int|
            a < b < ms.len() && 0 <= j < deps_of(ms[b]).len() ==> (#[trigger] deps_of(ms[b])[j]).name@
                != deps_of(ms[a])[k].name@,
    ensures
        merged(all_entries(ms))[deps_of(ms[a])[k].name@] == deps_of(ms[a])[k].dependency@,
    decreases ms.len(),
{
    let e = deps_of(ms[a])[k];
    let n = e.name@;
    let init = ms.drop_last();
    let e0 = all_entries(init);
    let d = deps_of(ms.last());
    let es = all_entries(ms);
    assert(es == e0 + d);
    if a == ms.len() - 1 {
        merge_keeps_last_entries(es);
        let i = e0.len() + k;
        assert(es[i] == e);
        assert forall|j: int| i < j < es.len() implies es[j].name@ != es[i].name@ by {
            assert(es[j] == d[j - e0.len()]);
        }
    } else {
        assert(init[a] == ms[a]);
        assert forall|b: int, j: int|
            a < b < init.len() && 0 <= j < deps_of(init[b]).len() implies (#[trigger] deps_of(
                init[b],
            )[j]).name@ != n by {
            assert(init[b] == ms[b]);
        }
        lemma_merge_keeps_entry(init, a, k);
        assert forall|i: int| 0 <= i < d.len() implies (#[trigger] d[i]).name@ != n by {
            assert(d[i] == deps_of(ms[ms.len() - 1])[i]);
        }
        lemma_merged_append_absent(e0, d, n);
    }
}

/// Merging takes in every dependency entry of every manifest, whatever the
/// entry holds: the merged table names the dependency, and where no later
/// entry of the same manifest and no manifest later in the walk names it
/// again, the table holds that very entry for it.
pub proof fn merge_takes_every_entry(ms: Seq<NamedManifest>, a: int, k: int)
    requires
        0 <= a < ms.len(),
        0 <= k < deps_of(ms[a]).len(),
    ensures
        merged(all_entries(ms)).contains_key(deps_of(ms[a])[k].name@),
        (forall|j: int|
            k < j < deps_of(ms[a]).len() ==> (#[trigger] deps_of(ms[a])[j]).name@
                != deps_of(ms[a])[k].name@) && (forall|b: int, j: int|
            a < b < ms.len() && 0 <= j < deps_of(ms[b]).len() ==> (#[trigger] deps_of(ms[b])[j]).name@
                != deps_of(ms[a])[k].name@) ==> merged(all_entries(ms))[deps_of(ms[a])[k].name@]
            == deps_of(ms[a])[k].dependency@,
{
    lemma_merge_has_entry(ms, a, k);
    if (forall|j: int|
        k < j < deps_of(ms[a]).len() ==> (#[trigger] deps_of(ms[a])[j]).name@
            != deps_of(ms[a])[k].name@) && (forall|b: int, j: int|
        a < b < ms.len() && 0 <= j < deps_of(ms[b]).len() ==> (#[trigger] deps_of(ms[b])[j]).name@
            != deps_of(ms[a])[k].name@) {
        lemma_merge_keeps_entry(ms, a, k);
    }
}

proof fn lemma_entry_conflict_source(
    name_a: Seq<char>,
    dep_name: Seq<char>,
    version_a: Seq<char>,
    name_b: Seq<char>,
    ds: Seq<NamedDependency>,
    m: int,
    i: int,
) -> (k: int)
    requires
        0 <= m <= ds.len(),
        0 <= i < entry_conflicts(name_a, dep_name, version_a, name_b, ds, m).len(),
    ensures
        0 <= k < m,
        ds[k].name@ == dep_name,
        version_of(ds[k].dependency) != version_a,
        entry_conflicts(name_a, dep_name, version_a, name_b, ds, m)[i] == (ConflictView {
            name: dep_name,
            manifest_a: name_a,
            manifest_b: name_b,
            version_a,
            version_b: version_of(ds[k].dependency),
        }),
    decreases m,
{
    let prev = entry_conflicts(name_a, dep_name, version_a, name_b, ds, m - 1);
    let cur = entry_conflicts(name_a, dep_name, version_a, name_b, ds, m);
    if i < prev.len() {
        let k = lemma_entry_conflict_source(name_a, dep_name, version_a, name_b, ds, m - 1, i);
        assert(cur[i] == prev[i]);
        k
    } else {
        m - 1
    }
}

proof fn lemma_range_conflict_source(ms: Seq<NamedManifest>, a: int, m: int, i: int) -> (bk: (
    int,
    int,
))
    requires
        0 <= a < ms.len(),
        deps_of(ms[a]).len() > 0,
        0 <= m <= ms.len(),
        0 <= i < range_conflicts(ms, a, m).len(),
    ensures
        0 <= bk.0 < m,
        0 <= bk.1 < deps_of(ms[bk.0]).len(),
        deps_of(ms[bk.0])[bk.1].name@ == deps_of(ms[a])[0].name@,
        version_of(deps_of(ms[bk.0])[bk.1].dependency) != version_of(deps_of(ms[a])[0].dependency),
        range_conflicts(ms, a, m)[i] == (ConflictView {
            name: deps_of(ms[a])[0].name@,
            manifest_a: ms[a].name@,
            manifest_b: ms[bk.0].name@,
            version_a: version_of(deps_of(ms[a])[0].dependency),
            version_b: version_of(deps_of(ms[bk.0])[bk.1].dependency),
        }),
    decreases m,
{
    let da = deps_of(ms[a])[0];
    let mb = ms[m - 1];
    let prev = range_conflicts(ms, a, m - 1);
    let ec = entry_conflicts(
        ms[a].name@,
        da.name@,
        version_of(da.dependency),
        mb.name@,
        deps_of(mb),
        deps_of(mb).len() as int,
    );
    if i < prev.len() {
        let bk = lemma_range_conflict_source(ms, a, m - 1, i);
        assert(range_conflicts(ms, a, m)[i] == prev[i]);
        bk
    } else {
        assert(range_conflicts(ms, a, m)[i] == ec[i - prev.len()]);
        let k = lemma_entry_conflict_source(
            ms[a].name@,
            da.name@,
            version_of(da.dependency),
            mb.name@,
            deps_of(mb),
            deps_of(mb).len() as int,
            i - prev.len(),
        );
        (m - 1, k)
    }
}

proof fn lemma_conflict_source(ms: Seq<NamedManifest>, n: int, i: int) -> (abk: (int, int, int))
    requires
        0 <= n <= ms.len(),
        0 <= i < conflicts_upto(ms, n).len(),
    ensures
        0 <= abk.0 < n,
        0 <= abk.1 < ms.len(),
        deps_of(ms[abk.0]).len() > 0,
        forall|j: int|
            0 <= j <= abk.1 ==> !(deps_of(#[trigger] ms[j]).len() > 0 && ms[j].name@
                == ms[abk.0].name@),
        0 <= abk.2 < deps_of(ms[abk.1]).len(),
        deps_of(ms[abk.1])[abk.2].name@ == deps_of(ms[abk.0])[0].name@,
        version_of(deps_of(ms[abk.1])[abk.2].dependency) != version_of(
            deps_of(ms[abk.0])[0].dependency,
        ),
        conflicts_upto(ms, n)[i] == (ConflictView {
            name: deps_of(ms[abk.0])[0].name@,
            manifest_a: ms[abk.0].name@,
            manifest_b: ms[abk.1].name@,
            version_a: version_of(deps_of(ms[abk.0])[0].dependency),
            version_b: version_of(deps_of(ms[abk.1])[abk.2].dependency),
        }),
    decreases n,
{
    let prev = conflicts_upto(ms, n - 1);
    if i < prev.len() {
        let abk = lemma_conflict_source(ms, n - 1, i);
        assert(conflicts_upto(ms, n)[i] == prev[i]);
        abk
    } else {
        let a = n - 1;
        let mc = manifest_conflicts(ms, a);
        assert(conflicts_upto(ms, n)[i] == mc[i - prev.len()]);
        let name = ms[a].name@;
        lemma_first_stop_bounds(ms, name, 0);
        let fs = first_stop(ms, name, 0);
        let bk = lemma_range_conflict_source(ms, a, fs, i - prev.len());
        assert forall|j: int|
            0 <= j <= bk.0 implies !(deps_of(#[trigger] ms[j]).len() > 0 && ms[j].name@ == name) by {
            assert(!stops_at(ms, name, j));
        }
        (a, bk.0, bk.1)
    }
}

/// Every reported conflict comes from the first dependency entry of some
/// manifest and an entry of the same name, asking for another version, in a
/// manifest that the walk meets before any manifest of the first one's name
/// that has entries; the conflict names the dependency, the two manifests and
/// the two versions.
pub proof fn reported_conflicts_come_from_first_entries(ms: Seq<NamedManifest>, i: int)
    requires
        0 <= i < conflicts_upto(ms, ms.len() as int).len(),
    ensures
        exists|a: int, b: int, k: int|
            #![trigger ms[a], deps_of(ms[b])[k]]
            {
                &&& 0 <= a < ms.len()
                &&& 0 <= b < ms.len()
                &&& deps_of(ms[a]).len() > 0
                &&& forall|j: int|
                    0 <= j <= b ==> !(deps_of(#[trigger] ms[j]).len() > 0 && ms[j].name@
                        == ms[a].name@)
                &&& 0 <= k < deps_of(ms[b]).len()
                &&& deps_of(ms[b])[k].name@ == deps_of(ms[a])[0].name@
                &&& version_of(deps_of(ms[b])[k].dependency) != version_of(
                    deps_of(ms[a])[0].dependency,
                )
                &&& conflicts_upto(ms, ms.len() as int)[i] == (ConflictView {
                    name: deps_of(ms[a])[0].name@,
                    manifest_a: ms[a].name@,
                    manifest_b: ms[b].name@,
                    version_a: version_of(deps_of(ms[a])[0].dependency),
                    version_b: version_of(deps_of(ms[b])[k].dependency),
                })
            },
{
    lemma_conflict_source(ms, ms.len() as int, i);
}

proof fn lemma_entry_source(ms: Seq<NamedManifest>, i: int) -> (ak: (int, int))
    requires
        0 <= i < all_entries(ms).len(),
    ensures
        0 <= ak.0 < ms.len(),
        0 <= ak.1 < deps_of(ms[ak.0]).len(),
        all_entries(ms)[i] == deps_of(ms[ak.0])[ak.1],
    decreases ms.len(),
{
    let init = ms.drop_last();
    let e0 = all_entries(init);
    let es = all_entries(ms);
    assert(es == e0 + deps_of(ms.last()));
    if i < e0.len() {
        let ak = lemma_entry_source(init, i);
        assert(init[ak.0] == ms[ak.0]);
        ak
    } else {
        (ms.len() - 1, i - e0.len())
    }
}

/// The merged table names only dependencies that some manifest names.
pub proof fn merged_names_come_from_manifests(ms: Seq<NamedManifest>, n: Seq<char>)
    requires
        merged(all_entries(ms)).contains_key(n),
    ensures
        exists|a: int, k: int|
            #![trigger deps_of(ms[a])[k]]
            0 <= a < ms.len() && 0 <= k < deps_of(ms[a]).len() && deps_of(ms[a])[k].name@ == n,
{
    let es = all_entries(ms);
    merge_keeps_last_entries(es);
    let i = choose|i: int| 0 <= i < es.len() && es[i].name@ == n;
    let ak = lemma_entry_source(ms, i);
    assert(deps_of(ms[ak.0])[ak.1].name@ == n);
}

} // verus!
