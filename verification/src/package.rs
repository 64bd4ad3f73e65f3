//! The `package` command: listing locally installed packages and resolving
//! a package specification to its directory.

use crate::listing::{
    ago_text, elapsed_secs, is_listing_order, lemma_listing_order_unique, listing_order, time_ago,
    tuples, Timestamp,
};
use crate::pkgspec::{
    parse_package_spec, parsed_package_spec, spec_shape, spec_text, version_text, PackageSpec,
    SpecTuple,
};
use crate::table::{all_rows_have, cells_of, check_table, render_table, table_text, TableError};
use crate::text::{
    char_views, chars_eq, chars_of, contains_chars, decimal, has_char, has_infix, is_space, join,
    join_chars, lemma_decimal_last, lemma_first_index_contains, lemma_split_once_at, push_all,
    push_str, split_chars, split_on, split_once, split_once_chars, string_of, string_views, trim,
    trim_chars, count_char, lemma_count_absent, lemma_count_add, lemma_split_on_count,
    lemma_decimal_no_tab,
};
use vstd::prelude::*;

verus! {

/// Arguments of `package list`: a namespace to keep (empty for all), a
/// part of the package name to look for (empty for all), and whether to
/// print only the specifications and only the first one.
pub struct PackageListArgs {
    pub namespace: String,
    pub name: String,
    pub id: bool,
    pub first: bool,
}

/// Arguments of `package path`: the specifications given on the command line.
pub struct PackagePathArgs {
    pub spec: Vec<String>,
}

/// The `package` subcommands.
pub enum PackageCommands {
    List(PackageListArgs),
    Path(PackagePathArgs),
}

/// A version directory of the local package store.
pub struct VersionEntry {
    pub name: String,
    pub is_dir: bool,
    /// When the directory was created, where the file system tells.
    pub created: Option<Timestamp>,
}

/// A package directory and the version directories read in it.
pub struct PackageEntry {
    pub name: String,
    pub is_dir: bool,
    pub versions: Vec<VersionEntry>,
}

/// A namespace directory and the package directories read in it.
pub struct NamespaceEntry {
    pub name: String,
    pub is_dir: bool,
    pub packages: Vec<PackageEntry>,
}

/// A package version found in the local store.
pub struct FoundPackage {
    pub spec: PackageSpec,
    pub created: Option<Timestamp>,
}

/// A found package as plain values.
pub type Found = (SpecTuple, Option<Timestamp>);

impl FoundPackage {
    /// The found package as plain values.
    pub open spec fn found(self) -> Found {
        (self.spec.tuple(), self.created)
    }
}

/// The plain values of found packages.
pub open spec fn founds(v: Seq<FoundPackage>) -> Seq<Found> {
    v.map_values(|f: FoundPackage| f.found())
}

/// Every found specification has the shape the parser guarantees.
pub open spec fn all_shaped(found: Seq<Found>) -> bool {
    forall|k: int| 0 <= k < found.len() ==> spec_shape(#[trigger] found[k].0)
}

/// A directory entry that is listed: a directory whose name does not start with `.`.
pub open spec fn visible_dir(name: Seq<char>, is_dir: bool) -> bool {
    is_dir && !(name.len() > 0 && name[0] == '.')
}

/// The namespace directory is listed under the namespace filter (empty keeps all).
pub open spec fn namespace_selected(e: NamespaceEntry, filter: Seq<char>) -> bool {
    visible_dir(e.name@, e.is_dir) && (filter.len() == 0 || e.name@ == filter)
}

/// The package directory is listed under the name filter (empty keeps all).
pub open spec fn package_selected(e: PackageEntry, filter: Seq<char>) -> bool {
    visible_dir(e.name@, e.is_dir) && (filter.len() == 0 || has_infix(e.name@, filter))
}

/// `@namespace/package:version` from the three directory names.
pub open spec fn candidate_text(ns: Seq<char>, pkg: Seq<char>, ver: Seq<char>) -> Seq<char> {
    seq!['@'] + ns + seq!['/'] + pkg + seq![':'] + ver
}

/// What one version directory contributes: its specification if it is
/// listed and its candidate text parses.
pub open spec fn version_found(ns: Seq<char>, pkg: Seq<char>, v: VersionEntry) -> Seq<Found> {
    match parsed_package_spec(candidate_text(ns, pkg, v.name@)) {
        Some(t) => if visible_dir(v.name@, v.is_dir) {
            seq![(t, v.created)]
        } else {
            seq![]
        },
        None => seq![],
    }
}

/// What the version directories of a package contribute, in order.
pub open spec fn versions_found(ns: Seq<char>, pkg: Seq<char>, vs: Seq<VersionEntry>) -> Seq<Found>
    decreases vs.len(),
{
    if vs.len() == 0 {
        seq![]
    } else {
        versions_found(ns, pkg, vs.drop_last()) + version_found(ns, pkg, vs.last())
    }
}

/// What the package directories of a namespace contribute, in order.
pub open spec fn packages_found(ns: Seq<char>, ps: Seq<PackageEntry>, name: Seq<char>) -> Seq<Found>
    decreases ps.len(),
{
    if ps.len() == 0 {
        seq![]
    } else {
        let p = ps.last();
        packages_found(ns, ps.drop_last(), name) + if package_selected(p, name) {
            versions_found(ns, p.name@, p.versions@)
        } else {
            seq![]
        }
    }
}

/// What the namespace directories contribute, in order.
pub open spec fn namespaces_found(nss: Seq<NamespaceEntry>, namespace: Seq<char>, name: Seq<char>) -> Seq<Found>
    decreases nss.len(),
{
    if nss.len() == 0 {
        seq![]
    } else {
        let e = nss.last();
        namespaces_found(nss.drop_last(), namespace, name) + if namespace_selected(e, namespace) {
            packages_found(e.name@, e.packages@, name)
        } else {
            seq![]
        }
    }
}

/// The version directory `v` of package `pkg` in namespace `ns` gives `f`.
spec fn version_gives(ns: Seq<char>, pkg: Seq<char>, v: VersionEntry, f: Found) -> bool {
    &&& visible_dir(v.name@, v.is_dir)
    &&& parsed_package_spec(candidate_text(ns, pkg, v.name@)) == Some(f.0)
    &&& f.1 == v.created
}

proof fn lemma_contains_add<A>(a: Seq<A>, b: Seq<A>, x: A)
    ensures
        (a + b).contains(x) <==> a.contains(x) || b.contains(x),
{
    if (a + b).contains(x) {
        let k = choose|k: int| 0 <= k < (a + b).len() && (a + b)[k] == x;
        if k < a.len() {
            assert(a[k] == x);
        } else {
            assert(b[k - a.len()] == x);
        }
    }
    if a.contains(x) {
        let k = choose|k: int| 0 <= k < a.len() && a[k] == x;
        assert((a + b)[k] == x);
    }
    if b.contains(x) {
        let k = choose|k: int| 0 <= k < b.len() && b[k] == x;
        assert((a + b)[a.len() + k] == x);
    }
}

proof fn lemma_versions_members(ns: Seq<char>, pkg: Seq<char>, vs: Seq<VersionEntry>, f: Found)
    ensures
        versions_found(ns, pkg, vs).contains(f) <==> exists|l: int|
            0 <= l < vs.len() && version_gives(ns, pkg, vs[l], f),
    decreases vs.len(),
{
    if vs.len() > 0 {
        let init = vs.drop_last();
        lemma_versions_members(ns, pkg, init, f);
        lemma_contains_add(versions_found(ns, pkg, init), version_found(ns, pkg, vs.last()), f);
        let one = version_found(ns, pkg, vs.last());
        assert(one.contains(f) <==> version_gives(ns, pkg, vs.last(), f)) by {
            if one.contains(f) {
                let k = choose|k: int| 0 <= k < one.len() && one[k] == f;
            }
            if version_gives(ns, pkg, vs.last(), f) {
                assert(one[0] == f);
            }
        }
        if versions_found(ns, pkg, vs).contains(f) {
            if versions_found(ns, pkg, init).contains(f) {
                let l = choose|l: int| 0 <= l < init.len() && version_gives(ns, pkg, init[l], f);
                assert(vs[l] == init[l]);
            } else {
                assert(version_gives(ns, pkg, vs[vs.len() - 1], f));
            }
        }
        if exists|l: int| 0 <= l < vs.len() && version_gives(ns, pkg, vs[l], f) {
            let l = choose|l: int| 0 <= l < vs.len() && version_gives(ns, pkg, vs[l], f);
            if l < vs.len() - 1 {
                assert(vs[l] == init[l]);
            }
        }
    }
}

/// The package directory `p` in namespace `ns`, selected by `name`, has a
/// version directory that gives `f`.
spec fn package_gives(ns: Seq<char>, p: PackageEntry, name: Seq<char>, f: Found) -> bool {
    &&& package_selected(p, name)
    &&& exists|l: int| 0 <= l < p.versions@.len() && version_gives(ns, p.name@, p.versions@[l], f)
}

proof fn lemma_packages_members(ns: Seq<char>, ps: Seq<PackageEntry>, name: Seq<char>, f: Found)
    ensures
        packages_found(ns, ps, name).contains(f) <==> exists|j: int|
            0 <= j < ps.len() && package_gives(ns, ps[j], name, f),
    decreases ps.len(),
{
    if ps.len() > 0 {
        let init = ps.drop_last();
        let p = ps.last();
        lemma_packages_members(ns, init, name, f);
        let one = if package_selected(p, name) {
            versions_found(ns, p.name@, p.versions@)
        } else {
            seq![]
        };
        lemma_contains_add(packages_found(ns, init, name), one, f);
        lemma_versions_members(ns, p.name@, p.versions@, f);
        assert(one.contains(f) <==> package_gives(ns, p, name, f));
        if packages_found(ns, ps, name).contains(f) {
            if packages_found(ns, init, name).contains(f) {
                let j = choose|j: int| 0 <= j < init.len() && package_gives(ns, init[j], name, f);
                assert(ps[j] == init[j]);
            } else {
                assert(package_gives(ns, ps[ps.len() - 1], name, f));
            }
        }
        if exists|j: int| 0 <= j < ps.len() && package_gives(ns, ps[j], name, f) {
            let j = choose|j: int| 0 <= j < ps.len() && package_gives(ns, ps[j], name, f);
            if j < ps.len() - 1 {
                assert(ps[j] == init[j]);
            }
        }
    }
}

/// The namespace directory `e`, selected by `namespace`, has a package
/// directory selected by `name` that gives `f`.
spec fn namespace_gives(e: NamespaceEntry, namespace: Seq<char>, name: Seq<char>, f: Found) -> bool {
    &&& namespace_selected(e, namespace)
    &&& exists|j: int| 0 <= j < e.packages@.len() && package_gives(e.name@, e.packages@[j], name, f)
}

proof fn lemma_namespaces_members(nss: Seq<NamespaceEntry>, namespace: Seq<char>, name: Seq<char>, f: Found)
    ensures
        namespaces_found(nss, namespace, name).contains(f) <==> exists|i: int|
            0 <= i < nss.len() && namespace_gives(nss[i], namespace, name, f),
    decreases nss.len(),
{
    if nss.len() > 0 {
        let init = nss.drop_last();
        let e = nss.last();
        lemma_namespaces_members(init, namespace, name, f);
        let one = if namespace_selected(e, namespace) {
            packages_found(e.name@, e.packages@, name)
        } else {
            seq![]
        };
        lemma_contains_add(namespaces_found(init, namespace, name), one, f);
        lemma_packages_members(e.name@, e.packages@, name, f);
        assert(one.contains(f) <==> namespace_gives(e, namespace, name, f));
        if namespaces_found(nss, namespace, name).contains(f) {
            if namespaces_found(init, namespace, name).contains(f) {
                let i = choose|i: int| 0 <= i < init.len() && namespace_gives(init[i], namespace, name, f);
                assert(nss[i] == init[i]);
            } else {
                assert(namespace_gives(nss[nss.len() - 1], namespace, name, f));
            }
        }
        if exists|i: int| 0 <= i < nss.len() && namespace_gives(nss[i], namespace, name, f) {
            let i = choose|i: int| 0 <= i < nss.len() && namespace_gives(nss[i], namespace, name, f);
            if i < nss.len() - 1 {
                assert(nss[i] == init[i]);
            }
        }
    }
}

/// What the listing finds is exactly what some version directory gives: a
/// visible directory, in a visible package directory whose name holds the
/// name filter (any when empty), in a visible namespace directory named as
/// the namespace filter (any when empty), whose specification parses.
pub proof fn lemma_found_from_store(nss: Seq<NamespaceEntry>, namespace: Seq<char>, name: Seq<char>, f: Found)
    ensures
        namespaces_found(nss, namespace, name).contains(f) <==> exists|i: int, j: int, l: int|
            0 <= i < nss.len() && 0 <= j < nss[i].packages@.len() && 0 <= l
                < nss[i].packages@[j].versions@.len() && {
                let e = nss[i];
                let p = e.packages@[j];
                let v = #[trigger] nss[i].packages@[j].versions@[l];
                &&& e.is_dir && !(e.name@.len() > 0 && e.name@[0] == '.')
                &&& namespace.len() == 0 || e.name@ == namespace
                &&& p.is_dir && !(p.name@.len() > 0 && p.name@[0] == '.')
                &&& name.len() == 0 || has_infix(p.name@, name)
                &&& v.is_dir && !(v.name@.len() > 0 && v.name@[0] == '.')
                &&& parsed_package_spec(seq!['@'] + e.name@ + seq!['/'] + p.name@ + seq![':'] + v.name@)
                    == Some(f.0)
                &&& f.1 == v.created
            },
{
    lemma_namespaces_members(nss, namespace, name, f);
    if namespaces_found(nss, namespace, name).contains(f) {
        let i = choose|i: int| 0 <= i < nss.len() && namespace_gives(nss[i], namespace, name, f);
        let e = nss[i];
        let j = choose|j: int| 0 <= j < e.packages@.len() && package_gives(e.name@, e.packages@[j], name, f);
        let p = e.packages@[j];
        let l = choose|l: int| 0 <= l < p.versions@.len() && version_gives(e.name@, p.name@, p.versions@[l], f);
        assert(0 <= i < nss.len() && 0 <= j < nss[i].packages@.len() && 0 <= l
            < nss[i].packages@[j].versions@.len());
    }
    if exists|i: int, j: int, l: int|
        0 <= i < nss.len() && 0 <= j < nss[i].packages@.len() && 0 <= l
            < nss[i].packages@[j].versions@.len() && {
            let e = nss[i];
            let p = e.packages@[j];
            let v = #[trigger] nss[i].packages@[j].versions@[l];
            &&& e.is_dir && !(e.name@.len() > 0 && e.name@[0] == '.')
            &&& namespace.len() == 0 || e.name@ == namespace
            &&& p.is_dir && !(p.name@.len() > 0 && p.name@[0] == '.')
            &&& name.len() == 0 || has_infix(p.name@, name)
            &&& v.is_dir && !(v.name@.len() > 0 && v.name@[0] == '.')
            &&& parsed_package_spec(seq!['@'] + e.name@ + seq!['/'] + p.name@ + seq![':'] + v.name@)
                == Some(f.0)
            &&& f.1 == v.created
        } {
        let (i, j, l) = choose|i: int, j: int, l: int|
            0 <= i < nss.len() && 0 <= j < nss[i].packages@.len() && 0 <= l
                < nss[i].packages@[j].versions@.len() && {
                let e = nss[i];
                let p = e.packages@[j];
                let v = #[trigger] nss[i].packages@[j].versions@[l];
                &&& e.is_dir && !(e.name@.len() > 0 && e.name@[0] == '.')
                &&& namespace.len() == 0 || e.name@ == namespace
                &&& p.is_dir && !(p.name@.len() > 0 && p.name@[0] == '.')
                &&& name.len() == 0 || has_infix(p.name@, name)
                &&& v.is_dir && !(v.name@.len() > 0 && v.name@[0] == '.')
                &&& parsed_package_spec(seq!['@'] + e.name@ + seq!['/'] + p.name@ + seq![':'] + v.name@)
                    == Some(f.0)
                &&& f.1 == v.created
            };
        let e = nss[i];
        let p = e.packages@[j];
        assert(version_gives(e.name@, p.name@, p.versions@[l], f));
        assert(package_gives(e.name@, p, name, f));
        assert(namespace_gives(e, namespace, name, f));
    }
}

/// A namespace directory named `name` is listed under the namespace filter.
pub fn namespace_dir_selected(name: &str, is_dir: bool, filter: &str) -> (r: bool)
    ensures
        r == (visible_dir(name@, is_dir) && (filter@.len() == 0 || name@ == filter@)),
{
    let n = chars_of(name);
    let f = chars_of(filter);
    is_visible_dir(&n, is_dir) && (f.len() == 0 || chars_eq(&n, &f))
}

/// A package directory named `name` is listed under the name filter.
pub fn package_dir_selected(name: &str, is_dir: bool, filter: &str) -> (r: bool)
    ensures
        r == (visible_dir(name@, is_dir) && (filter@.len() == 0 || has_infix(name@, filter@))),
{
    let n = chars_of(name);
    let f = chars_of(filter);
    is_visible_dir(&n, is_dir) && (f.len() == 0 || contains_chars(&n, &f))
}

/// Decides `visible_dir`.
fn is_visible_dir(name: &Vec<char>, is_dir: bool) -> (r: bool)
    ensures
        r == visible_dir(name@, is_dir),
{
    is_dir && !(name.len() > 0 && name[0] == '.')
}

/// Appends what the version directories of one package contribute.
fn collect_versions(ns: &Vec<char>, pkg: &Vec<char>, vs: &Vec<VersionEntry>, out: &mut Vec<FoundPackage>)
    requires
        all_shaped(founds(old(out)@)),
    ensures
        founds(final(out)@) == founds(old(out)@) + versions_found(ns@, pkg@, vs@),
        all_shaped(founds(final(out)@)),
{
    let ghost start = founds(out@);
    let n = vs.len();
    let mut i: usize = 0;
    assert(vs@.take(0) =~= Seq::<VersionEntry>::empty());
    assert(founds(out@) =~= start + versions_found(ns@, pkg@, vs@.take(0)));
    while i < n
        invariant
            n == vs.len(),
            i <= n,
            founds(out@) == start + versions_found(ns@, pkg@, vs@.take(i as int)),
            all_shaped(founds(out@)),
        decreases n - i,
    {
        let v = &vs[i];
        assert(vs@.take(i + 1).drop_last() =~= vs@.take(i as int));
        assert(vs@.take(i + 1).last() == vs@[i as int]);
        let vname = chars_of(v.name.as_str());
        let mut text: Vec<char> = Vec::new();
        text.push('@');
        push_all(&mut text, ns);
        text.push('/');
        push_all(&mut text, pkg);
        text.push(':');
        push_all(&mut text, &vname);
        assert(text@ =~= candidate_text(ns@, pkg@, v.name@));
        let parsed = parse_package_spec(string_of(&text).as_str());
        let ghost before = founds(out@);
        match parsed {
            Some(spec) => {
                if is_visible_dir(&vname, v.is_dir) {
                    out.push(FoundPackage { spec, created: v.created });
                    assert(founds(out@) =~= before + seq![(spec.tuple(), v.created)]);
                    assert forall|k: int| 0 <= k < founds(out@).len() implies spec_shape(
                        #[trigger] founds(out@)[k].0,
                    ) by {
                        if k < before.len() {
                            assert(founds(out@)[k] == before[k]);
                        }
                    }
                }
            },
            None => {},
        }
        assert(founds(out@) =~= before + version_found(ns@, pkg@, vs@[i as int]));
        i = i + 1;
    }
    assert(vs@.take(n as int) =~= vs@);
}

/// Appends what the package directories of one namespace contribute.
fn collect_packages(ns: &Vec<char>, ps: &Vec<PackageEntry>, name: &Vec<char>, out: &mut Vec<FoundPackage>)
    requires
        all_shaped(founds(old(out)@)),
    ensures
        founds(final(out)@) == founds(old(out)@) + packages_found(ns@, ps@, name@),
        all_shaped(founds(final(out)@)),
{
    let ghost start = founds(out@);
    let n = ps.len();
    let mut i: usize = 0;
    assert(ps@.take(0) =~= Seq::<PackageEntry>::empty());
    assert(founds(out@) =~= start + packages_found(ns@, ps@.take(0), name@));
    while i < n
        invariant
            n == ps.len(),
            i <= n,
            founds(out@) == start + packages_found(ns@, ps@.take(i as int), name@),
            all_shaped(founds(out@)),
        decreases n - i,
    {
        let p = &ps[i];
        assert(ps@.take(i + 1).drop_last() =~= ps@.take(i as int));
        assert(ps@.take(i + 1).last() == ps@[i as int]);
        let pname = chars_of(p.name.as_str());
        let ghost before = founds(out@);
        if is_visible_dir(&pname, p.is_dir) && (name.len() == 0 || contains_chars(&pname, name)) {
            collect_versions(ns, &pname, &p.versions, out);
        }
        assert(founds(out@) =~= before + if package_selected(ps@[i as int], name@) {
            versions_found(ns@, ps@[i as int].name@, ps@[i as int].versions@)
        } else {
            Seq::<Found>::empty()
        });
        i = i + 1;
    }
    assert(ps@.take(n as int) =~= ps@);
}

/// The package versions found in the local store under the list arguments,
/// in directory order.
pub fn collect_found(args: &PackageListArgs, tree: &Vec<NamespaceEntry>) -> (out: Vec<FoundPackage>)
    ensures
        founds(out@) == namespaces_found(tree@, args.namespace@, args.name@),
        all_shaped(founds(out@)),
{
    let filter = chars_of(args.namespace.as_str());
    let name = chars_of(args.name.as_str());
    let mut out: Vec<FoundPackage> = Vec::new();
    let n = tree.len();
    let mut i: usize = 0;
    assert(tree@.take(0) =~= Seq::<NamespaceEntry>::empty());
    assert(founds(out@) =~= namespaces_found(tree@.take(0), filter@, name@));
    while i < n
        invariant
            n == tree.len(),
            i <= n,
            filter@ == args.namespace@,
            name@ == args.name@,
            founds(out@) == namespaces_found(tree@.take(i as int), filter@, name@),
            all_shaped(founds(out@)),
        decreases n - i,
    {
        let e = &tree[i];
        assert(tree@.take(i + 1).drop_last() =~= tree@.take(i as int));
        assert(tree@.take(i + 1).last() == tree@[i as int]);
        let ename = chars_of(e.name.as_str());
        let ghost before = founds(out@);
        if is_visible_dir(&ename, e.is_dir) && (filter.len() == 0 || chars_eq(&ename, &filter)) {
            collect_packages(&ename, &e.packages, &name, &mut out);
        }
        assert(founds(out@) =~= before + if namespace_selected(tree@[i as int], filter@) {
            packages_found(tree@[i as int].name@, tree@[i as int].packages@, name@)
        } else {
            Seq::<Found>::empty()
        });
        i = i + 1;
    }
    assert(tree@.take(n as int) =~= tree@);
    out
}

/// The header line of the listing table.
pub open spec fn header_text() -> Seq<char> {
    "Package"@ + seq!['\t'] + "Namespace"@ + seq!['\t'] + "Created"@
}

/// The "Created" column: how long ago, or "unknown".
pub open spec fn created_text(created: Option<Timestamp>, now: Timestamp) -> Seq<char> {
    match created {
        Some(t) => ago_text(elapsed_secs(now, t)),
        None => "unknown"@,
    }
}

/// A table line before splitting: `name:version`, `@namespace`, created.
pub open spec fn row_text(f: Found, now: Timestamp) -> Seq<char> {
    f.0.1 + seq![':'] + version_text(f.0.2) + seq!['\t', '@'] + f.0.0 + seq!['\t'] + created_text(
        f.1,
        now,
    )
}

/// `s` holds no `c`.
pub open spec fn lacks(s: Seq<char>, c: char) -> bool {
    forall|i: int| 0 <= i < s.len() ==> s[i] != c
}

proof fn lemma_lacks_add(a: Seq<char>, b: Seq<char>, c: char)
    requires
        lacks(a, c),
        lacks(b, c),
    ensures
        lacks(a + b, c),
{
    assert forall|i: int| 0 <= i < (a + b).len() implies (a + b)[i] != c by {
        if i < a.len() {
            assert((a + b)[i] == a[i]);
        } else {
            assert((a + b)[i] == b[i - a.len()]);
        }
    }
}

/// Three tab-free pieces joined by two tabs split into three cells.
proof fn lemma_three_cells(a: Seq<char>, b: Seq<char>, c: Seq<char>)
    requires
        lacks(a, '\t'),
        lacks(b, '\t'),
        lacks(c, '\t'),
    ensures
        split_on(a + seq!['\t'] + b + seq!['\t'] + c, '\t').len() == 3,
{
    let t = seq!['\t'];
    lemma_count_absent(a, '\t');
    lemma_count_absent(b, '\t');
    lemma_count_absent(c, '\t');
    assert(t.drop_last() =~= Seq::<char>::empty());
    assert(count_char(Seq::<char>::empty(), '\t') == 0);
    assert(t.last() == '\t');
    assert(count_char(t, '\t') == 1);
    lemma_count_add(a, t, '\t');
    lemma_count_add(a + t, b, '\t');
    lemma_count_add(a + t + b, t, '\t');
    lemma_count_add(a + t + b + t, c, '\t');
    lemma_split_on_count(a + t + b + t + c, '\t');
}

/// The numerals of a version hold no tab.
proof fn lemma_version_lacks_tab(v: (u32, u32, u32))
    ensures
        lacks(version_text(v), '\t'),
{
    lemma_decimal_no_tab(v.0 as nat);
    lemma_decimal_no_tab(v.1 as nat);
    lemma_decimal_no_tab(v.2 as nat);
    let d = seq!['.'];
    lemma_lacks_add(decimal(v.0 as nat), d, '\t');
    lemma_lacks_add(decimal(v.0 as nat) + d, decimal(v.1 as nat), '\t');
    lemma_lacks_add(decimal(v.0 as nat) + d + decimal(v.1 as nat), d, '\t');
    lemma_lacks_add(decimal(v.0 as nat) + d + decimal(v.1 as nat) + d, decimal(v.2 as nat), '\t');
}

/// The "Created" column holds no tab.
proof fn lemma_created_lacks_tab(created: Option<Timestamp>, now: Timestamp)
    ensures
        lacks(created_text(created, now), '\t'),
{
    reveal_strlit("m");
    reveal_strlit("s");
    reveal_strlit(" hours ago");
    reveal_strlit(" days ");
    reveal_strlit(" days ago");
    reveal_strlit("unknown");
    match created {
        Some(t) => {
            let secs = elapsed_secs(now, t);
            lemma_decimal_no_tab(secs / 60);
            lemma_decimal_no_tab(secs % 60);
            lemma_decimal_no_tab(secs / 3600);
            lemma_decimal_no_tab(secs / 86400);
            lemma_decimal_no_tab((secs % 86400) / 3600);
            assert(lacks("m"@, '\t'));
            assert(lacks("s"@, '\t'));
            assert(lacks(" hours ago"@, '\t'));
            assert(lacks(" days "@, '\t'));
            assert(lacks(" days ago"@, '\t'));
            if secs < 3600 {
                lemma_lacks_add(decimal(secs / 60), "m"@, '\t');
                lemma_lacks_add(decimal(secs / 60) + "m"@, decimal(secs % 60), '\t');
                lemma_lacks_add(decimal(secs / 60) + "m"@ + decimal(secs % 60), "s"@, '\t');
            } else if secs < 172800 {
                lemma_lacks_add(decimal(secs / 3600), " hours ago"@, '\t');
            } else if secs / 86400 < 7 {
                let d = decimal(secs / 86400);
                let h = decimal((secs % 86400) / 3600);
                lemma_lacks_add(d, " days "@, '\t');
                lemma_lacks_add(d + " days "@, h, '\t');
                lemma_lacks_add(d + " days "@ + h, " hours ago"@, '\t');
            } else {
                lemma_lacks_add(decimal(secs / 86400), " days ago"@, '\t');
            }
        },
        None => {
            assert(lacks("unknown"@, '\t'));
        },
    }
}

/// Every table line splits into three cells, given that the listed
/// namespaces and names hold no whitespace.
pub proof fn lemma_table_cells_three(shown: Seq<Found>, now: Timestamp)
    requires
        all_shaped(shown),
    ensures
        forall|k: int|
            0 <= k < table_cells(shown, now).len() ==> #[trigger] table_cells(shown, now)[k].len()
                == 3,
{
    let cells = table_cells(shown, now);
    reveal_strlit("Package");
    reveal_strlit("Namespace");
    reveal_strlit("Created");
    assert(lacks("Package"@, '\t'));
    assert(lacks("Namespace"@, '\t'));
    assert(lacks("Created"@, '\t'));
    lemma_three_cells("Package"@, "Namespace"@, "Created"@);
    assert forall|k: int| 0 <= k < cells.len() implies #[trigger] cells[k].len() == 3 by {
        if k == 0 {
            assert(cells[0] == split_on(header_text(), '\t'));
        } else {
            let f = shown[k - 1];
            assert(cells[k] == split_on(row_text(f, now), '\t'));
            assert(spec_shape(f.0));
            assert(lacks(f.0.1, '\t')) by {
                assert forall|i: int| 0 <= i < f.0.1.len() implies f.0.1[i] != '\t' by {
                    assert(!is_space(f.0.1[i]));
                }
            }
            assert(lacks(f.0.0, '\t')) by {
                assert forall|i: int| 0 <= i < f.0.0.len() implies f.0.0[i] != '\t' by {
                    assert(!is_space(f.0.0[i]));
                }
            }
            lemma_version_lacks_tab(f.0.2);
            lemma_created_lacks_tab(f.1, now);
            let a = f.0.1 + seq![':'] + version_text(f.0.2);
            let b = seq!['@'] + f.0.0;
            lemma_lacks_add(f.0.1, seq![':'], '\t');
            lemma_lacks_add(f.0.1 + seq![':'], version_text(f.0.2), '\t');
            lemma_lacks_add(seq!['@'], f.0.0, '\t');
            lemma_three_cells(a, b, created_text(f.1, now));
            assert(row_text(f, now) =~= a + seq!['\t'] + b + seq!['\t'] + created_text(f.1, now));
        }
    }
}

/// The found packages in the given order, only the first one under `first`.
pub open spec fn shown(found: Seq<Found>, order: Seq<usize>, first: bool) -> Seq<Found> {
    let all = order.map_values(|i: usize| found[i as int]);
    if first && all.len() > 1 {
        all.take(1)
    } else {
        all
    }
}

/// The `--id` output: one specification per line.
pub open spec fn id_text(shown: Seq<Found>) -> Seq<char> {
    join(shown.map_values(|f: Found| spec_text(f.0)), seq!['\n'])
}

/// The cells of the listing table: the header, then one row per package,
/// each line split at tabs.
pub open spec fn table_cells(shown: Seq<Found>, now: Timestamp) -> Seq<Seq<Seq<char>>> {
    seq![header_text()].add(shown.map_values(|f: Found| row_text(f, now))).map_values(
        |l: Seq<char>| split_on(l, '\t'),
    )
}

/// What the listing prints for the shown packages, or the table error.
pub open spec fn shown_outcome(shown: Seq<Found>, id: bool, now: Timestamp, r: Result<Seq<char>, TableError>) -> bool {
    if id {
        r == Ok::<Seq<char>, TableError>(id_text(shown))
    } else {
        let cells = table_cells(shown, now);
        let cols = cells[0].len();
        match r {
            Ok(text) => (forall|k: int| 0 <= k < cells.len() ==> #[trigger] cells[k].len() == cols)
                && text == table_text(cells),
            Err(e) => {
                &&& e.expected == cols
                &&& e.got != cols
                &&& exists|k: int|
                    0 <= k < cells.len() && cells[k].len() == e.got && forall|j: int|
                        0 <= j < k ==> #[trigger] cells[j].len() == cols
            },
        }
    }
}

/// The specifications of found packages.
pub open spec fn keys_of(found: Seq<Found>) -> Seq<SpecTuple> {
    found.map_values(|f: Found| f.0)
}

/// The listing of the found packages: sorted by namespace, name and
/// descending version (stably), cut to the first under `first`, printed as
/// specifications under `id`, else as a table.
pub open spec fn list_outcome(found: Seq<Found>, first: bool, id: bool, now: Timestamp, r: Result<Seq<char>, TableError>) -> bool {
    exists|order: Seq<usize>|
        is_listing_order(keys_of(found), order) && shown_outcome(
            shown(found, order, first),
            id,
            now,
            r,
        )
}

/// The text of a result.
pub open spec fn result_view(r: Result<String, TableError>) -> Result<Seq<char>, TableError> {
    match r {
        Ok(s) => Ok(s@),
        Err(e) => Err(e),
    }
}

/// The pieces as strings.
fn strings_of(ps: &Vec<Vec<char>>) -> (r: Vec<String>)
    ensures
        string_views(r@) == char_views(ps@),
{
    let mut r: Vec<String> = Vec::new();
    let mut i: usize = 0;
    while i < ps.len()
        invariant
            i <= ps.len(),
            r.len() == i,
            string_views(r@) == char_views(ps@).take(i as int),
        decreases ps.len() - i,
    {
        let ghost old_r = r@;
        r.push(string_of(&ps[i]));
        assert forall|j: int| 0 <= j < i + 1 implies string_views(r@)[j] == char_views(ps@).take(
            i + 1,
        )[j] by {
            if j < i {
                assert(r@[j] == old_r[j]);
                assert(string_views(old_r)[j] == char_views(ps@).take(i as int)[j]);
            }
        }
        assert(string_views(r@) =~= char_views(ps@).take(i + 1));
        i = i + 1;
    }
    assert(char_views(ps@).take(ps.len() as int) =~= char_views(ps@));
    r
}

/// The table line of a found package, before splitting.
fn row_chars(f: &FoundPackage, now: Timestamp) -> (v: Vec<char>)
    ensures
        v@ == row_text(f.found(), now),
{
    let mut v = chars_of(f.spec.name.as_str());
    v.push(':');
    push_all(&mut v, &f.spec.version.text_chars());
    v.push('\t');
    v.push('@');
    push_str(&mut v, f.spec.namespace.as_str());
    v.push('\t');
    match f.created {
        Some(t) => push_str(&mut v, time_ago(now, t).as_str()),
        None => push_str(&mut v, "unknown"),
    }
    assert(v@ =~= row_text(f.found(), now));
    v
}

/// Lists the packages of the local store: keeps the directories that the
/// arguments select, sorts by namespace, name and descending version,
/// and renders specifications (`id`) or a table with creation times.
pub fn package_list(args: &PackageListArgs, tree: &Vec<NamespaceEntry>, now: Timestamp) -> (r: Result<String, TableError>)
    ensures
        list_outcome(
            namespaces_found(tree@, args.namespace@, args.name@),
            args.first,
            args.id,
            now,
            result_view(r),
        ),
        all_shaped(namespaces_found(tree@, args.namespace@, args.name@)),
        r is Ok,
{
    let found = collect_found(args, tree);
    let ghost fs = founds(found@);
    let ghost keys = keys_of(fs);
    let mut specs: Vec<PackageSpec> = Vec::new();
    let mut i: usize = 0;
    while i < found.len()
        invariant
            fs == founds(found@),
            keys == keys_of(fs),
            i <= found.len(),
            specs.len() == i,
            keys.len() == found.len(),
            tuples(specs@) == keys.take(i as int),
        decreases found.len() - i,
    {
        let ghost old_specs = specs@;
        specs.push(found[i].spec.duplicate());
        assert forall|j: int| 0 <= j < i + 1 implies tuples(specs@)[j] == keys.take(i + 1)[j] by {
            if j < i {
                assert(specs@[j] == old_specs[j]);
                assert(tuples(old_specs)[j] == keys.take(i as int)[j]);
            } else {
                assert(fs[j] == found@[j].found());
            }
        }
        assert(tuples(specs@) =~= keys.take(i + 1));
        i = i + 1;
    }
    assert(keys.take(found.len() as int) =~= keys);
    let order = listing_order(&specs);
    let mut count = order.len();
    if args.first && count > 1 {
        count = 1;
    }
    let ghost sh = shown(fs, order@, args.first);
    assert(sh.len() == count);
    assert(forall|k: int| 0 <= k < count ==> #[trigger] sh[k] == fs[order@[k] as int]);
    if args.id {
        let mut lines: Vec<Vec<char>> = Vec::new();
        let mut k: usize = 0;
        while k < count
            invariant
                fs == founds(found@),
                order.len() == found.len(),
                forall|j: int| 0 <= j < order.len() ==> order@[j] < found.len(),
                count <= order.len(),
                sh.len() == count,
                forall|j: int| 0 <= j < count ==> #[trigger] sh[j] == fs[order@[j] as int],
                k <= count,
                lines.len() == k,
                char_views(lines@) == sh.take(k as int).map_values(|f: Found| spec_text(f.0)),
            decreases count - k,
        {
            let ghost old_lines = lines@;
            lines.push(found[order[k]].spec.text_chars());
            assert forall|j: int| 0 <= j < k + 1 implies char_views(lines@)[j] == sh.take(
                k + 1,
            ).map_values(|f: Found| spec_text(f.0))[j] by {
                if j < k {
                    assert(lines@[j] == old_lines[j]);
                    assert(char_views(old_lines)[j] == sh.take(k as int).map_values(
                        |f: Found| spec_text(f.0),
                    )[j]);
                } else {
                    assert(fs[order@[j] as int] == found@[order@[j] as int].found());
                }
            }
            assert(char_views(lines@) =~= sh.take(k + 1).map_values(|f: Found| spec_text(f.0)));
            k = k + 1;
        }
        assert(sh.take(count as int) =~= sh);
        let mut nl: Vec<char> = Vec::new();
        nl.push('\n');
        let text = join_chars(&lines, &nl);
        assert(nl@ =~= seq!['\n']);
        assert(shown_outcome(sh, args.id, now, Ok(text@)));
        return Ok(string_of(&text));
    }
    let ghost lines_spec = seq![header_text()].add(sh.map_values(|f: Found| row_text(f, now)));
    let ghost cells = table_cells(sh, now);
    let mut rows: Vec<Vec<String>> = Vec::new();
    let mut header: Vec<char> = Vec::new();
    push_str(&mut header, "Package");
    header.push('\t');
    push_str(&mut header, "Namespace");
    header.push('\t');
    push_str(&mut header, "Created");
    assert(header@ =~= header_text());
    rows.push(strings_of(&split_chars(&header, '\t')));
    let mut k: usize = 0;
    assert(cells_of(rows@) =~= cells.take(1));
    assert(rows.len() == 1);
    while k < count
        invariant
            fs == founds(found@),
            order.len() == found.len(),
            forall|j: int| 0 <= j < order.len() ==> order@[j] < found.len(),
            count <= order.len(),
            sh.len() == count,
            forall|j: int| 0 <= j < count ==> #[trigger] sh[j] == fs[order@[j] as int],
            cells == table_cells(sh, now),
            cells.len() == count + 1,
            k <= count,
            rows.len() == k + 1,
            cells_of(rows@) == cells.take(k + 1),
        decreases count - k,
    {
        let f = &found[order[k]];
        let line = row_chars(f, now);
        let ghost old_rows = rows@;
        rows.push(strings_of(&split_chars(&line, '\t')));
        assert(fs[order@[k as int] as int] == found@[order@[k as int] as int].found());
        assert(cells[k + 1] == split_on(row_text(sh[k as int], now), '\t'));
        assert forall|j: int| 0 <= j < k + 2 implies cells_of(rows@)[j] == cells.take(k + 2)[j] by {
            if j < k + 1 {
                assert(rows@[j] == old_rows[j]);
                assert(cells_of(old_rows)[j] == cells.take(k + 1)[j]);
            } else {
                assert(rows@[j]@.map_values(|c: String| c@) =~= string_views(rows@[j]@));
            }
        }
        assert(cells_of(rows@) =~= cells.take(k + 2));
        k = k + 1;
    }
    assert(cells.take(count + 1) =~= cells);
    assert(cells_of(rows@) == cells);
    let cols = rows[0].len();
    assert(cols == cells[0].len());
    proof {
        assert forall|j: int| 0 <= j < sh.len() implies spec_shape(#[trigger] sh[j].0) by {
            assert(sh[j] == fs[order@[j] as int]);
        }
        lemma_table_cells_three(sh, now);
    }
    match check_table(rows.as_slice(), cols) {
        Ok(()) => {
            assert forall|j: int| 0 <= j < cells.len() implies #[trigger] cells[j].len() == cols by {
                assert(rows@[j].len() == cols);
            }
            let text = render_table(&rows, cols);
            Ok(text)
        },
        Err(e) => {
            let ghost kk = choose|kk: int|
                0 <= kk < rows@.len() && rows@[kk].len() == e.got && all_rows_have(
                    rows@.take(kk),
                    cols as nat,
                );
            assert forall|j: int| 0 <= j < kk implies #[trigger] cells[j].len() == cols by {
                assert(rows@.take(kk)[j] == rows@[j]);
                assert(cells_of(rows@)[j].len() == rows@[j].len());
            }
            assert(cells[kk].len() == e.got);
            assert(cells[kk].len() == 3 && cells[0].len() == 3);
            assert(false);
            Err(e)
        },
    }
}

/// `ns` without one leading `@`.
pub open spec fn human_ns_text(ns: Seq<char>) -> Seq<char> {
    if ns.len() > 0 && ns[0] == '@' {
        ns.drop_first()
    } else {
        ns
    }
}

/// The namespace as a directory name: without a leading `@`.
pub fn human_ns(ns: &str) -> (r: &str)
    ensures
        r@ == human_ns_text(ns@),
{
    let n = ns.unicode_len();
    if n > 0 && ns.get_char(0) == '@' {
        let r = ns.substring_char(1, n);
        assert(r@ =~= ns@.drop_first());
        r
    } else {
        ns
    }
}

/// Why `package path` refuses its arguments.
pub enum CdError {
    /// More than one specification was given.
    MultipleSpecs,
    /// No specification was given.
    NoSpec,
    /// The specification is blank.
    EmptySpec,
    /// The specification has a version but no `/` (the trimmed text is kept).
    MissingSlash(String),
}

/// The message for a refused `package path`.
pub open spec fn cd_error_text(e: CdError) -> Seq<char> {
    match e {
        CdError::MultipleSpecs => "Multiple package specs provided"@,
        CdError::NoSpec => "No package spec provided"@,
        CdError::EmptySpec => "Empty package spec"@,
        CdError::MissingSlash(spec) => "invalid package spec: "@ + spec@
            + ". Please use `@namespace/package:version`"@,
    }
}

impl CdError {
    /// The message that reports the error.
    pub fn message(&self) -> (s: String)
        ensures
            s@ == cd_error_text(*self),
    {
        match self {
            CdError::MultipleSpecs => String::from_str("Multiple package specs provided"),
            CdError::NoSpec => String::from_str("No package spec provided"),
            CdError::EmptySpec => String::from_str("Empty package spec"),
            CdError::MissingSlash(spec) => {
                let mut v: Vec<char> = Vec::new();
                push_str(&mut v, "invalid package spec: ");
                push_str(&mut v, spec.as_str());
                push_str(&mut v, ". Please use `@namespace/package:version`");
                string_of(&v)
            },
        }
    }
}

/// The directories below the local package store that a trimmed
/// specification names: `@ns/pkg:version` gives `ns`, `pkg`, `version`;
/// `@ns/pkg` gives `ns`, `pkg`; `@ns` gives `ns` (one leading `@` dropped).
pub open spec fn path_segments(t: Seq<char>) -> Seq<Seq<char>> {
    match split_once(t, '/') {
        Some((ns, pkg)) => if t.contains(':') {
            match split_once(pkg, ':') {
                Some((p, v)) => seq![human_ns_text(ns), p, v],
                None => seq![],
            }
        } else {
            seq![human_ns_text(ns), pkg]
        },
        None => seq![human_ns_text(t)],
    }
}

/// A namespace is named as it is written when it does not start with `@`,
/// and without the one `@` when it does.
pub proof fn lemma_human_ns_text(ns: Seq<char>)
    ensures
        ns.len() == 0 || ns[0] != '@' ==> human_ns_text(ns) == ns,
        human_ns_text(seq!['@'] + ns) == ns,
{
    assert((seq!['@'] + ns).drop_first() =~= ns);
}

/// `a + [c] + b` holds `d` exactly where `a` or `b` does or `c` is `d`.
proof fn lemma_contains_joined(a: Seq<char>, c: char, b: Seq<char>, d: char)
    ensures
        (a + seq![c] + b).contains(d) <==> (a.contains(d) || c == d || b.contains(d)),
{
    let s = a + seq![c] + b;
    if s.contains(d) {
        let k = choose|k: int| 0 <= k < s.len() && s[k] == d;
        if k < a.len() {
            assert(a[k] == d);
        } else if k > a.len() {
            assert(b[k - a.len() - 1] == d);
        }
    }
    if a.contains(d) {
        let k = choose|k: int| 0 <= k < a.len() && a[k] == d;
        assert(s[k] == d);
    }
    if b.contains(d) {
        let k = choose|k: int| 0 <= k < b.len() && b[k] == d;
        assert(s[a.len() + 1 + k] == d);
    }
    assert(s[a.len() as int] == c);
}

/// The directories of a full specification `ns/pkg:version` are the
/// namespace, the name and the version, the namespace as written when it
/// does not start with `@` and without that `@` when it does.
pub proof fn lemma_path_segments_full(ns: Seq<char>, pkg: Seq<char>, v: Seq<char>)
    requires
        !ns.contains('/'),
        !pkg.contains(':'),
    ensures
        ns.len() == 0 || ns[0] != '@' ==> path_segments(ns + seq!['/'] + pkg + seq![':'] + v)
            == seq![ns, pkg, v],
        path_segments(seq!['@'] + ns + seq!['/'] + pkg + seq![':'] + v) == seq![ns, pkg, v],
{
    let rest = pkg + seq![':'] + v;
    lemma_split_once_at(pkg, ':', v);
    lemma_contains_joined(pkg, ':', v, ':');
    lemma_human_ns_text(ns);
    let t = ns + seq!['/'] + rest;
    assert(t =~= ns + seq!['/'] + pkg + seq![':'] + v);
    lemma_split_once_at(ns, '/', rest);
    lemma_contains_joined(ns, '/', rest, ':');
    let at = seq!['@'] + ns;
    lemma_contains_joined(seq![], '@', ns, '/');
    assert(seq![] + seq!['@'] + ns =~= at);
    let u = at + seq!['/'] + rest;
    assert(u =~= seq!['@'] + ns + seq!['/'] + pkg + seq![':'] + v);
    lemma_split_once_at(at, '/', rest);
    lemma_contains_joined(at, '/', rest, ':');
}

/// The directories of `ns/pkg`, with no `:` in it, are the namespace and
/// the name, the namespace as written when it does not start with `@` and
/// without that `@` when it does.
pub proof fn lemma_path_segments_named(ns: Seq<char>, pkg: Seq<char>)
    requires
        !ns.contains('/'),
        !ns.contains(':'),
        !pkg.contains(':'),
    ensures
        ns.len() == 0 || ns[0] != '@' ==> path_segments(ns + seq!['/'] + pkg) == seq![ns, pkg],
        path_segments(seq!['@'] + ns + seq!['/'] + pkg) == seq![ns, pkg],
{
    lemma_human_ns_text(ns);
    lemma_split_once_at(ns, '/', pkg);
    lemma_contains_joined(ns, '/', pkg, ':');
    let at = seq!['@'] + ns;
    lemma_contains_joined(seq![], '@', ns, '/');
    lemma_contains_joined(seq![], '@', ns, ':');
    assert(seq![] + seq!['@'] + ns =~= at);
    lemma_split_once_at(at, '/', pkg);
    lemma_contains_joined(at, '/', pkg, ':');
}

/// A specification without `/` names one directory: the namespace as
/// written when it does not start with `@`, and without that `@` when it
/// does.
pub proof fn lemma_path_segments_bare(ns: Seq<char>)
    requires
        !ns.contains('/'),
    ensures
        ns.len() == 0 || ns[0] != '@' ==> path_segments(ns) == seq![ns],
        path_segments(seq!['@'] + ns) == seq![ns],
{
    lemma_human_ns_text(ns);
    lemma_first_index_contains(ns, '/');
    let at = seq!['@'] + ns;
    lemma_contains_joined(seq![], '@', ns, '/');
    assert(seq![] + seq!['@'] + ns =~= at);
    lemma_first_index_contains(at, '/');
}

/// The one specification has a `:` and a `/`, but no `:` after its first
/// `/`: splitting the part after the `/` at `:` fails, and `package path`
/// does not accept such a specification.
pub open spec fn cd_panics(specs: Seq<Seq<char>>) -> bool {
    specs.len() == 1 && {
        let t = trim(specs[0]);
        t.contains(':') && match split_once(t, '/') {
            Some((_ns, pkg)) => !pkg.contains(':'),
            None => false,
        }
    }
}

/// What `package path` answers for the given specifications.
pub open spec fn cd_outcome(specs: Seq<Seq<char>>, r: Result<Vec<String>, CdError>) -> bool {
    if specs.len() > 1 {
        r matches Err(CdError::MultipleSpecs)
    } else if specs.len() == 0 {
        r matches Err(CdError::NoSpec)
    } else {
        let t = trim(specs[0]);
        if t.len() == 0 {
            r matches Err(CdError::EmptySpec)
        } else if t.contains(':') && !t.contains('/') {
            r matches Err(CdError::MissingSlash(s)) && s@ == t
        } else {
            r matches Ok(segs) && string_views(segs@) == path_segments(t)
        }
    }
}

/// Resolves the arguments of `package path` to directory names below the
/// local package store.
pub fn package_cd(args: &PackagePathArgs) -> (r: Result<Vec<String>, CdError>)
    requires
        !cd_panics(string_views(args.spec@)),
    ensures
        cd_outcome(string_views(args.spec@), r),
{
    let ghost specs = string_views(args.spec@);
    if args.spec.len() > 1 {
        return Err(CdError::MultipleSpecs);
    }
    if args.spec.len() == 0 {
        return Err(CdError::NoSpec);
    }
    assert(specs[0] == args.spec@[0]@);
    let t = trim_chars(&chars_of(args.spec[0].as_str()));
    if t.len() == 0 {
        return Err(CdError::EmptySpec);
    }
    let has_colon = has_char(&t, ':');
    let has_slash = has_char(&t, '/');
    if has_colon && !has_slash {
        return Err(CdError::MissingSlash(string_of(&t)));
    }
    proof {
        lemma_first_index_contains(t@, '/');
    }
    let mut segs: Vec<String> = Vec::new();
    match split_once_chars(&t, '/') {
        Some((ns, pkg)) => {
            let ns_text = string_of(&ns);
            segs.push(String::from_str(human_ns(ns_text.as_str())));
            if has_colon {
                proof {
                    lemma_first_index_contains(pkg@, ':');
                }
                match split_once_chars(&pkg, ':') {
                    Some((p, v)) => {
                        segs.push(string_of(&p));
                        segs.push(string_of(&v));
                    },
                    None => {
                        assert(false);
                    },
                }
            } else {
                segs.push(string_of(&pkg));
            }
        },
        None => {
            let t_text = string_of(&t);
            segs.push(String::from_str(human_ns(t_text.as_str())));
        },
    }
    assert(string_views(segs@) =~= path_segments(t@));
    Ok(segs)
}

/// A specification as `package list --id` prints it resolves with
/// `package path` to its namespace, name and version directories, when the
/// namespace holds no `/` and the name no `:` (which the parser guarantees
/// for every listed specification).
pub proof fn lemma_listed_spec_resolves(p: SpecTuple)
    requires
        !p.0.contains('/'),
        !p.1.contains(':'),
    ensures
        trim(spec_text(p)) == spec_text(p),
        !cd_panics(seq![spec_text(p)]),
        path_segments(spec_text(p)) == seq![p.0, p.1, version_text(p.2)],
{
    let t = spec_text(p);
    let v = version_text(p.2);
    lemma_decimal_last(p.2.2 as nat);
    assert(v.last() == decimal(p.2.2 as nat).last());
    assert(t.last() == v.last());
    assert(t[0] == '@');
    assert(t.len() > 0 && !is_space(t[0]));
    assert(crate::text::trim_start(t) == t);
    assert(crate::text::trim_end(t) == t);
    let head = seq!['@'] + p.0;
    let pkg = p.1 + seq![':'] + v;
    assert(!head.contains('/')) by {
        if head.contains('/') {
            let k = choose|k: int| 0 <= k < head.len() && head[k] == '/';
            assert(k > 0);
            assert(p.0[k - 1] == '/');
        }
    }
    assert(t =~= head + seq!['/'] + pkg);
    lemma_split_once_at(head, '/', pkg);
    lemma_split_once_at(p.1, ':', v);
    assert(pkg[p.1.len() as int] == ':');
    assert(t[(head.len() + 1 + p.1.len()) as int] == ':');
    assert(t.contains(':'));
    assert(pkg.contains(':'));
    assert(human_ns_text(head) =~= p.0);
    assert(trim(seq![t][0]) == t);
}

/// `package list --id --first` prints one specification, and `package
/// path` resolves that text to the namespace, name and version directories
/// of a listed package: the documented `typship pkg path (typship pkg ls
/// <name> --id --first)`.
pub proof fn lemma_first_id_resolves(found: Seq<Found>, now: Timestamp, text: Seq<char>)
    requires
        list_outcome(found, true, true, now, Ok(text)),
        found.len() > 0,
        all_shaped(found),
    ensures
        trim(text) == text,
        !cd_panics(seq![text]),
        exists|k: int|
            0 <= k < found.len() && text == spec_text(found[k].0) && path_segments(text) == seq![
                found[k].0.0,
                found[k].0.1,
                version_text(found[k].0.2),
            ],
{
    let order = choose|order: Seq<usize>|
        is_listing_order(keys_of(found), order) && shown_outcome(
            shown(found, order, true),
            true,
            now,
            Ok(text),
        );
    let sh = shown(found, order, true);
    let k = order[0] as int;
    assert(sh.len() == 1);
    assert(sh[0] == found[k]);
    assert(sh.map_values(|f: Found| spec_text(f.0)) =~= seq![spec_text(found[k].0)]);
    assert(text == spec_text(found[k].0));
    assert(spec_shape(found[k].0));
    lemma_listed_spec_resolves(found[k].0);
}

/// What the `package` command produces: the listing text, or the
/// directory names of a package location.
pub enum PackageOutput {
    Listing(String),
    Directory(Vec<String>),
}

/// Why the `package` command fails.
pub enum PackageError {
    Table(TableError),
    Path(CdError),
}

/// What the `package` command answers: the outcome of `package list` or of
/// `package path` for its arguments.
pub open spec fn main_outcome(commands: PackageCommands, tree: Seq<NamespaceEntry>, now: Timestamp, r: Result<PackageOutput, PackageError>) -> bool {
    match commands {
        PackageCommands::List(a) => match r {
            Ok(PackageOutput::Listing(s)) => list_outcome(
                namespaces_found(tree, a.namespace@, a.name@),
                a.first,
                a.id,
                now,
                Ok(s@),
            ),
            Err(PackageError::Table(e)) => list_outcome(
                namespaces_found(tree, a.namespace@, a.name@),
                a.first,
                a.id,
                now,
                Err(e),
            ),
            _ => false,
        },
        PackageCommands::Path(a) => match r {
            Ok(PackageOutput::Directory(d)) => cd_outcome(string_views(a.spec@), Ok(d)),
            Err(PackageError::Path(e)) => cd_outcome(string_views(a.spec@), Err(e)),
            _ => false,
        },
    }
}

/// The listing outcome is determined by the found packages and the flags.
pub proof fn lemma_list_outcome_unique(
    found: Seq<Found>,
    first: bool,
    id: bool,
    now: Timestamp,
    r1: Result<Seq<char>, TableError>,
    r2: Result<Seq<char>, TableError>,
)
    requires
        list_outcome(found, first, id, now, r1),
        list_outcome(found, first, id, now, r2),
    ensures
        r1 == r2,
{
    let o1 = choose|order: Seq<usize>|
        is_listing_order(keys_of(found), order) && shown_outcome(shown(found, order, first), id, now, r1);
    let o2 = choose|order: Seq<usize>|
        is_listing_order(keys_of(found), order) && shown_outcome(shown(found, order, first), id, now, r2);
    lemma_listing_order_unique(keys_of(found), o1, o2);
    let cells = table_cells(shown(found, o1, first), now);
    let cols = cells[0].len();
    if !id {
        match (r1, r2) {
            (Err(e1), Err(e2)) => {
                let k1 = choose|k: int|
                    0 <= k < cells.len() && cells[k].len() == e1.got && forall|j: int|
                        0 <= j < k ==> #[trigger] cells[j].len() == cols;
                let k2 = choose|k: int|
                    0 <= k < cells.len() && cells[k].len() == e2.got && forall|j: int|
                        0 <= j < k ==> #[trigger] cells[j].len() == cols;
                if k1 < k2 {
                    assert(cells[k1].len() == cols);
                } else if k2 < k1 {
                    assert(cells[k2].len() == cols);
                }
                assert(e1 == e2);
            },
            (Ok(_), Err(e2)) => {
                let k2 = choose|k: int|
                    0 <= k < cells.len() && cells[k].len() == e2.got && forall|j: int|
                        0 <= j < k ==> #[trigger] cells[j].len() == cols;
                assert(cells[k2].len() == cols);
            },
            (Err(e1), Ok(_)) => {
                let k1 = choose|k: int|
                    0 <= k < cells.len() && cells[k].len() == e1.got && forall|j: int|
                        0 <= j < k ==> #[trigger] cells[j].len() == cols;
                assert(cells[k1].len() == cols);
            },
            _ => {},
        }
    }
}

/// Two answers of `package path` with the same directory names or the same error.
pub open spec fn cd_same(r1: Result<Vec<String>, CdError>, r2: Result<Vec<String>, CdError>) -> bool {
    match (r1, r2) {
        (Ok(a), Ok(b)) => string_views(a@) == string_views(b@),
        (Err(CdError::MultipleSpecs), Err(CdError::MultipleSpecs)) => true,
        (Err(CdError::NoSpec), Err(CdError::NoSpec)) => true,
        (Err(CdError::EmptySpec), Err(CdError::EmptySpec)) => true,
        (Err(CdError::MissingSlash(x)), Err(CdError::MissingSlash(y))) => x@ == y@,
        _ => false,
    }
}

/// The `package path` outcome is determined by the specifications.
pub proof fn lemma_cd_outcome_unique(
    specs: Seq<Seq<char>>,
    r1: Result<Vec<String>, CdError>,
    r2: Result<Vec<String>, CdError>,
)
    requires
        cd_outcome(specs, r1),
        cd_outcome(specs, r2),
    ensures
        cd_same(r1, r2),
{
}

/// `package list` run through the `package` command answers as
/// `package_list` does.
pub proof fn lemma_package_main_lists(
    a: PackageListArgs,
    tree: Seq<NamespaceEntry>,
    now: Timestamp,
    r_main: Result<PackageOutput, PackageError>,
    r_list: Result<String, TableError>,
)
    requires
        main_outcome(PackageCommands::List(a), tree, now, r_main),
        list_outcome(namespaces_found(tree, a.namespace@, a.name@), a.first, a.id, now, result_view(r_list)),
    ensures
        match (r_main, r_list) {
            (Ok(PackageOutput::Listing(s)), Ok(t)) => s@ == t@,
            (Err(PackageError::Table(e1)), Err(e2)) => e1 == e2,
            _ => false,
        },
{
    let found = namespaces_found(tree, a.namespace@, a.name@);
    match r_main {
        Ok(PackageOutput::Listing(s)) => {
            lemma_list_outcome_unique(found, a.first, a.id, now, Ok(s@), result_view(r_list));
        },
        Err(PackageError::Table(e)) => {
            lemma_list_outcome_unique(found, a.first, a.id, now, Err(e), result_view(r_list));
        },
        _ => {},
    }
}

/// `package path` run through the `package` command answers as
/// `package_cd` does.
pub proof fn lemma_package_main_resolves(
    a: PackagePathArgs,
    tree: Seq<NamespaceEntry>,
    now: Timestamp,
    r_main: Result<PackageOutput, PackageError>,
    r_cd: Result<Vec<String>, CdError>,
)
    requires
        main_outcome(PackageCommands::Path(a), tree, now, r_main),
        cd_outcome(string_views(a.spec@), r_cd),
    ensures
        match r_main {
            Ok(PackageOutput::Directory(d)) => cd_same(Ok(d), r_cd),
            Err(PackageError::Path(e)) => cd_same(Err(e), r_cd),
            _ => false,
        },
{
    match r_main {
        Ok(PackageOutput::Directory(d)) => lemma_cd_outcome_unique(string_views(a.spec@), Ok(d), r_cd),
        Err(PackageError::Path(e)) => lemma_cd_outcome_unique(string_views(a.spec@), Err(e), r_cd),
        _ => {},
    }
}

/// Runs a `package` subcommand on the local store snapshot `tree` at time `now`.
pub fn package_main(commands: PackageCommands, tree: &Vec<NamespaceEntry>, now: Timestamp) -> (r: Result<PackageOutput, PackageError>)
    requires
        commands matches PackageCommands::Path(a) ==> !cd_panics(string_views(a.spec@)),
    ensures
        main_outcome(commands, tree@, now, r),
{
    match commands {
        PackageCommands::List(args) => match package_list(&args, tree, now) {
            Ok(s) => Ok(PackageOutput::Listing(s)),
            Err(e) => Err(PackageError::Table(e)),
        },
        PackageCommands::Path(args) => match package_cd(&args) {
            Ok(d) => Ok(PackageOutput::Directory(d)),
            Err(e) => Err(PackageError::Path(e)),
        },
    }
}

} // verus!
