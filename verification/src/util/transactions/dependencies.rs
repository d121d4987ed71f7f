use vstd::prelude::*;
use crate::util::database::fns::{
    cache_packages, dependencies_of, find_package, first_row, first_source_with, get_dependencies,
    get_installed_package, get_provides, get_remote_package, list_contains, lookup_all,
    remote_package, rows_view, search_for_package, Catalog, InstalledDatabase, RepoDatabase,
};
use crate::util::lists::select;
use crate::util::packaging::structs::Package;
use crate::util::text::{contains_sub, split_char, split_string, str_is_empty, strings_view};

verus! {

/// A dependency could not be resolved: `dependency` was named by
/// `package` but its own dependencies could not be looked up.
#[derive(Debug)]
pub struct ResolveError {
    pub dependency: String,
    pub package: String,
}

// ---------------------------------------------------------------------------
// What the resolution computes
// ---------------------------------------------------------------------------

/// `s` with `n` added at the end, unless it already holds it.
pub open spec fn add_name(s: Seq<Seq<char>>, n: Seq<char>) -> Seq<Seq<char>> {
    if s.contains(n) {
        s
    } else {
        s.push(n)
    }
}

/// The resolution of `p`'s dependencies into the set `s` (kept in order of
/// insertion): every name of `p`'s depends column is added, then each of the
/// packages that name depends on is, unless already present, added and
/// resolved in turn. `Err((dep, parent))` where the dependencies of `dep`,
/// named by `parent`, cannot be looked up. `fuel` bounds the depth of the
/// recursion; the resolution never needs more than `resolve_fuel` gives.
pub open spec fn resolve_package(c: Catalog, p: Package, s: Seq<Seq<char>>, fuel: nat) -> Result<Seq<Seq<char>>, (Seq<char>, Seq<char>)>
    decreases fuel, 2int, 0int,
{
    if p.depends@.len() == 0 {
        Ok(s)
    } else {
        resolve_names(c, p.name@, split_char(p.depends@, ','), 0, s, fuel)
    }
}

/// The resolution of the names `names[i..]` named by `parent`.
pub open spec fn resolve_names(c: Catalog, parent: Seq<char>, names: Seq<Seq<char>>, i: int, s: Seq<Seq<char>>, fuel: nat) -> Result<Seq<Seq<char>>, (Seq<char>, Seq<char>)>
    decreases fuel, 1int, names.len() - i,
{
    if i < 0 || i >= names.len() {
        Ok(s)
    } else {
        let dep = names[i];
        match dependencies_of(c, dep) {
            None => Err((dep, parent)),
            Some(qs) => match resolve_found(c, qs, 0, add_name(s, dep), fuel) {
                Err(e) => Err(e),
                Ok(s2) => resolve_names(c, parent, names, i + 1, s2, fuel),
            },
        }
    }
}

/// The resolution of the packages `qs[j..]` found as dependencies.
pub open spec fn resolve_found(c: Catalog, qs: Seq<Package>, j: int, s: Seq<Seq<char>>, fuel: nat) -> Result<Seq<Seq<char>>, (Seq<char>, Seq<char>)>
    decreases fuel, 0int, qs.len() - j,
{
    if j < 0 || j >= qs.len() {
        Ok(s)
    } else if s.contains(qs[j].name@) {
        resolve_found(c, qs, j + 1, s, fuel)
    } else if fuel == 0 {
        Ok(s)
    } else {
        match resolve_package(c, qs[j], s.push(qs[j].name@), (fuel - 1) as nat) {
            Err(e) => Err(e),
            Ok(s2) => resolve_found(c, qs, j + 1, s2, fuel),
        }
    }
}

/// Every package of every cache of the catalog, cache after cache.
pub open spec fn all_packages(caches: Seq<RepoDatabase>) -> Seq<Package>
    decreases caches.len(),
{
    if caches.len() == 0 {
        Seq::<Package>::empty()
    } else {
        let here = match caches[0].packages {
            Some(v) => v@,
            None => Seq::<Package>::empty(),
        };
        here + all_packages(caches.drop_first())
    }
}

/// How many of the packages `ps` have a name that `s` does not hold.
pub open spec fn unseen(ps: Seq<Package>, s: Seq<Seq<char>>) -> nat
    decreases ps.len(),
{
    if ps.len() == 0 {
        0
    } else {
        unseen(ps.drop_last(), s) + if s.contains(ps.last().name@) {
            0nat
        } else {
            1nat
        }
    }
}

/// A depth of recursion that resolving into `s` never exceeds: one more
/// than the number of packages of the catalog whose names `s` lacks.
pub open spec fn resolve_fuel(c: Catalog, s: Seq<Seq<char>>) -> nat {
    unseen(all_packages(c.caches@), s) + 1
}

/// How a resolution's result matches its exec outcome and final set.
pub open spec fn resolved_as(spec: Result<Seq<Seq<char>>, (Seq<char>, Seq<char>)>, r: Result<(), ResolveError>, s: Seq<Seq<char>>) -> bool {
    match spec {
        Ok(t) => r is Ok && s == t,
        Err((d, q)) => r matches Err(e) && e.dependency@ == d && e.package@ == q,
    }
}

// ---------------------------------------------------------------------------
// Lemmas on the measure
// ---------------------------------------------------------------------------

proof fn lemma_unseen_monotone(ps: Seq<Package>, s1: Seq<Seq<char>>, s2: Seq<Seq<char>>)
    requires
        forall|x: Seq<char>| s1.contains(x) ==> s2.contains(x),
    ensures
        unseen(ps, s2) <= unseen(ps, s1),
    decreases ps.len(),
{
    if ps.len() > 0 {
        lemma_unseen_monotone(ps.drop_last(), s1, s2);
    }
}

proof fn lemma_unseen_drops(ps: Seq<Package>, s: Seq<Seq<char>>, q: Package)
    requires
        ps.contains(q),
        !s.contains(q.name@),
    ensures
        unseen(ps, s.push(q.name@)) < unseen(ps, s),
    decreases ps.len(),
{
    let s2 = s.push(q.name@);
    assert forall|x: Seq<char>| s.contains(x) implies s2.contains(x) by {
        let k = choose|k: int| 0 <= k < s.len() && s[k] == x;
        assert(s2[k] == x);
    }
    assert(s2[s.len() as int] == q.name@);
    let dl = ps.drop_last();
    if ps.last() == q {
        lemma_unseen_monotone(dl, s, s2);
    } else {
        let k = choose|k: int| 0 <= k < ps.len() && ps[k] == q;
        assert(k < ps.len() - 1);
        assert(dl[k] == q);
        lemma_unseen_drops(dl, s, q);
    }
}

proof fn lemma_find_package_member(ps: Seq<Package>, n: Seq<char>)
    requires
        find_package(ps, n) is Some,
    ensures
        ps.contains(find_package(ps, n).unwrap()),
    decreases ps.len(),
{
    if ps[0].name@ != n {
        lemma_find_package_member(ps.drop_first(), n);
        let q = find_package(ps, n).unwrap();
        let k = choose|k: int| 0 <= k < ps.drop_first().len() && ps.drop_first()[k] == q;
        assert(ps[k + 1] == q);
    }
}

proof fn lemma_cache_member(caches: Seq<RepoDatabase>, repo: Seq<char>, q: Package)
    requires
        cache_packages(caches, repo) is Some,
        cache_packages(caches, repo).unwrap().contains(q),
    ensures
        all_packages(caches).contains(q),
    decreases caches.len(),
{
    let here = match caches[0].packages {
        Some(v) => v@,
        None => Seq::<Package>::empty(),
    };
    let rest = all_packages(caches.drop_first());
    if caches[0].name@ == repo {
        let k = choose|k: int| 0 <= k < here.len() && here[k] == q;
        assert((here + rest)[k] == q);
    } else {
        lemma_cache_member(caches.drop_first(), repo, q);
        let k = choose|k: int| 0 <= k < rest.len() && rest[k] == q;
        assert((here + rest)[here.len() + k] == q);
    }
}

proof fn lemma_remote_member(c: Catalog, n: Seq<char>, repo: Seq<char>)
    requires
        remote_package(c, n, repo) is Some,
    ensures
        all_packages(c.caches@).contains(remote_package(c, n, repo).unwrap()),
{
    let ps = cache_packages(c.caches@, repo).unwrap();
    lemma_find_package_member(ps, n);
    lemma_cache_member(c.caches@, repo, remote_package(c, n, repo).unwrap());
}

proof fn lemma_lookup_all_member(c: Catalog, names: Seq<Seq<char>>, repo: Seq<char>, k: int)
    requires
        lookup_all(c, names, repo) is Some,
        0 <= k < lookup_all(c, names, repo).unwrap().len(),
    ensures
        all_packages(c.caches@).contains(lookup_all(c, names, repo).unwrap()[k]),
    decreases names.len(),
{
    let qs = lookup_all(c, names, repo).unwrap();
    let front = lookup_all(c, names.drop_last(), repo).unwrap();
    if k == front.len() {
        lemma_remote_member(c, names.last(), repo);
    } else {
        lemma_lookup_all_member(c, names.drop_last(), repo, k);
    }
}

/// Every package that `dependencies_of` returns is a package of the catalog.
proof fn lemma_dependencies_member(c: Catalog, n: Seq<char>, k: int)
    requires
        dependencies_of(c, n) is Some,
        0 <= k < dependencies_of(c, n).unwrap().len(),
    ensures
        all_packages(c.caches@).contains(dependencies_of(c, n).unwrap()[k]),
{
    let repo = first_source_with(c, c.sources@, n);
    let p = remote_package(c, n, repo).unwrap();
    if p.depends@.len() > 0 {
        lemma_lookup_all_member(c, split_char(p.depends@, ','), repo, k);
    }
}

// ---------------------------------------------------------------------------
// The resolution
// ---------------------------------------------------------------------------

/// Adds `name` to `deps` unless it is already there.
fn insert_name(deps: &mut Vec<String>, name: &String)
    ensures
        strings_view(final(deps)@) == add_name(strings_view(old(deps)@), name@),
{
    if !list_contains(deps, name.as_str()) {
        let ghost before = strings_view(deps@);
        deps.push(name.clone());
        assert(strings_view(deps@) =~= before.push(name@));
    }
}

proof fn lemma_add_name_grows(s: Seq<Seq<char>>, n: Seq<char>)
    ensures
        s.is_prefix_of(add_name(s, n)),
        s.no_duplicates() ==> add_name(s, n).no_duplicates(),
        add_name(s, n).contains(n),
{
    if !s.contains(n) {
        assert(s.push(n)[s.len() as int] == n);
        assert(s =~= s.push(n).subrange(0, s.len() as int));
    } else {
        assert(s =~= s.subrange(0, s.len() as int));
    }
}

proof fn lemma_prefix_trans(a: Seq<Seq<char>>, b: Seq<Seq<char>>, c: Seq<Seq<char>>)
    requires
        a.is_prefix_of(b),
        b.is_prefix_of(c),
    ensures
        a.is_prefix_of(c),
{
    assert forall|k: int| 0 <= k < a.len() implies a[k] == c.subrange(0, a.len() as int)[k] by {
        assert(a[k] == b.subrange(0, a.len() as int)[k]);
        assert(b[k] == c.subrange(0, b.len() as int)[k]);
    }
    assert(a =~= c.subrange(0, a.len() as int));
}

proof fn lemma_prefix_contains(a: Seq<Seq<char>>, b: Seq<Seq<char>>)
    requires
        a.is_prefix_of(b),
    ensures
        forall|x: Seq<char>| a.contains(x) ==> b.contains(x),
{
    assert forall|x: Seq<char>| a.contains(x) implies b.contains(x) by {
        let k = choose|k: int| 0 <= k < a.len() && a[k] == x;
        assert(b.subrange(0, a.len() as int)[k] == x);
        assert(b[k] == x);
    }
}

/// Resolves `p`'s dependencies into `deps`, within `fuel` levels of
/// recursion.
fn resolve_into(c: &Catalog, p: &Package, deps: &mut Vec<String>, Ghost(fuel): Ghost<nat>) -> (r: Result<(), ResolveError>)
    requires
        fuel >= resolve_fuel(*c, strings_view(old(deps)@)),
    ensures
        resolved_as(resolve_package(*c, *p, strings_view(old(deps)@), fuel), r, strings_view(final(deps)@)),
        strings_view(old(deps)@).is_prefix_of(strings_view(final(deps)@)),
        strings_view(old(deps)@).no_duplicates() ==> strings_view(final(deps)@).no_duplicates(),
    decreases fuel,
{
    let ghost s0 = strings_view(deps@);
    let ghost all = all_packages(c.caches@);
    proof {
        assert(s0 =~= s0.subrange(0, s0.len() as int));
    }
    if str_is_empty(p.depends.as_str()) {
        return Ok(());
    }
    let names = split_string(p.depends.as_str(), ',');
    let ghost nv = strings_view(names@);
    let ghost total = resolve_names(*c, p.name@, nv, 0, s0, fuel);
    let mut i: usize = 0;
    while i < names.len()
        invariant
            nv == strings_view(names@),
            nv == split_char(p.depends@, ','),
            p.depends@.len() > 0,
            i <= names@.len(),
            total == resolve_names(*c, p.name@, nv, 0, s0, fuel),
            total == resolve_names(*c, p.name@, nv, i as int, strings_view(deps@), fuel),
            total == resolve_package(*c, *p, s0, fuel),
            s0 == strings_view(old(deps)@),
            s0.is_prefix_of(strings_view(deps@)),
            s0.no_duplicates() ==> strings_view(deps@).no_duplicates(),
            fuel >= unseen(all, s0) + 1,
            all == all_packages(c.caches@),
        decreases names.len() - i,
    {
        let dep = &names[i];
        let ghost si = strings_view(deps@);
        insert_name(deps, dep);
        let ghost s1 = strings_view(deps@);
        proof {
            lemma_add_name_grows(si, dep@);
            lemma_prefix_trans(s0, si, s1);
        }
        let found = match get_dependencies(c, dep.as_str()) {
            Ok(v) => v,
            Err(_) => {
                return Err(ResolveError { dependency: dep.clone(), package: p.name.clone() });
            },
        };
        let ghost qv = found@;
        assert(dependencies_of(*c, dep@) == Some(qv));
        let mut j: usize = 0;
        while j < found.len()
            invariant
                qv == found@,
                dependencies_of(*c, dep@) == Some(qv),
                j <= qv.len(),
                resolve_found(*c, qv, 0, s1, fuel) == resolve_found(*c, qv, j as int, strings_view(deps@), fuel),
                s1 == add_name(si, dep@),
                dep@ == nv[i as int],
                i < nv.len(),
                total == resolve_names(*c, p.name@, nv, i as int, si, fuel),
                total == resolve_package(*c, *p, s0, fuel),
                s0 == strings_view(old(deps)@),
                s0.is_prefix_of(strings_view(deps@)),
                s0.no_duplicates() ==> strings_view(deps@).no_duplicates(),
                fuel >= unseen(all, s0) + 1,
                all == all_packages(c.caches@),
            decreases found.len() - j,
        {
            let q = &found[j];
            if !list_contains(deps, q.name.as_str()) {
                let ghost sj = strings_view(deps@);
                proof {
                    lemma_dependencies_member(*c, dep@, j as int);
                    lemma_prefix_contains(s0, sj);
                    lemma_unseen_monotone(all, s0, sj);
                    lemma_unseen_drops(all, sj, *q);
                }
                let ghost before = strings_view(deps@);
                deps.push(q.name.clone());
                assert(strings_view(deps@) =~= before.push(q.name@));
                proof {
                    lemma_add_name_grows(sj, q.name@);
                    lemma_prefix_trans(s0, sj, strings_view(deps@));
                }
                let res = resolve_into(c, q, deps, Ghost((fuel - 1) as nat));
                proof {
                    lemma_prefix_trans(s0, before.push(q.name@), strings_view(deps@));
                }
                match res {
                    Err(e) => {
                        return Err(e);
                    },
                    Ok(()) => {},
                }
            }
            j = j + 1;
        }
        i = i + 1;
    }
    Ok(())
}

/// Resolves all dependencies of a package into `dependencies`: every name
/// of its depends column, and, recursively, the packages those names depend
/// on. `Err` where the dependencies of some name cannot be looked up; the
/// resolution stops there. The set only grows, at its end, and gains no
/// duplicate.
pub fn run_depend_resolve(catalog: &Catalog, package: &Package, dependencies: &mut Vec<String>) -> (r: Result<(), ResolveError>)
    ensures
        resolved_as(
            resolve_package(*catalog, *package, strings_view(old(dependencies)@), resolve_fuel(*catalog, strings_view(old(dependencies)@))),
            r,
            strings_view(final(dependencies)@),
        ),
        strings_view(old(dependencies)@).is_prefix_of(strings_view(final(dependencies)@)),
        strings_view(old(dependencies)@).no_duplicates() ==> strings_view(final(dependencies)@).no_duplicates(),
{
    let ghost fuel = resolve_fuel(*catalog, strings_view(dependencies@));
    resolve_into(catalog, package, dependencies, Ghost(fuel))
}

// ---------------------------------------------------------------------------
// Laws of the resolution
// ---------------------------------------------------------------------------

/// A successful resolution only adds names at the end of the set it starts
/// from.
proof fn lemma_resolve_package_grows(c: Catalog, p: Package, s: Seq<Seq<char>>, fuel: nat)
    ensures
        resolve_package(c, p, s, fuel) matches Ok(t) ==> s.is_prefix_of(t),
    decreases fuel, 2int, 0int,
{
    if p.depends@.len() == 0 {
        assert(s =~= s.subrange(0, s.len() as int));
    } else {
        lemma_resolve_names_grows(c, p.name@, split_char(p.depends@, ','), 0, s, fuel);
    }
}

proof fn lemma_resolve_names_grows(c: Catalog, parent: Seq<char>, names: Seq<Seq<char>>, i: int, s: Seq<Seq<char>>, fuel: nat)
    ensures
        resolve_names(c, parent, names, i, s, fuel) matches Ok(t) ==> s.is_prefix_of(t),
    decreases fuel, 1int, names.len() - i,
{
    if i < 0 || i >= names.len() {
        assert(s =~= s.subrange(0, s.len() as int));
    } else {
        let dep = names[i];
        match dependencies_of(c, dep) {
            None => {},
            Some(qs) => {
                let s1 = add_name(s, dep);
                lemma_add_name_grows(s, dep);
                lemma_resolve_found_grows(c, qs, 0, s1, fuel);
                match resolve_found(c, qs, 0, s1, fuel) {
                    Err(_) => {},
                    Ok(s2) => {
                        lemma_prefix_trans(s, s1, s2);
                        lemma_resolve_names_grows(c, parent, names, i + 1, s2, fuel);
                        if let Ok(t) = resolve_names(c, parent, names, i + 1, s2, fuel) {
                            lemma_prefix_trans(s, s2, t);
                        }
                    },
                }
            },
        }
    }
}

proof fn lemma_resolve_found_grows(c: Catalog, qs: Seq<Package>, j: int, s: Seq<Seq<char>>, fuel: nat)
    ensures
        resolve_found(c, qs, j, s, fuel) matches Ok(t) ==> s.is_prefix_of(t),
    decreases fuel, 0int, qs.len() - j,
{
    if j < 0 || j >= qs.len() {
        assert(s =~= s.subrange(0, s.len() as int));
    } else if s.contains(qs[j].name@) {
        lemma_resolve_found_grows(c, qs, j + 1, s, fuel);
    } else if fuel == 0 {
        assert(s =~= s.subrange(0, s.len() as int));
    } else {
        let s1 = s.push(qs[j].name@);
        assert(s =~= s1.subrange(0, s.len() as int));
        lemma_resolve_package_grows(c, qs[j], s1, (fuel - 1) as nat);
        match resolve_package(c, qs[j], s1, (fuel - 1) as nat) {
            Err(_) => {},
            Ok(s2) => {
                lemma_prefix_trans(s, s1, s2);
                lemma_resolve_found_grows(c, qs, j + 1, s2, fuel);
                if let Ok(t) = resolve_found(c, qs, j + 1, s2, fuel) {
                    lemma_prefix_trans(s, s2, t);
                }
            },
        }
    }
}

/// With enough fuel, the fuel given does not change the resolution of a
/// package.
proof fn lemma_fuel_package(c: Catalog, p: Package, s: Seq<Seq<char>>, f1: nat, f2: nat)
    requires
        f1 >= unseen(all_packages(c.caches@), s) + 1,
        f2 >= unseen(all_packages(c.caches@), s) + 1,
    ensures
        resolve_package(c, p, s, f1) == resolve_package(c, p, s, f2),
    decreases f1, 2int, 0int,
{
    if p.depends@.len() > 0 {
        lemma_fuel_names(c, p.name@, split_char(p.depends@, ','), 0, s, f1, f2);
    }
}

proof fn lemma_fuel_names(c: Catalog, parent: Seq<char>, names: Seq<Seq<char>>, i: int, s: Seq<Seq<char>>, f1: nat, f2: nat)
    requires
        f1 >= unseen(all_packages(c.caches@), s) + 1,
        f2 >= unseen(all_packages(c.caches@), s) + 1,
    ensures
        resolve_names(c, parent, names, i, s, f1) == resolve_names(c, parent, names, i, s, f2),
    decreases f1, 1int, names.len() - i,
{
    let all = all_packages(c.caches@);
    if 0 <= i < names.len() {
        let dep = names[i];
        match dependencies_of(c, dep) {
            None => {},
            Some(qs) => {
                let s1 = add_name(s, dep);
                lemma_add_name_grows(s, dep);
                lemma_prefix_contains(s, s1);
                lemma_unseen_monotone(all, s, s1);
                assert forall|k: int| 0 <= k < qs.len() implies all.contains(#[trigger] qs[k]) by {
                    lemma_dependencies_member(c, dep, k);
                }
                lemma_fuel_found(c, qs, 0, s1, f1, f2);
                lemma_resolve_found_grows(c, qs, 0, s1, f1);
                match resolve_found(c, qs, 0, s1, f1) {
                    Err(_) => {},
                    Ok(s2) => {
                        lemma_prefix_contains(s1, s2);
                        lemma_unseen_monotone(all, s1, s2);
                        lemma_fuel_names(c, parent, names, i + 1, s2, f1, f2);
                    },
                }
            },
        }
    }
}

proof fn lemma_fuel_found(c: Catalog, qs: Seq<Package>, j: int, s: Seq<Seq<char>>, f1: nat, f2: nat)
    requires
        f1 >= unseen(all_packages(c.caches@), s) + 1,
        f2 >= unseen(all_packages(c.caches@), s) + 1,
        forall|k: int| 0 <= k < qs.len() ==> all_packages(c.caches@).contains(#[trigger] qs[k]),
    ensures
        resolve_found(c, qs, j, s, f1) == resolve_found(c, qs, j, s, f2),
    decreases f1, 0int, qs.len() - j,
{
    let all = all_packages(c.caches@);
    if 0 <= j < qs.len() {
        if s.contains(qs[j].name@) {
            lemma_fuel_found(c, qs, j + 1, s, f1, f2);
        } else {
            let s1 = s.push(qs[j].name@);
            lemma_unseen_drops(all, s, qs[j]);
            lemma_fuel_package(c, qs[j], s1, (f1 - 1) as nat, (f2 - 1) as nat);
            lemma_resolve_package_grows(c, qs[j], s1, (f1 - 1) as nat);
            match resolve_package(c, qs[j], s1, (f1 - 1) as nat) {
                Err(_) => {},
                Ok(s2) => {
                    assert(s =~= s1.subrange(0, s.len() as int));
                    lemma_prefix_trans(s, s1, s2);
                    lemma_prefix_contains(s, s2);
                    lemma_unseen_monotone(all, s, s2);
                    lemma_fuel_found(c, qs, j + 1, s2, f1, f2);
                },
            }
        }
    }
}

/// The bound on the depth of the resolution is never reached: resolving with
/// any fuel beyond [`resolve_fuel`] gives what [`run_depend_resolve`]
/// computes.
pub proof fn law_resolve_fuel_suffices(c: Catalog, p: Package, s: Seq<Seq<char>>, fuel: nat)
    requires
        fuel >= resolve_fuel(c, s),
    ensures
        resolve_package(c, p, s, fuel) == resolve_package(c, p, s, resolve_fuel(c, s)),
{
    lemma_fuel_package(c, p, s, fuel, resolve_fuel(c, s));
}

proof fn lemma_names_included(c: Catalog, parent: Seq<char>, names: Seq<Seq<char>>, i: int, s: Seq<Seq<char>>, fuel: nat)
    requires
        0 <= i,
    ensures
        resolve_names(c, parent, names, i, s, fuel) matches Ok(t) ==> forall|k: int| i <= k < names.len() ==> t.contains(#[trigger] names[k]),
    decreases names.len() - i,
{
    if i < names.len() {
        let dep = names[i];
        match dependencies_of(c, dep) {
            None => {},
            Some(qs) => {
                let s1 = add_name(s, dep);
                lemma_add_name_grows(s, dep);
                lemma_resolve_found_grows(c, qs, 0, s1, fuel);
                match resolve_found(c, qs, 0, s1, fuel) {
                    Err(_) => {},
                    Ok(s2) => {
                        lemma_prefix_contains(s1, s2);
                        lemma_resolve_names_grows(c, parent, names, i + 1, s2, fuel);
                        lemma_names_included(c, parent, names, i + 1, s2, fuel);
                        if let Ok(t) = resolve_names(c, parent, names, i + 1, s2, fuel) {
                            lemma_prefix_contains(s2, t);
                            assert(t.contains(names[i]));
                        }
                    },
                }
            },
        }
    }
}

/// A successful resolution keeps the names it starts from, in front, and
/// holds every name of the package's depends column.
pub proof fn law_resolve_includes_dependencies(c: Catalog, p: Package, s: Seq<Seq<char>>, fuel: nat)
    requires
        resolve_package(c, p, s, fuel) is Ok,
    ensures
        resolve_package(c, p, s, fuel) matches Ok(t) && s.is_prefix_of(t) && (p.depends@.len() > 0 ==>
            forall|k: int| 0 <= k < split_char(p.depends@, ',').len() ==> t.contains(#[trigger] split_char(p.depends@, ',')[k])),
{
    lemma_resolve_package_grows(c, p, s, fuel);
    if p.depends@.len() > 0 {
        lemma_names_included(c, p.name@, split_char(p.depends@, ','), 0, s, fuel);
    }
}

// ---------------------------------------------------------------------------
// Closure of the resolution
// ---------------------------------------------------------------------------

/// The package that looking up `name` finds: the one in the first source
/// that holds a package of that name.
pub open spec fn package_for(c: Catalog, name: Seq<char>) -> Option<Package> {
    remote_package(c, name, first_source_with(c, c.sources@, name))
}

/// The names of a package's depends column.
pub open spec fn depends_names(p: Package) -> Seq<Seq<char>> {
    if p.depends@.len() == 0 {
        Seq::<Seq<char>>::empty()
    } else {
        split_char(p.depends@, ',')
    }
}

/// Whether every repository that holds a package of some name holds the
/// same package as the one that looking the name up finds.
pub open spec fn consistent_catalog(c: Catalog) -> bool {
    forall|n: Seq<char>, r: Seq<char>|
        (#[trigger] remote_package(c, n, r)) is Some ==> remote_package(c, n, r) == package_for(c, n)
}

/// Whether `t` holds every dependency of the package found for `n`.
pub open spec fn closed_name(c: Catalog, t: Seq<Seq<char>>, n: Seq<char>) -> bool {
    package_for(c, n) matches Some(p) ==> forall|k: int| 0 <= k < depends_names(p).len() ==> t.contains(#[trigger] depends_names(p)[k])
}

/// Whether every name that `t` holds beyond `s` has all its dependencies
/// in `t`.
pub open spec fn closed_beyond(c: Catalog, s: Seq<Seq<char>>, t: Seq<Seq<char>>) -> bool {
    forall|n: Seq<char>| #[trigger] t.contains(n) && !s.contains(n) ==> closed_name(c, t, n)
}

proof fn lemma_closed_name_mono(c: Catalog, t: Seq<Seq<char>>, t2: Seq<Seq<char>>, n: Seq<char>)
    requires
        closed_name(c, t, n),
        forall|x: Seq<char>| t.contains(x) ==> t2.contains(x),
    ensures
        closed_name(c, t2, n),
{
    if let Some(p) = package_for(c, n) {
        assert forall|k: int| 0 <= k < depends_names(p).len() implies t2.contains(#[trigger] depends_names(p)[k]) by {
            assert(t.contains(depends_names(p)[k]));
        }
    }
}

/// The packages that `lookup_all` finds are those of the names, in order,
/// each named by its name.
proof fn lemma_lookup_all_index(c: Catalog, names: Seq<Seq<char>>, repo: Seq<char>)
    requires
        lookup_all(c, names, repo) is Some,
    ensures
        lookup_all(c, names, repo).unwrap().len() == names.len(),
        forall|k: int| 0 <= k < names.len() ==> remote_package(c, names[k], repo) == Some(#[trigger] lookup_all(c, names, repo).unwrap()[k]),
        forall|k: int| 0 <= k < names.len() ==> (#[trigger] lookup_all(c, names, repo).unwrap()[k]).name@ == names[k],
    decreases names.len(),
{
    if names.len() > 0 {
        let front = names.drop_last();
        lemma_lookup_all_index(c, front, repo);
        let qs = lookup_all(c, names, repo).unwrap();
        lemma_find_package_name(cache_packages(c.caches@, repo).unwrap(), names.last());
        assert forall|k: int| 0 <= k < names.len() implies remote_package(c, names[k], repo) == Some(#[trigger] qs[k]) && qs[k].name@ == names[k] by {
            if k < names.len() - 1 {
                assert(front[k] == names[k]);
            }
        }
    }
}

/// The dependencies found for `dep` are the packages that looking their
/// names up finds, named by the names of the depends column of the package
/// found for `dep`.
proof fn lemma_dependencies_found(c: Catalog, dep: Seq<char>)
    requires
        consistent_catalog(c),
        dependencies_of(c, dep) is Some,
    ensures
        package_for(c, dep) is Some,
        ({
            let qs = dependencies_of(c, dep).unwrap();
            let names = depends_names(package_for(c, dep).unwrap());
            &&& qs.len() == names.len()
            &&& forall|k: int| 0 <= k < qs.len() ==> (#[trigger] qs[k]).name@ == names[k]
            &&& forall|k: int| 0 <= k < qs.len() ==> package_for(c, (#[trigger] qs[k]).name@) == Some(qs[k])
        }),
{
    let repo = first_source_with(c, c.sources@, dep);
    let p = remote_package(c, dep, repo).unwrap();
    if p.depends@.len() > 0 {
        let names = split_char(p.depends@, ',');
        lemma_lookup_all_index(c, names, repo);
        let qs = lookup_all(c, names, repo).unwrap();
        assert forall|k: int| 0 <= k < qs.len() implies package_for(c, (#[trigger] qs[k]).name@) == Some(qs[k]) by {
            assert(remote_package(c, names[k], repo) == Some(qs[k]));
        }
    }
}

proof fn lemma_closed_package(c: Catalog, p: Package, s: Seq<Seq<char>>, fuel: nat)
    requires
        consistent_catalog(c),
        fuel >= unseen(all_packages(c.caches@), s) + 1,
    ensures
        resolve_package(c, p, s, fuel) matches Ok(t) ==> closed_beyond(c, s, t),
    decreases fuel, 2int, 0int,
{
    if p.depends@.len() > 0 {
        lemma_closed_names(c, p.name@, split_char(p.depends@, ','), 0, s, fuel);
    }
}

proof fn lemma_closed_names(c: Catalog, parent: Seq<char>, names: Seq<Seq<char>>, i: int, s: Seq<Seq<char>>, fuel: nat)
    requires
        consistent_catalog(c),
        fuel >= unseen(all_packages(c.caches@), s) + 1,
    ensures
        resolve_names(c, parent, names, i, s, fuel) matches Ok(t) ==> closed_beyond(c, s, t),
    decreases fuel, 1int, names.len() - i,
{
    let all = all_packages(c.caches@);
    if 0 <= i < names.len() {
        let dep = names[i];
        match dependencies_of(c, dep) {
            None => {},
            Some(qs) => {
                let s1 = add_name(s, dep);
                lemma_add_name_grows(s, dep);
                lemma_prefix_contains(s, s1);
                lemma_unseen_monotone(all, s, s1);
                assert forall|k: int| 0 <= k < qs.len() implies all.contains(#[trigger] qs[k]) by {
                    lemma_dependencies_member(c, dep, k);
                }
                lemma_dependencies_found(c, dep);
                lemma_closed_found(c, qs, 0, s1, fuel);
                lemma_resolve_found_grows(c, qs, 0, s1, fuel);
                match resolve_found(c, qs, 0, s1, fuel) {
                    Err(_) => {},
                    Ok(s2) => {
                        lemma_prefix_contains(s1, s2);
                        lemma_unseen_monotone(all, s1, s2);
                        lemma_closed_names(c, parent, names, i + 1, s2, fuel);
                        lemma_resolve_names_grows(c, parent, names, i + 1, s2, fuel);
                        if let Ok(t) = resolve_names(c, parent, names, i + 1, s2, fuel) {
                            lemma_prefix_contains(s2, t);
                            assert forall|n: Seq<char>| #[trigger] t.contains(n) && !s.contains(n) implies closed_name(c, t, n) by {
                                if !s2.contains(n) {
                                } else if !s1.contains(n) {
                                    lemma_closed_name_mono(c, s2, t, n);
                                } else {
                                    // `n` is the dependency added here.
                                    assert(s1 == s.push(dep));
                                    let k0 = choose|k0: int| 0 <= k0 < s1.len() && s1[k0] == n;
                                    if k0 < s.len() {
                                        assert(s[k0] == n);
                                    }
                                    assert(n == dep);
                                    let pd = package_for(c, dep).unwrap();
                                    assert forall|k: int| 0 <= k < depends_names(pd).len() implies t.contains(#[trigger] depends_names(pd)[k]) by {
                                        assert(qs[k].name@ == depends_names(pd)[k]);
                                        assert(s2.contains(qs[k].name@));
                                    }
                                }
                            }
                        }
                    },
                }
            },
        }
    }
}

proof fn lemma_closed_found(c: Catalog, qs: Seq<Package>, j: int, s: Seq<Seq<char>>, fuel: nat)
    requires
        consistent_catalog(c),
        fuel >= unseen(all_packages(c.caches@), s) + 1,
        0 <= j,
        forall|k: int| 0 <= k < qs.len() ==> all_packages(c.caches@).contains(#[trigger] qs[k]),
        forall|k: int| 0 <= k < qs.len() ==> package_for(c, (#[trigger] qs[k]).name@) == Some(qs[k]),
    ensures
        resolve_found(c, qs, j, s, fuel) matches Ok(t) ==> closed_beyond(c, s, t)
            && forall|k: int| j <= k < qs.len() ==> t.contains((#[trigger] qs[k]).name@),
    decreases fuel, 0int, qs.len() - j,
{
    let all = all_packages(c.caches@);
    if j < qs.len() {
        let q = qs[j];
        if s.contains(q.name@) {
            lemma_closed_found(c, qs, j + 1, s, fuel);
            lemma_resolve_found_grows(c, qs, j + 1, s, fuel);
            if let Ok(t) = resolve_found(c, qs, j + 1, s, fuel) {
                lemma_prefix_contains(s, t);
            }
        } else {
            let s1 = s.push(q.name@);
            assert(s =~= s1.subrange(0, s.len() as int));
            assert(s1[s.len() as int] == q.name@);
            lemma_prefix_contains(s, s1);
            lemma_unseen_drops(all, s, q);
            lemma_closed_package(c, q, s1, (fuel - 1) as nat);
            lemma_resolve_package_grows(c, q, s1, (fuel - 1) as nat);
            match resolve_package(c, q, s1, (fuel - 1) as nat) {
                Err(_) => {},
                Ok(s2) => {
                    law_resolve_includes_dependencies(c, q, s1, (fuel - 1) as nat);
                    lemma_prefix_contains(s1, s2);
                    lemma_unseen_monotone(all, s, s2);
                    lemma_closed_found(c, qs, j + 1, s2, fuel);
                    lemma_resolve_found_grows(c, qs, j + 1, s2, fuel);
                    if let Ok(t) = resolve_found(c, qs, j + 1, s2, fuel) {
                        lemma_prefix_contains(s2, t);
                        assert(t.contains(q.name@));
                        assert forall|n: Seq<char>| #[trigger] t.contains(n) && !s.contains(n) implies closed_name(c, t, n) by {
                            if !s2.contains(n) {
                            } else if !s1.contains(n) {
                                lemma_closed_name_mono(c, s2, t, n);
                            } else {
                                let k0 = choose|k0: int| 0 <= k0 < s1.len() && s1[k0] == n;
                                if k0 < s.len() {
                                    assert(s[k0] == n);
                                }
                                assert(n == q.name@);
                                assert forall|k: int| 0 <= k < depends_names(q).len() implies t.contains(#[trigger] depends_names(q)[k]) by {
                                    assert(s2.contains(depends_names(q)[k]));
                                }
                            }
                        }
                    }
                },
            }
        }
    }
}

/// The resolution gives every dependency, however deep: where every
/// repository that holds a name holds the same package, a successful
/// resolution of `p` holds each name of `p`'s depends column, and every
/// name that it adds has all the names of its own package's depends column
/// in the result as well.
pub proof fn law_resolve_closed(c: Catalog, p: Package, s: Seq<Seq<char>>, fuel: nat)
    requires
        consistent_catalog(c),
        fuel >= resolve_fuel(c, s),
        resolve_package(c, p, s, fuel) is Ok,
    ensures
        ({
            let t = resolve_package(c, p, s, fuel)->Ok_0;
            &&& forall|k: int| 0 <= k < depends_names(p).len() ==> t.contains(#[trigger] depends_names(p)[k])
            &&& forall|n: Seq<char>| #[trigger] t.contains(n) && !s.contains(n) ==> closed_name(c, t, n)
        }),
{
    lemma_closed_package(c, p, s, fuel);
    law_resolve_includes_dependencies(c, p, s, fuel);
}

// ---------------------------------------------------------------------------
// Which dependencies are installed
// ---------------------------------------------------------------------------

/// Whether a dependency can be looked up: the repository that the search
/// finds for it holds it.
pub open spec fn resolvable(c: Catalog, name: Seq<char>) -> bool {
    remote_package(c, name, first_source_with(c, c.sources@, name)) is Some
}

/// The packages, in the repository that the search finds for `name`, whose
/// provides column contains `name`.
pub open spec fn providers_of(c: Catalog, name: Seq<char>) -> Seq<Package> {
    let repo = first_source_with(c, c.sources@, name);
    select(cache_packages(c.caches@, repo).unwrap(), |q: Package| contains_sub(q.provides@, name))
}

/// Whether a dependency is met. Where the repository that the search finds
/// for it holds it and something there provides it, one of its providers
/// must be installed; otherwise (no repository holds it, or nothing
/// provides it) it must itself be installed.
pub open spec fn dependency_met(c: Catalog, rows: Seq<crate::util::database::structs::RowView>, name: Seq<char>) -> bool {
    if resolvable(c, name) && providers_of(c, name).len() > 0 {
        let provs = providers_of(c, name);
        exists|k: int| 0 <= k < provs.len() && (#[trigger] first_row(rows, provs[k].name@)) is Some
    } else {
        first_row(rows, name) is Some
    }
}

/// The verdict on each dependency, one for each, in order.
pub open spec fn depend_check(c: Catalog, rows: Seq<crate::util::database::structs::RowView>, names: Seq<Seq<char>>) -> Seq<(Seq<char>, bool)> {
    names.map_values(|n: Seq<char>| (n, dependency_met(c, rows, n)))
}

/// The views of the entries of a dependency check.
pub open spec fn checks_view(v: Seq<(String, bool)>) -> Seq<(Seq<char>, bool)> {
    v.map_values(|e: (String, bool)| (e.0@, e.1))
}

proof fn lemma_find_package_name(ps: Seq<Package>, n: Seq<char>)
    requires
        find_package(ps, n) is Some,
    ensures
        find_package(ps, n).unwrap().name@ == n,
    decreases ps.len(),
{
    if ps[0].name@ != n {
        lemma_find_package_name(ps.drop_first(), n);
    }
}

/// Whether one of `provs` is installed.
fn any_installed(installed: &InstalledDatabase, provs: &Vec<Package>) -> (r: bool)
    ensures
        r == exists|k: int| 0 <= k < provs@.len() && (#[trigger] first_row(rows_view(installed.rows@), provs@[k].name@)) is Some,
{
    let mut j: usize = 0;
    while j < provs.len()
        invariant
            j <= provs@.len(),
            forall|k: int| 0 <= k < j ==> (#[trigger] first_row(rows_view(installed.rows@), provs@[k].name@)) is None,
        decreases provs.len() - j,
    {
        if get_installed_package(installed, provs[j].name.as_str()).is_ok() {
            return true;
        }
        j = j + 1;
    }
    false
}

/// Check to see if provided dependencies are installed: one verdict for
/// each dependency, in the order of `packages` (see [`dependency_met`]).
pub fn run_depend_check(catalog: &Catalog, installed: &InstalledDatabase, packages: &Vec<String>) -> (r: Vec<(String, bool)>)
    ensures
        checks_view(r@) == depend_check(*catalog, rows_view(installed.rows@), strings_view(packages@)),
{
    let ghost pv = strings_view(packages@);
    let ghost rows = rows_view(installed.rows@);
    let ghost f = |n: Seq<char>| (n, dependency_met(*catalog, rows, n));
    let mut r: Vec<(String, bool)> = Vec::new();
    let mut i: usize = 0;
    assert(checks_view(r@) =~= pv.take(0).map_values(f));
    while i < packages.len()
        invariant
            pv == strings_view(packages@),
            rows == rows_view(installed.rows@),
            f == (|n: Seq<char>| (n, dependency_met(*catalog, rows, n))),
            i <= packages@.len(),
            checks_view(r@) == pv.take(i as int).map_values(f),
        decreases packages.len() - i,
    {
        let name = &packages[i];
        assert(pv[i as int] == name@);
        let repo = match search_for_package(catalog, name.as_str()) {
            Ok(repo) => repo,
            Err(_) => String::new(),
        };
        let own = get_installed_package(installed, name.as_str()).is_ok();
        let met = match get_remote_package(catalog, name.as_str(), repo.as_str()) {
            Err(_) => own,
            Ok(remote) => {
                proof {
                    lemma_find_package_name(cache_packages(catalog.caches@, repo@).unwrap(), name@);
                }
                let provs = get_provides(catalog, repo.as_str(), remote.name.as_str());
                assert(provs@ == providers_of(*catalog, name@));
                if provs.len() > 0 {
                    any_installed(installed, &provs)
                } else {
                    own
                }
            },
        };
        assert(met == dependency_met(*catalog, rows, name@));
        let ghost before = checks_view(r@);
        r.push((name.clone(), met));
        assert(checks_view(r@) =~= before.push((name@, met)));
        assert(pv.take(i + 1).map_values(f) =~= pv.take(i as int).map_values(f).push(f(pv[i as int])));
        i = i + 1;
    }
    assert(pv.take(pv.len() as int) =~= pv);
    r
}

} // verus!
