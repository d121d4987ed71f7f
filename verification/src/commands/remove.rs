use vstd::prelude::*;
use crate::util::database::fns::{
    decoded_row, decoded_rows, dependent_rows, first_row, get_depended_on, get_installed_package,
    installed_view, list_contains, rows_view, InstalledDatabase,
};
use crate::util::database::structs::{InstalledPackages, InstalledView, RowView};
use crate::util::lists::{lemma_select_complete, lemma_select_step, select};
use crate::util::text::{split_char, strings_view};

verus! {

/// What removing the requested packages involves: the installed ones (each
/// once, in request order), the names that are not installed, for each
/// installed one the packages that depend on it, and whether any has such a
/// package, in which case nothing may be removed.
#[derive(Debug)]
pub struct RemovalPlan {
    pub packages: Vec<InstalledPackages>,
    pub missing: Vec<String>,
    pub dependents: Vec<Vec<InstalledPackages>>,
    pub blocked: bool,
}

/// `s` without repeats: each name's first occurrence, in order.
pub open spec fn dedup(s: Seq<Seq<char>>) -> Seq<Seq<char>>
    decreases s.len(),
{
    if s.len() == 0 {
        s
    } else {
        let d = dedup(s.drop_last());
        if d.contains(s.last()) {
            d
        } else {
            d.push(s.last())
        }
    }
}

/// The requested names that are installed, each once, in request order.
pub open spec fn installed_names(rows: Seq<RowView>, names: Seq<Seq<char>>) -> Seq<Seq<char>> {
    dedup(select(names, |n: Seq<char>| first_row(rows, n) is Some))
}

/// The requested names that are not installed, in request order.
pub open spec fn missing_names(rows: Seq<RowView>, names: Seq<Seq<char>>) -> Seq<Seq<char>> {
    select(names, |n: Seq<char>| first_row(rows, n) is None)
}

/// The installed package that a name reads as.
pub open spec fn installed_of(rows: Seq<RowView>, n: Seq<char>) -> InstalledView {
    decoded_row(first_row(rows, n).unwrap())
}

/// Checks what removing the requested packages involves: which are
/// installed, which are not, and which installed packages depend on each.
#[verifier::loop_isolation(false)]
pub fn plan_removal(db: &InstalledDatabase, requested: &Vec<String>) -> (r: RemovalPlan)
    ensures
        ({
            let rows = rows_view(db.rows@);
            let names = installed_names(rows, strings_view(requested@));
            &&& installed_view(r.packages@) == names.map_values(|n: Seq<char>| installed_of(rows, n))
            &&& strings_view(r.missing@) == missing_names(rows, strings_view(requested@))
            &&& r.dependents@.len() == names.len()
            &&& forall|k: int| 0 <= k < names.len() ==>
                installed_view((#[trigger] r.dependents@[k])@) == decoded_rows(dependent_rows(rows, names[k]))
            &&& r.blocked == exists|k: int| 0 <= k < names.len() && (#[trigger] r.dependents@[k])@.len() > 0
        }),
{
    let ghost rows = rows_view(db.rows@);
    let ghost rv = strings_view(requested@);
    let ghost found = |n: Seq<char>| first_row(rows, n) is Some;
    let ghost absent = |n: Seq<char>| first_row(rows, n) is None;
    let mut names: Vec<String> = Vec::new();
    let mut packages: Vec<InstalledPackages> = Vec::new();
    let mut missing: Vec<String> = Vec::new();
    let mut i: usize = 0;
    assert(rv.take(0) =~= Seq::<Seq<char>>::empty());
    assert(strings_view(names@) =~= Seq::<Seq<char>>::empty());
    assert(strings_view(missing@) =~= Seq::<Seq<char>>::empty());
    assert(installed_view(packages@) =~= Seq::<InstalledView>::empty());
    while i < requested.len()
        invariant
            rows == rows_view(db.rows@),
            rv == strings_view(requested@),
            found == (|n: Seq<char>| first_row(rows, n) is Some),
            absent == (|n: Seq<char>| first_row(rows, n) is None),
            i <= requested@.len(),
            strings_view(names@) == dedup(select(rv.take(i as int), found)),
            installed_view(packages@) == strings_view(names@).map_values(|n: Seq<char>| installed_of(rows, n)),
            strings_view(missing@) == select(rv.take(i as int), absent),
        decreases requested.len() - i,
    {
        proof {
            lemma_select_step(rv, found, i as int);
            lemma_select_step(rv, absent, i as int);
        }
        let name = &requested[i];
        assert(rv[i as int] == name@);
        match get_installed_package(db, name.as_str()) {
            Ok(p) => {
                let ghost sel = select(rv.take(i as int), found);
                assert(sel.push(name@).drop_last() =~= sel);
                if !list_contains(&names, name.as_str()) {
                    let ghost nb = strings_view(names@);
                    let ghost pb = installed_view(packages@);
                    names.push(name.clone());
                    packages.push(p);
                    assert(strings_view(names@) =~= nb.push(name@));
                    assert(installed_view(packages@) =~= pb.push(installed_of(rows, name@)));
                    assert(nb.push(name@).map_values(|n: Seq<char>| installed_of(rows, n)) =~= nb.map_values(|n: Seq<char>| installed_of(rows, n)).push(installed_of(rows, name@)));
                }
            },
            Err(_) => {
                let ghost mb = strings_view(missing@);
                missing.push(name.clone());
                assert(strings_view(missing@) =~= mb.push(name@));
            },
        }
        i = i + 1;
    }
    assert(rv.take(rv.len() as int) =~= rv);
    let ghost nv = strings_view(names@);
    let mut dependents: Vec<Vec<InstalledPackages>> = Vec::new();
    let mut blocked = false;
    let mut j: usize = 0;
    while j < names.len()
        invariant
            rows == rows_view(db.rows@),
            nv == strings_view(names@),
            j <= names@.len(),
            dependents@.len() == j,
            forall|k: int| 0 <= k < j ==>
                installed_view((#[trigger] dependents@[k])@) == decoded_rows(dependent_rows(rows, nv[k])),
            blocked == exists|k: int| 0 <= k < j && (#[trigger] dependents@[k])@.len() > 0,
        decreases names.len() - j,
    {
        let d = get_depended_on(db, names[j].as_str());
        let nonempty = d.len() > 0;
        let ghost before = dependents@;
        dependents.push(d);
        assert(dependents@[j as int]@.len() > 0 <==> nonempty);
        assert forall|k: int| 0 <= k < j implies dependents@[k] == before[k] by {}
        if nonempty {
            blocked = true;
        }
        j = j + 1;
    }
    assert(nv == installed_names(rows, rv));
    let r = RemovalPlan { packages, missing, dependents, blocked };
    assert(installed_view(r.packages@) == installed_names(rows, rv).map_values(|n: Seq<char>| installed_of(rows, n)));
    assert(strings_view(r.missing@) == missing_names(rows, rv));
    assert(r.dependents@.len() == installed_names(rows, rv).len());
    assert(forall|k: int| 0 <= k < nv.len() ==>
        installed_view((#[trigger] r.dependents@[k])@) == decoded_rows(dependent_rows(rows, nv[k])));
    assert(r.blocked == exists|k: int| 0 <= k < nv.len() && (#[trigger] r.dependents@[k])@.len() > 0);
    r
}

/// Every installed package other than `n` that lists `n` anywhere in its
/// dependencies is one of `n`'s dependents, and every dependent does list
/// `n`: so a package that something installed depends on has dependents,
/// and removing it is refused.
pub proof fn law_dependents_are_those_that_depend(rows: Seq<RowView>, n: Seq<char>, i: int)
    requires
        0 <= i < rows.len(),
        rows[i].name != n,
        split_char(rows[i].dependencies, ',').contains(n),
    ensures
        dependent_rows(rows, n).contains(rows[i]),
        dependent_rows(rows, n).len() > 0,
        forall|j: int| 0 <= j < dependent_rows(rows, n).len() ==> {
            &&& (#[trigger] dependent_rows(rows, n)[j]).name != n
            &&& split_char(dependent_rows(rows, n)[j].dependencies, ',').contains(n)
        },
{
    let pred = |r: RowView| r.name != n && split_char(r.dependencies, ',').contains(n);
    lemma_select_complete(rows, pred, i);
    lemma_select_all(rows, pred);
}

/// Every element that `select` keeps satisfies the predicate.
proof fn lemma_select_all(s: Seq<RowView>, p: spec_fn(RowView) -> bool)
    ensures
        forall|j: int| 0 <= j < select(s, p).len() ==> p(#[trigger] select(s, p)[j]),
    decreases s.len(),
{
    if s.len() > 0 {
        lemma_select_all(s.drop_last(), p);
        let rest = select(s.drop_last(), p);
        if p(s.last()) {
            assert forall|j: int| 0 <= j < rest.push(s.last()).len() implies p(#[trigger] rest.push(s.last())[j]) by {
                if j < rest.len() {
                    assert(rest.push(s.last())[j] == rest[j]);
                }
            }
        }
    }
}

/// Removing a requested package that is installed is refused whenever
/// another installed package lists it among its dependencies: among the
/// installed requested names there is one with dependents.
pub proof fn law_removal_blocked_by_dependents(rows: Seq<RowView>, names: Seq<Seq<char>>, k: int, i: int)
    requires
        0 <= k < installed_names(rows, names).len(),
        0 <= i < rows.len(),
        rows[i].name != installed_names(rows, names)[k],
        split_char(rows[i].dependencies, ',').contains(installed_names(rows, names)[k]),
    ensures
        dependent_rows(rows, installed_names(rows, names)[k]).len() > 0,
{
    law_dependents_are_those_that_depend(rows, installed_names(rows, names)[k], i);
}

} // verus!
