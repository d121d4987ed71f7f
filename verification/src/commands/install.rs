use vstd::prelude::*;
use crate::util::database::fns::{
    first_source_with, get_remote_package, remote_package, rows_view, search_for_package, Catalog,
    InstalledDatabase, PackageDBError,
};
use crate::util::database::structs::RowView;
use crate::util::packaging::structs::Package;
use crate::util::text::{
    chars_of, i32_to_string, int_decimal, push_char, push_str, replace_all, replace_chars, str_equal,
    string_from_chars, strings_view,
};
use crate::util::transactions::dependencies::{
    checks_view, depend_check, dependency_met, resolve_fuel, resolve_package, resolved_as,
    run_depend_check, run_depend_resolve, ResolveError,
};

verus! {

/// Why an install cannot be planned: a package that must be fetched (named
/// here) is not in the repository found for it, or a dependency cannot be
/// resolved.
#[derive(Debug)]
pub enum InstallError {
    PackageMissing(String),
    Unresolved(ResolveError),
}

/// The spec form of [`InstallError`].
pub enum PlanFailure {
    PackageMissing(Seq<char>),
    Unresolved(Seq<char>, Seq<char>),
}

/// `s` with the pair `x` added at the end, unless it already holds it.
pub open spec fn add_pair(s: Seq<(Seq<char>, Seq<char>)>, x: (Seq<char>, Seq<char>)) -> Seq<(Seq<char>, Seq<char>)> {
    if s.contains(x) {
        s
    } else {
        s.push(x)
    }
}

/// The pairs of names and repositories, by their views.
pub open spec fn pairs_view(v: Seq<(String, String)>) -> Seq<(Seq<char>, Seq<char>)> {
    v.map_values(|e: (String, String)| (e.0@, e.1@))
}

/// `acc` with every dependency that the checks found unmet, each with the
/// repository that the search finds for it.
pub open spec fn add_unmet(c: Catalog, acc: Seq<(Seq<char>, Seq<char>)>, checks: Seq<(Seq<char>, bool)>) -> Seq<(Seq<char>, Seq<char>)>
    decreases checks.len(),
{
    if checks.len() == 0 {
        acc
    } else {
        let a = add_unmet(c, acc, checks.drop_last());
        let (n, met) = checks.last();
        if met {
            a
        } else {
            add_pair(a, (n, first_source_with(c, c.sources@, n)))
        }
    }
}

/// The install plan after adding the requested package `name` to `acc`:
/// the package with the repository that the search finds, then, where it has
/// dependencies, each resolved dependency that is not met (see
/// `dependency_met`), with the repository that the search finds for it.
pub open spec fn plan_one(c: Catalog, rows: Seq<RowView>, acc: Seq<(Seq<char>, Seq<char>)>, name: Seq<char>) -> Result<Seq<(Seq<char>, Seq<char>)>, PlanFailure> {
    let repo = first_source_with(c, c.sources@, name);
    let acc1 = add_pair(acc, (name, repo));
    match remote_package(c, name, repo) {
        None => Err(PlanFailure::PackageMissing(name)),
        Some(p) => if p.depends@.len() == 0 {
            Ok(acc1)
        } else {
            let empty = Seq::<Seq<char>>::empty();
            match resolve_package(c, p, empty, resolve_fuel(c, empty)) {
                Err((d, q)) => Err(PlanFailure::Unresolved(d, q)),
                Ok(deps) => Ok(add_unmet(c, acc1, depend_check(c, rows, deps))),
            }
        },
    }
}

/// The install plan for the requested packages, in request order: the
/// packages to fetch, each with its repository, without duplicates.
pub open spec fn plan_all(c: Catalog, rows: Seq<RowView>, names: Seq<Seq<char>>) -> Result<Seq<(Seq<char>, Seq<char>)>, PlanFailure>
    decreases names.len(),
{
    if names.len() == 0 {
        Ok(Seq::<(Seq<char>, Seq<char>)>::empty())
    } else {
        match plan_all(c, rows, names.drop_last()) {
            Err(e) => Err(e),
            Ok(acc) => plan_one(c, rows, acc, names.last()),
        }
    }
}

/// How a planning outcome matches its spec.
pub open spec fn planned_as(spec: Result<Seq<(Seq<char>, Seq<char>)>, PlanFailure>, r: Result<Vec<(String, String)>, InstallError>) -> bool {
    match spec {
        Ok(s) => r matches Ok(v) && pairs_view(v@) == s,
        Err(PlanFailure::PackageMissing(n)) => r matches Err(InstallError::PackageMissing(m)) && m@ == n,
        Err(PlanFailure::Unresolved(d, q)) => r matches Err(InstallError::Unresolved(e)) && e.dependency@ == d && e.package@ == q,
    }
}

/// Adds the pair `(name, repo)` unless it is already there.
fn insert_pair(acc: &mut Vec<(String, String)>, name: &String, repo: &String)
    ensures
        pairs_view(final(acc)@) == add_pair(pairs_view(old(acc)@), (name@, repo@)),
{
    let ghost av = pairs_view(acc@);
    let mut i: usize = 0;
    while i < acc.len()
        invariant
            av == pairs_view(acc@),
            i <= acc@.len(),
            forall|k: int| 0 <= k < i ==> av[k] != (name@, repo@),
        decreases acc.len() - i,
    {
        if str_equal(acc[i].0.as_str(), name.as_str()) && str_equal(acc[i].1.as_str(), repo.as_str()) {
            assert(av[i as int] == (name@, repo@));
            return;
        }
        i = i + 1;
    }
    acc.push((name.clone(), repo.clone()));
    assert(pairs_view(acc@) =~= av.push((name@, repo@)));
}

/// Adds to the plan `requested`, one requested package, and the unmet
/// dependencies it brings.
fn plan_package(catalog: &Catalog, installed: &InstalledDatabase, acc: &mut Vec<(String, String)>, requested: &String) -> (r: Result<(), InstallError>)
    ensures
        match plan_one(*catalog, rows_view(installed.rows@), pairs_view(old(acc)@), requested@) {
            Ok(s) => r is Ok && pairs_view(final(acc)@) == s,
            Err(PlanFailure::PackageMissing(n)) => r matches Err(InstallError::PackageMissing(m)) && m@ == n,
            Err(PlanFailure::Unresolved(d, q)) => r matches Err(InstallError::Unresolved(e)) && e.dependency@ == d && e.package@ == q,
        },
{
    let repo = match search_for_package(catalog, requested.as_str()) {
        Ok(r) => r,
        Err(_) => String::new(),
    };
    insert_pair(acc, requested, &repo);
    let remote = match get_remote_package(catalog, requested.as_str(), repo.as_str()) {
        Ok(p) => p,
        Err(_) => return Err(InstallError::PackageMissing(requested.clone())),
    };
    if crate::util::text::str_is_empty(remote.depends.as_str()) {
        return Ok(());
    }
    let mut deps: Vec<String> = Vec::new();
    assert(strings_view(deps@) =~= Seq::<Seq<char>>::empty());
    match run_depend_resolve(catalog, &remote, &mut deps) {
        Err(e) => return Err(InstallError::Unresolved(e)),
        Ok(()) => {},
    }
    let checks = run_depend_check(catalog, installed, &deps);
    let ghost cv = checks_view(checks@);
    let ghost acc1 = pairs_view(acc@);
    let mut i: usize = 0;
    assert(cv.take(0) =~= Seq::<(Seq<char>, bool)>::empty());
    while i < checks.len()
        invariant
            cv == checks_view(checks@),
            i <= checks@.len(),
            pairs_view(acc@) == add_unmet(*catalog, acc1, cv.take(i as int)),
        decreases checks.len() - i,
    {
        assert(cv.take(i + 1).drop_last() =~= cv.take(i as int));
        assert(cv.take(i + 1).last() == (checks@[i as int].0@, checks@[i as int].1));
        if !checks[i].1 {
            let dep_repo = match search_for_package(catalog, checks[i].0.as_str()) {
                Ok(r) => r,
                Err(_) => String::new(),
            };
            insert_pair(acc, &checks[i].0, &dep_repo);
        }
        i = i + 1;
    }
    assert(cv.take(cv.len() as int) =~= cv);
    Ok(())
}

/// Resolves the requested packages and their dependencies into the list of
/// packages to fetch, each with its repository, in request order and without
/// duplicates: each requested package, and each of its resolved
/// dependencies that are not met.
pub fn plan_install(catalog: &Catalog, installed: &InstalledDatabase, requested: &Vec<String>) -> (r: Result<Vec<(String, String)>, InstallError>)
    ensures
        planned_as(plan_all(*catalog, rows_view(installed.rows@), strings_view(requested@)), r),
{
    let ghost rv = strings_view(requested@);
    let mut acc: Vec<(String, String)> = Vec::new();
    let mut i: usize = 0;
    assert(rv.take(0) =~= Seq::<Seq<char>>::empty());
    assert(pairs_view(acc@) =~= Seq::<(Seq<char>, Seq<char>)>::empty());
    while i < requested.len()
        invariant
            rv == strings_view(requested@),
            i <= requested@.len(),
            plan_all(*catalog, rows_view(installed.rows@), rv.take(i as int)) == Ok::<Seq<(Seq<char>, Seq<char>)>, PlanFailure>(pairs_view(acc@)),
        decreases requested.len() - i,
    {
        assert(rv.take(i + 1).drop_last() =~= rv.take(i as int));
        assert(rv.take(i + 1).last() == requested@[i as int]@);
        match plan_package(catalog, installed, &mut acc, &requested[i]) {
            Err(e) => {
                proof {
                    lemma_plan_all_err(*catalog, rows_view(installed.rows@), rv, i as int + 1);
                }
                assert(rv.take(rv.len() as int) =~= rv);
                return Err(e);
            },
            Ok(()) => {},
        }
        i = i + 1;
    }
    assert(rv.take(rv.len() as int) =~= rv);
    Ok(acc)
}

/// Once planning a prefix of the requests fails, planning all of them fails
/// the same way.
proof fn lemma_plan_all_err(c: Catalog, rows: Seq<RowView>, names: Seq<Seq<char>>, k: int)
    requires
        0 <= k <= names.len(),
        plan_all(c, rows, names.take(k)) is Err,
    ensures
        plan_all(c, rows, names) == plan_all(c, rows, names.take(k)),
    decreases names.len() - k,
{
    if k < names.len() {
        assert(names.take(k + 1).drop_last() =~= names.take(k));
        lemma_plan_all_err(c, rows, names, k + 1);
    } else {
        assert(names.take(k) =~= names);
    }
}

/// The install queue of a plan: the package that each pair names, fetched
/// from its repository, with the repository, in plan order; fails where one
/// is missing.
pub fn install_queue(catalog: &Catalog, plan: &Vec<(String, String)>) -> (r: Result<Vec<(Package, String)>, InstallError>)
    ensures
        match r {
            Ok(q) => q@.len() == plan@.len() && forall|k: int| 0 <= k < q@.len() ==> {
                &&& remote_package(*catalog, plan@[k].0@, plan@[k].1@) == Some(#[trigger] q@[k].0)
                &&& q@[k].1@ == plan@[k].1@
            },
            Err(InstallError::PackageMissing(n)) => exists|k: int| 0 <= k < plan@.len()
                && (#[trigger] remote_package(*catalog, plan@[k].0@, plan@[k].1@)) is None
                && n@ == plan@[k].0@
                && forall|j: int| 0 <= j < k ==> (#[trigger] remote_package(*catalog, plan@[j].0@, plan@[j].1@)) is Some,
            Err(InstallError::Unresolved(_)) => false,
        },
{
    let mut q: Vec<(Package, String)> = Vec::new();
    let mut i: usize = 0;
    while i < plan.len()
        invariant
            i <= plan@.len(),
            q@.len() == i,
            forall|k: int| 0 <= k < i ==> {
                &&& remote_package(*catalog, plan@[k].0@, plan@[k].1@) == Some(#[trigger] q@[k].0)
                &&& q@[k].1@ == plan@[k].1@
            },
        decreases plan.len() - i,
    {
        match get_remote_package(catalog, plan[i].0.as_str(), plan[i].1.as_str()) {
            Ok(p) => q.push((p, plan[i].1.clone())),
            Err(_) => {
                assert(remote_package(*catalog, plan@[i as int].0@, plan@[i as int].1@) is None);
                assert forall|j: int| 0 <= j < i implies (#[trigger] remote_package(*catalog, plan@[j].0@, plan@[j].1@)) is Some by {
                    assert(remote_package(*catalog, plan@[j].0@, plan@[j].1@) == Some(q@[j].0));
                }
                let n = plan[i].0.clone();
                assert(n@ == plan@[i as int].0@);
                return Err(InstallError::PackageMissing(n));
            },
        }
        i = i + 1;
    }
    Ok(q)
}

/// The archive name of a package: `name-version-epoch.tar.xz`.
pub open spec fn archive_name(p: Package) -> Seq<char> {
    p.name@ + seq!['-'] + p.version@ + seq!['-'] + int_decimal(p.epoch as int) + ".tar.xz"@
}

/// Appends `name-version-epoch.tar.xz` to `out`.
fn push_archive_name(out: &mut String, p: &Package)
    ensures
        final(out)@ == old(out)@ + archive_name(*p),
{
    push_str(out, p.name.as_str());
    push_char(out, '-');
    push_str(out, p.version.as_str());
    push_char(out, '-');
    let e = i32_to_string(p.epoch);
    push_str(out, e.as_str());
    push_str(out, ".tar.xz");
    assert(final(out)@ =~= old(out)@ + archive_name(*p));
}

/// The address of a package's archive on a mirror: the mirror with `$repo`
/// replaced by the repository, then `/` and the archive name.
pub fn package_url(mirror: &str, repo: &str, package: &Package) -> (r: String)
    ensures
        r@ == replace_all(mirror@, "$repo"@, repo@) + seq!['/'] + archive_name(*package),
{
    let m = chars_of(mirror);
    let pat = chars_of("$repo");
    let rep = chars_of(repo);
    proof {
        reveal_strlit("$repo");
    }
    let replaced = replace_chars(&m, &pat, &rep);
    let mut out = string_from_chars(&replaced);
    push_char(&mut out, '/');
    push_archive_name(&mut out, package);
    assert(out@ =~= replace_all(mirror@, "$repo"@, repo@) + seq!['/'] + archive_name(*package));
    out
}

/// The addresses to try, in mirror order, for a package's archive: one
/// for each mirror, as [`package_url`] gives it.
pub fn package_urls(mirrors: &Vec<String>, repo: &str, package: &Package) -> (r: Vec<String>)
    ensures
        r@.len() == mirrors@.len(),
        forall|k: int| 0 <= k < mirrors@.len() ==>
            (#[trigger] r@[k])@ == replace_all(mirrors@[k]@, "$repo"@, repo@) + seq!['/'] + archive_name(*package),
{
    let mut urls: Vec<String> = Vec::new();
    let mut i: usize = 0;
    while i < mirrors.len()
        invariant
            i <= mirrors@.len(),
            urls@.len() == i,
            forall|k: int| 0 <= k < i ==>
                (#[trigger] urls@[k])@ == replace_all(mirrors@[k]@, "$repo"@, repo@) + seq!['/'] + archive_name(*package),
        decreases mirrors.len() - i,
    {
        let u = package_url(mirrors[i].as_str(), repo, package);
        urls.push(u);
        i = i + 1;
    }
    urls
}

/// Where a downloaded archive is kept: `{root}/tmp/` and the archive name.
pub fn archive_path(root: &str, package: &Package) -> (r: String)
    ensures
        r@ == root@ + "/tmp/"@ + archive_name(*package),
{
    let mut out = String::new();
    push_str(&mut out, root);
    push_str(&mut out, "/tmp/");
    push_archive_name(&mut out, package);
    assert(out@ =~= root@ + "/tmp/"@ + archive_name(*package));
    out
}

/// Adding a pair keeps what was there, holds the pair, and adds no repeat.
proof fn lemma_add_pair(s: Seq<(Seq<char>, Seq<char>)>, x: (Seq<char>, Seq<char>))
    ensures
        add_pair(s, x).contains(x),
        forall|y: (Seq<char>, Seq<char>)| s.contains(y) ==> add_pair(s, x).contains(y),
        s.no_duplicates() ==> add_pair(s, x).no_duplicates(),
{
    if !s.contains(x) {
        let t = s.push(x);
        assert(t[s.len() as int] == x);
        assert forall|y: (Seq<char>, Seq<char>)| s.contains(y) implies t.contains(y) by {
            let k = choose|k: int| 0 <= k < s.len() && s[k] == y;
            assert(t[k] == y);
        }
    }
}

/// Adding the unmet dependencies keeps what was there and adds no repeat.
proof fn lemma_add_unmet(c: Catalog, acc: Seq<(Seq<char>, Seq<char>)>, checks: Seq<(Seq<char>, bool)>)
    ensures
        forall|y: (Seq<char>, Seq<char>)| acc.contains(y) ==> add_unmet(c, acc, checks).contains(y),
        acc.no_duplicates() ==> add_unmet(c, acc, checks).no_duplicates(),
    decreases checks.len(),
{
    if checks.len() > 0 {
        lemma_add_unmet(c, acc, checks.drop_last());
        let a = add_unmet(c, acc, checks.drop_last());
        let (n, met) = checks.last();
        if !met {
            lemma_add_pair(a, (n, first_source_with(c, c.sources@, n)));
        }
    }
}

/// A successful install plan holds each requested package with the
/// repository that the search finds for it, and no pair twice.
pub proof fn law_plan_covers_requests(c: Catalog, rows: Seq<RowView>, names: Seq<Seq<char>>)
    requires
        plan_all(c, rows, names) is Ok,
    ensures
        plan_all(c, rows, names) matches Ok(s) && s.no_duplicates() && forall|k: int| 0 <= k < names.len() ==>
            s.contains((#[trigger] names[k], first_source_with(c, c.sources@, names[k]))),
    decreases names.len(),
{
    if names.len() > 0 {
        let front = names.drop_last();
        law_plan_covers_requests(c, rows, front);
        let acc = plan_all(c, rows, front)->Ok_0;
        let name = names.last();
        let repo = first_source_with(c, c.sources@, name);
        let acc1 = add_pair(acc, (name, repo));
        lemma_add_pair(acc, (name, repo));
        match remote_package(c, name, repo) {
            None => {},
            Some(p) => {
                if p.depends@.len() > 0 {
                    let empty = Seq::<Seq<char>>::empty();
                    if let Ok(deps) = resolve_package(c, p, empty, resolve_fuel(c, empty)) {
                        lemma_add_unmet(c, acc1, depend_check(c, rows, deps));
                    }
                }
            },
        }
        let s = plan_all(c, rows, names)->Ok_0;
        assert forall|k: int| 0 <= k < names.len() implies s.contains((#[trigger] names[k], first_source_with(c, c.sources@, names[k]))) by {
            if k < names.len() - 1 {
                assert(front[k] == names[k]);
            }
        }
    }
}

/// The dependencies that resolving the package found for `name` gives: none
/// where it is not found, has no depends, or cannot be resolved.
pub open spec fn resolved_dependencies(c: Catalog, name: Seq<char>) -> Seq<Seq<char>> {
    let empty = Seq::<Seq<char>>::empty();
    match remote_package(c, name, first_source_with(c, c.sources@, name)) {
        Some(p) => if p.depends@.len() > 0 {
            match resolve_package(c, p, empty, resolve_fuel(c, empty)) {
                Ok(d) => d,
                Err(_) => empty,
            }
        } else {
            empty
        },
        None => empty,
    }
}

/// Adding the unmet dependencies holds each of them with the repository that
/// the search finds for it.
proof fn lemma_add_unmet_covers(c: Catalog, acc: Seq<(Seq<char>, Seq<char>)>, checks: Seq<(Seq<char>, bool)>)
    ensures
        forall|j: int| 0 <= j < checks.len() && !(#[trigger] checks[j]).1 ==>
            add_unmet(c, acc, checks).contains((checks[j].0, first_source_with(c, c.sources@, checks[j].0))),
    decreases checks.len(),
{
    if checks.len() > 0 {
        let front = checks.drop_last();
        lemma_add_unmet_covers(c, acc, front);
        let a = add_unmet(c, acc, front);
        let (n, met) = checks.last();
        if !met {
            lemma_add_pair(a, (n, first_source_with(c, c.sources@, n)));
        }
        assert forall|j: int| 0 <= j < checks.len() && !(#[trigger] checks[j]).1 implies
            add_unmet(c, acc, checks).contains((checks[j].0, first_source_with(c, c.sources@, checks[j].0))) by {
            if j < checks.len() - 1 {
                assert(front[j] == checks[j]);
            }
        }
    }
}

/// A successful install plan holds, for every requested package (not only
/// the first), each of its resolved dependencies that is not met, with the
/// repository that the search finds for it.
pub proof fn law_plan_includes_unmet_dependencies(c: Catalog, rows: Seq<RowView>, names: Seq<Seq<char>>)
    requires
        plan_all(c, rows, names) is Ok,
    ensures
        forall|k: int, j: int|
            0 <= k < names.len() && 0 <= j < resolved_dependencies(c, names[k]).len()
                && !dependency_met(c, rows, #[trigger] resolved_dependencies(c, names[k])[j])
                ==> plan_all(c, rows, names)->Ok_0.contains((
                    resolved_dependencies(c, names[k])[j],
                    first_source_with(c, c.sources@, resolved_dependencies(c, names[k])[j]),
                )),
    decreases names.len(),
{
    if names.len() > 0 {
        let front = names.drop_last();
        law_plan_includes_unmet_dependencies(c, rows, front);
        let acc = plan_all(c, rows, front)->Ok_0;
        let name = names.last();
        let repo = first_source_with(c, c.sources@, name);
        let acc1 = add_pair(acc, (name, repo));
        lemma_add_pair(acc, (name, repo));
        let res = plan_all(c, rows, names)->Ok_0;
        let p = remote_package(c, name, repo)->Some_0;
        if p.depends@.len() > 0 {
            let empty = Seq::<Seq<char>>::empty();
            let deps = resolve_package(c, p, empty, resolve_fuel(c, empty))->Ok_0;
            let checks = depend_check(c, rows, deps);
            lemma_add_unmet(c, acc1, checks);
            lemma_add_unmet_covers(c, acc1, checks);
            assert(res == add_unmet(c, acc1, checks));
            assert forall|j: int| 0 <= j < deps.len() && !dependency_met(c, rows, #[trigger] deps[j]) implies
                res.contains((deps[j], first_source_with(c, c.sources@, deps[j]))) by {
                assert(checks[j] == (deps[j], dependency_met(c, rows, deps[j])));
            }
        }
        assert forall|k: int, j: int|
            0 <= k < names.len() && 0 <= j < resolved_dependencies(c, names[k]).len()
                && !dependency_met(c, rows, #[trigger] resolved_dependencies(c, names[k])[j])
                implies res.contains((
                    resolved_dependencies(c, names[k])[j],
                    first_source_with(c, c.sources@, resolved_dependencies(c, names[k])[j]),
                )) by {
            if k < names.len() - 1 {
                assert(front[k] == names[k]);
                let x = (resolved_dependencies(c, names[k])[j], first_source_with(c, c.sources@, resolved_dependencies(c, names[k])[j]));
                assert(acc.contains(x));
                assert(acc1.contains(x));
            }
        }
    }
}

} // verus!
