use vstd::prelude::*;
use crate::util::database::fns::{
    cache_packages, find_cache, first_source_with_group, search_for_group, select_by_column,
    in_list, Catalog, PackageColumn, PackageDBError,
};
use crate::util::database::fns::{list_contains};
use crate::util::lists::select;
use crate::util::packaging::structs::Package;
use crate::util::text::strings_view;
use crate::commands::remove::dedup;

verus! {

/// The packages of a group that the search finds: those, in the repository
/// found for the group, that list it among their groups; `None` where that
/// repository has no packages table.
pub open spec fn group_members(c: Catalog, group: Seq<char>) -> Option<Seq<Package>> {
    let repo = first_source_with_group(c, c.sources@, group);
    match cache_packages(c.caches@, repo) {
        Some(ps) => Some(select(ps, |p: Package| in_list(p.groups@, group))),
        None => None,
    }
}

/// The names of the members of the groups, in order and without repeats;
/// `None` where a group's repository cannot be read.
pub open spec fn group_queue(c: Catalog, groups: Seq<Seq<char>>) -> Option<Seq<Seq<char>>>
    decreases groups.len(),
{
    if groups.len() == 0 {
        Some(Seq::<Seq<char>>::empty())
    } else {
        match (group_queue(c, groups.drop_last()), group_members(c, groups.last())) {
            (Some(q), Some(ms)) => Some(add_names(q, ms.map_values(|p: Package| p.name@))),
            _ => None,
        }
    }
}

/// `q` with each of `names` added at the end unless already there.
pub open spec fn add_names(q: Seq<Seq<char>>, names: Seq<Seq<char>>) -> Seq<Seq<char>>
    decreases names.len(),
{
    if names.len() == 0 {
        q
    } else {
        let a = add_names(q, names.drop_last());
        if a.contains(names.last()) {
            a
        } else {
            a.push(names.last())
        }
    }
}

/// The install queue of a group install: the names of the packages in each
/// requested group, in order and without repeats. Fails where the
/// repository found for a group cannot be read, which happens when no
/// repository has the group.
pub fn group_install_queue(catalog: &Catalog, groups: &Vec<String>) -> (r: Result<Vec<String>, PackageDBError>)
    ensures
        match group_queue(*catalog, strings_view(groups@)) {
            Some(q) => r matches Ok(v) && strings_view(v@) == q,
            None => r is Err,
        },
{
    let ghost gv = strings_view(groups@);
    let mut queue: Vec<String> = Vec::new();
    let mut i: usize = 0;
    assert(gv.take(0) =~= Seq::<Seq<char>>::empty());
    assert(strings_view(queue@) =~= Seq::<Seq<char>>::empty());
    while i < groups.len()
        invariant
            gv == strings_view(groups@),
            i <= groups@.len(),
            group_queue(*catalog, gv.take(i as int)) == Some(strings_view(queue@)),
        decreases groups.len() - i,
    {
        assert(gv.take(i + 1).drop_last() =~= gv.take(i as int));
        assert(gv.take(i + 1).last() == groups@[i as int]@);
        let group = &groups[i];
        let repo = match search_for_group(catalog, group.as_str()) {
            Ok(r) => r,
            Err(e) => return Err(e),
        };
        let pkgs = match find_cache(&catalog.caches, repo.as_str()) {
            Some(p) => p,
            None => {
                proof {
                    lemma_group_queue_none(*catalog, gv, i as int + 1);
                }
                assert(gv.take(gv.len() as int) =~= gv);
                return Err(PackageDBError);
            },
        };
        let members = select_by_column(pkgs, PackageColumn::Groups, group.as_str());
        assert((|p: Package| crate::util::database::fns::column_matches(p, PackageColumn::Groups, group@)) =~= (|p: Package| in_list(p.groups@, group@)));
        let ghost mv = members@.map_values(|p: Package| p.name@);
        let ghost q0 = strings_view(queue@);
        let mut j: usize = 0;
        assert(mv.take(0) =~= Seq::<Seq<char>>::empty());
        while j < members.len()
            invariant
                mv == members@.map_values(|p: Package| p.name@),
                j <= members@.len(),
                strings_view(queue@) == add_names(q0, mv.take(j as int)),
            decreases members.len() - j,
        {
            assert(mv.take(j + 1).drop_last() =~= mv.take(j as int));
            assert(mv.take(j + 1).last() == members@[j as int].name@);
            let name = &members[j].name;
            if !list_contains(&queue, name.as_str()) {
                let ghost before = strings_view(queue@);
                queue.push(name.clone());
                assert(strings_view(queue@) =~= before.push(name@));
            }
            j = j + 1;
        }
        assert(mv.take(mv.len() as int) =~= mv);
        i = i + 1;
    }
    assert(gv.take(gv.len() as int) =~= gv);
    Ok(queue)
}

/// Once a prefix of the groups cannot be queued, neither can all of them.
proof fn lemma_group_queue_none(c: Catalog, groups: Seq<Seq<char>>, k: int)
    requires
        0 <= k <= groups.len(),
        group_queue(c, groups.take(k)) is None,
    ensures
        group_queue(c, groups) is None,
    decreases groups.len() - k,
{
    if k < groups.len() {
        assert(groups.take(k + 1).drop_last() =~= groups.take(k));
        lemma_group_queue_none(c, groups, k + 1);
    } else {
        assert(groups.take(k) =~= groups);
    }
}

/// Adding names keeps what was there, holds every added name, and adds no
/// repeat.
proof fn lemma_add_names(q: Seq<Seq<char>>, names: Seq<Seq<char>>)
    ensures
        forall|y: Seq<char>| q.contains(y) ==> add_names(q, names).contains(y),
        forall|k: int| 0 <= k < names.len() ==> add_names(q, names).contains(#[trigger] names[k]),
        q.no_duplicates() ==> add_names(q, names).no_duplicates(),
    decreases names.len(),
{
    if names.len() > 0 {
        let front = names.drop_last();
        lemma_add_names(q, front);
        let a = add_names(q, front);
        let n = names.last();
        if !a.contains(n) {
            let t = a.push(n);
            assert(t[a.len() as int] == n);
            assert forall|y: Seq<char>| a.contains(y) implies t.contains(y) by {
                let i = choose|i: int| 0 <= i < a.len() && a[i] == y;
                assert(t[i] == y);
            }
        }
        assert forall|k: int| 0 <= k < names.len() implies add_names(q, names).contains(#[trigger] names[k]) by {
            if k < names.len() - 1 {
                assert(front[k] == names[k]);
            }
        }
    }
}

/// A group install queue holds every member of every requested group, each
/// once.
pub proof fn law_group_queue_covers_members(c: Catalog, groups: Seq<Seq<char>>)
    requires
        group_queue(c, groups) is Some,
    ensures
        group_queue(c, groups) matches Some(q) && q.no_duplicates() && forall|g: int, m: int|
            0 <= g < groups.len() && group_members(c, groups[g]) is Some && 0 <= m < group_members(c, groups[g])->Some_0.len()
                ==> q.contains(#[trigger] group_members(c, groups[g])->Some_0[m].name@),
    decreases groups.len(),
{
    if groups.len() > 0 {
        let front = groups.drop_last();
        law_group_queue_covers_members(c, front);
        let q0 = group_queue(c, front)->Some_0;
        let ms = group_members(c, groups.last())->Some_0;
        let names = ms.map_values(|p: Package| p.name@);
        lemma_add_names(q0, names);
        let q = group_queue(c, groups)->Some_0;
        assert forall|g: int, m: int|
            0 <= g < groups.len() && group_members(c, groups[g]) is Some && 0 <= m < group_members(c, groups[g])->Some_0.len()
                implies q.contains(#[trigger] group_members(c, groups[g])->Some_0[m].name@) by {
            if g < groups.len() - 1 {
                assert(front[g] == groups[g]);
            } else {
                assert(names[m] == ms[m].name@);
            }
        }
    }
}

} // verus!
