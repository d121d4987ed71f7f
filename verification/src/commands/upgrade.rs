use vstd::prelude::*;
use crate::util::database::fns::{get_remote_package, remote_package, Catalog};
use crate::util::database::structs::{InstalledPackages, InstalledView};
use crate::util::lists::{lemma_select_complete, lemma_select_step, select};
use crate::util::text::{lemma_split_char_nonempty, split_char, split_string, str_equal, strings_view};
use crate::util::version::{version_is_newer, version_newer};

verus! {

/// The repository name of a stored source: its text up to the first `,`.
pub open spec fn source_name_of(source: Seq<char>) -> Seq<char> {
    split_char(source, ',')[0]
}

/// The repository name of a stored source.
pub fn source_name(source: &str) -> (r: String)
    ensures
        r@ == source_name_of(source@),
{
    let pieces = split_string(source, ',');
    proof {
        lemma_split_char_nonempty(source@, ',');
    }
    assert(pieces@[0]@ == strings_view(pieces@)[0]);
    pieces[0].clone()
}

/// Whether an installed package has an update: it does not come from a
/// local archive, its repository still has it, and the repository's copy
/// has a higher epoch or a newer version.
pub open spec fn needs_update(c: Catalog, p: InstalledView) -> bool {
    let src = source_name_of(p.source);
    &&& src != "local"@
    &&& match remote_package(c, p.name, src) {
        None => false,
        Some(r) => r.epoch > p.epoch || version_newer(r.version@, p.version),
    }
}

/// The names of the installed packages that have updates, in order.
pub open spec fn updates_of(c: Catalog, pkgs: Seq<InstalledView>) -> Seq<Seq<char>> {
    select(pkgs, |p: InstalledView| needs_update(c, p)).map_values(|p: InstalledView| p.name)
}

/// Check for updates: the names of the installed packages whose repository
/// has a higher epoch or a newer version, in order.
pub fn find_updates(catalog: &Catalog, installed: &Vec<InstalledPackages>) -> (r: Vec<String>)
    ensures
        strings_view(r@) == updates_of(*catalog, installed@.map_values(|p: InstalledPackages| p@)),
{
    let ghost iv = installed@.map_values(|p: InstalledPackages| p@);
    let ghost pred = |p: InstalledView| needs_update(*catalog, p);
    let ghost f = |p: InstalledView| p.name;
    let mut updates: Vec<String> = Vec::new();
    let mut i: usize = 0;
    assert(iv.take(0) =~= Seq::<InstalledView>::empty());
    assert(select(Seq::<InstalledView>::empty(), pred).map_values(f) =~= Seq::<Seq<char>>::empty());
    proof {
        reveal_strlit("local");
    }
    while i < installed.len()
        invariant
            iv == installed@.map_values(|p: InstalledPackages| p@),
            pred == (|p: InstalledView| needs_update(*catalog, p)),
            f == (|p: InstalledView| p.name),
            i <= installed@.len(),
            strings_view(updates@) == select(iv.take(i as int), pred).map_values(f),
        decreases installed.len() - i,
    {
        proof {
            lemma_select_step(iv, pred, i as int);
        }
        let p = &installed[i];
        assert(iv[i as int] == p@);
        let src = source_name(p.source.as_str());
        let mut wanted = false;
        if !str_equal(src.as_str(), "local") {
            match get_remote_package(catalog, p.name.as_str(), src.as_str()) {
                Ok(remote) => {
                    if remote.epoch > p.epoch {
                        wanted = true;
                    } else if version_is_newer(remote.version.as_str(), p.version.as_str()) {
                        wanted = true;
                    }
                },
                Err(_) => {},
            }
        }
        assert(wanted == pred(iv[i as int]));
        if wanted {
            let ghost before = strings_view(updates@);
            updates.push(p.name.clone());
            assert(strings_view(updates@) =~= before.push(f(iv[i as int])));
            assert(select(iv.take(i as int), pred).push(iv[i as int]).map_values(f) =~= select(iv.take(i as int), pred).map_values(f).push(f(iv[i as int])));
        }
        i = i + 1;
    }
    assert(iv.take(iv.len() as int) =~= iv);
    updates
}

/// A higher epoch always means an update: an installed package that does
/// not come from a local archive, whose repository has it with a higher
/// epoch, is among the updates whatever the versions say.
pub proof fn law_higher_epoch_updates(c: Catalog, pkgs: Seq<InstalledView>, k: int)
    requires
        0 <= k < pkgs.len(),
        source_name_of(pkgs[k].source) != "local"@,
        remote_package(c, pkgs[k].name, source_name_of(pkgs[k].source)) matches Some(r) && r.epoch > pkgs[k].epoch,
    ensures
        updates_of(c, pkgs).contains(pkgs[k].name),
{
    let pred = |p: InstalledView| needs_update(c, p);
    let f = |p: InstalledView| p.name;
    lemma_select_complete(pkgs, pred, k);
    let sel = select(pkgs, pred);
    let i = choose|i: int| 0 <= i < sel.len() && sel[i] == pkgs[k];
    assert(sel.map_values(f)[i] == pkgs[k].name);
}

} // verus!
