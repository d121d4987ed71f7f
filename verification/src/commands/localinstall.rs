use vstd::prelude::*;
use crate::util::database::structs::Source;
use crate::util::macros::{listing_entry, push_listing_entry};
use crate::util::packaging::structs::Package;
use crate::util::transactions::install::InstallTransaction;
use crate::util::text::string_from_str;

verus! {

/// What a local install does with a path it is given: install the archive
/// there, warning first where it does not look like a package, or skip it
/// with a warning where nothing is there.
#[derive(Debug, Clone, Copy)]
pub enum LocalCheck {
    Install { warn: bool },
    Skip,
}

/// What a local install does with a path: a path where nothing exists is
/// skipped; any other is installed, with a warning where its archive holds no
/// `PKG` file.
pub fn local_check(exists: bool, is_package: bool) -> (r: LocalCheck)
    ensures
        exists ==> r == (LocalCheck::Install { warn: !is_package }),
        !exists ==> r is Skip,
{
    if exists {
        LocalCheck::Install { warn: !is_package }
    } else {
        LocalCheck::Skip
    }
}

/// The transaction that installs a package from a local archive: its source
/// is named `local` and has no address.
pub fn local_transaction(package: Package) -> (r: InstallTransaction)
    ensures
        r.package == package,
        r.source.name@ == "local"@,
        r.source.url == Option::<String>::None,
{
    InstallTransaction { package: package, source: Source { name: string_from_str("local"), url: None } }
}

/// The listing of the packages of a local install queue, in queue order.
pub open spec fn transaction_listing(queue: Seq<InstallTransaction>) -> Seq<char>
    decreases queue.len(),
{
    if queue.len() == 0 {
        Seq::<char>::empty()
    } else {
        let p = queue.last().package;
        transaction_listing(queue.drop_last()) + listing_entry(p.name@, p.version@, p.epoch)
    }
}

/// The packages of a local install queue as `name-version-epoch` entries,
/// each followed by a space, in queue order.
pub fn display_local_packages(queue: &Vec<InstallTransaction>) -> (r: String)
    ensures
        r@ == transaction_listing(queue@),
{
    let mut out = String::new();
    let mut i: usize = 0;
    assert(queue@.take(0) =~= Seq::<InstallTransaction>::empty());
    while i < queue.len()
        invariant
            i <= queue@.len(),
            out@ == transaction_listing(queue@.take(i as int)),
        decreases queue.len() - i,
    {
        assert(queue@.take(i + 1).drop_last() =~= queue@.take(i as int));
        assert(queue@.take(i + 1).last() == queue@[i as int]);
        let p = &queue[i].package;
        push_listing_entry(&mut out, p.name.as_str(), p.version.as_str(), p.epoch);
        i = i + 1;
    }
    assert(queue@.take(queue@.len() as int) =~= queue@);
    out
}

} // verus!
