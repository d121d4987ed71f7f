use vstd::prelude::*;
use crate::commands::upgrade::{source_name, source_name_of};
use crate::util::database::structs::{InstalledPackages, InstalledView};
use crate::util::text::{i32_to_string, int_decimal, push_char, push_str, strings_view};

verus! {

/// The line that lists an installed package: `name version-epoch repo`.
pub open spec fn list_line_of(p: InstalledView) -> Seq<char> {
    p.name + seq![' '] + p.version + seq!['-'] + int_decimal(p.epoch as int) + seq![' '] + source_name_of(p.source)
}

/// The line that lists an installed package.
pub fn list_line(p: &InstalledPackages) -> (r: String)
    ensures
        r@ == list_line_of(p@),
{
    let mut out = String::new();
    push_str(&mut out, p.name.as_str());
    push_char(&mut out, ' ');
    push_str(&mut out, p.version.as_str());
    push_char(&mut out, '-');
    let e = i32_to_string(p.epoch);
    push_str(&mut out, e.as_str());
    push_char(&mut out, ' ');
    let src = source_name(p.source.as_str());
    push_str(&mut out, src.as_str());
    assert(out@ =~= list_line_of(p@));
    out
}

/// The lines that list the installed packages, in order.
pub fn list(installed: &Vec<InstalledPackages>) -> (r: Vec<String>)
    ensures
        strings_view(r@) == installed@.map_values(|p: InstalledPackages| list_line_of(p@)),
{
    let mut lines: Vec<String> = Vec::new();
    let mut i: usize = 0;
    while i < installed.len()
        invariant
            i <= installed@.len(),
            strings_view(lines@) == installed@.take(i as int).map_values(|p: InstalledPackages| list_line_of(p@)),
        decreases installed.len() - i,
    {
        let ghost before = strings_view(lines@);
        let l = list_line(&installed[i]);
        lines.push(l);
        assert(strings_view(lines@) =~= before.push(l@));
        assert(installed@.take(i + 1).map_values(|p: InstalledPackages| list_line_of(p@)) =~= installed@.take(i as int).map_values(|p: InstalledPackages| list_line_of(p@)).push(list_line_of(installed@[i as int]@)));
        i = i + 1;
    }
    assert(installed@.take(installed@.len() as int) =~= installed@);
    lines
}

} // verus!
