use vstd::prelude::*;
use crate::util::lists::{lemma_select_step, select};
use crate::util::text::{
    chars_of, lines_chars, lines_of, replace_all, replace_chars, starts_with_char,
    string_from_chars, strings_view, trim, trim_chars, TrimSet,
};

verus! {

/// Whether a line of the mirror list names a mirror: it is not empty and is
/// no comment (a line that begins with `#`).
pub open spec fn mirror_line(l: Seq<char>) -> bool {
    l.len() > 0 && !starts_with_char(l, '#')
}

/// The address that a line of the mirror list gives: the line trimmed of
/// white space, with `$arch` replaced by the architecture trimmed of
/// backslashes and double quotes.
pub open spec fn mirror_address(l: Seq<char>, arch: Seq<char>) -> Seq<char> {
    replace_all(trim(l, TrimSet::Whitespace), "$arch"@, trim(arch, TrimSet::QuotesAndBackslashes))
}

/// The mirrors that a mirror list gives for an architecture, in order.
pub open spec fn mirrors_of(raw: Seq<char>, arch: Seq<char>) -> Seq<Seq<char>> {
    select(lines_of(raw), |l: Seq<char>| mirror_line(l)).map_values(|l: Seq<char>| mirror_address(l, arch))
}

/// Load mirrors for repos from the text of the mirror list and the
/// configured architecture.
pub fn load_mirrors(raw_mirrors: &str, arch: &str) -> (r: Vec<String>)
    ensures
        strings_view(r@) == mirrors_of(raw_mirrors@, arch@),
{
    let lines = lines_chars(raw_mirrors);
    let ghost lv = lines@.map_values(|l: Vec<char>| l@);
    let arch_chars = chars_of(arch);
    let arch_clean = trim_chars(&arch_chars, &TrimSet::QuotesAndBackslashes);
    let pat = chars_of("$arch");
    proof {
        reveal_strlit("$arch");
    }
    let ghost pred = |l: Seq<char>| mirror_line(l);
    let ghost f = |l: Seq<char>| mirror_address(l, arch@);
    let mut mirrors: Vec<String> = Vec::new();
    let mut i: usize = 0;
    assert(lv.take(0) =~= Seq::<Seq<char>>::empty());
    assert(select(Seq::<Seq<char>>::empty(), pred).map_values(f) =~= Seq::<Seq<char>>::empty());
    while i < lines.len()
        invariant
            lv == lines@.map_values(|l: Vec<char>| l@),
            lv == lines_of(raw_mirrors@),
            pat@ == "$arch"@,
            pat@.len() > 0,
            arch_clean@ == trim(arch@, TrimSet::QuotesAndBackslashes),
            pred == (|l: Seq<char>| mirror_line(l)),
            f == (|l: Seq<char>| mirror_address(l, arch@)),
            i <= lines@.len(),
            strings_view(mirrors@) == select(lv.take(i as int), pred).map_values(f),
        decreases lines.len() - i,
    {
        proof {
            lemma_select_step(lv, pred, i as int);
        }
        let line = &lines[i];
        assert(line@ == lv[i as int]);
        if line.len() > 0 && line[0] != '#' {
            let trimmed = trim_chars(line, &TrimSet::Whitespace);
            let replaced = replace_chars(&trimmed, &pat, &arch_clean);
            let ghost before = strings_view(mirrors@);
            let s = string_from_chars(&replaced);
            mirrors.push(s);
            assert(strings_view(mirrors@) =~= before.push(s@));
            assert(select(lv.take(i as int), pred).push(lv[i as int]).map_values(f) =~= select(lv.take(i as int), pred).map_values(f).push(f(lv[i as int])));
        }
        i = i + 1;
    }
    assert(lv.take(lv.len() as int) =~= lv);
    mirrors
}

} // verus!
