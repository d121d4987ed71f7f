use vstd::prelude::*;
use crate::util::database::structs::InstalledPackages;
use crate::util::packaging::structs::Package;
use crate::util::text::{
    chars_of, i32_to_string, int_decimal, join_char, join_strings, lemma_join_split,
    lemma_split_join, push_char, push_str, split_char, split_string, strings_view, trim,
    trim_chars, TrimSet,
};

verus! {

/// Converts a vec of strings to a flat string separated by ","
pub fn vec_to_string(vec: Vec<String>) -> (r: String)
    ensures
        r@ == join_char(strings_view(vec@), ','),
{
    join_strings(&vec, ',')
}

/// Converts a string separated by "," to a vec of strings
pub fn string_to_vec(vec: String) -> (r: Vec<String>)
    ensures
        strings_view(r@) == split_char(vec@, ','),
{
    split_string(vec.as_str(), ',')
}

/// Splitting a flat string at "," and joining the pieces again gives the
/// string back, whatever it holds.
pub proof fn law_vec_to_string_inverts_string_to_vec(s: Seq<char>)
    ensures
        join_char(split_char(s, ','), ',') == s,
{
    lemma_join_split(s, ',');
}

/// Joining a list with "," and splitting the result gives the list back,
/// where the list is not empty and no item holds ",".
pub proof fn law_string_to_vec_inverts_vec_to_string(v: Seq<Seq<char>>)
    requires
        v.len() >= 1,
        forall|i: int| 0 <= i < v.len() ==> !(#[trigger] v[i]).contains(','),
    ensures
        split_char(join_char(v, ','), ',') == v,
{
    lemma_split_join(v, ',');
}

/// How one package shows in a listing: `name-version-epoch` and a space.
pub open spec fn listing_entry(name: Seq<char>, version: Seq<char>, epoch: i32) -> Seq<char> {
    name + seq!['-'] + version + seq!['-'] + int_decimal(epoch as int) + seq![' ']
}

/// The listing of the packages of an install queue, in queue order.
pub open spec fn install_listing(queue: Seq<(Package, String)>) -> Seq<char>
    decreases queue.len(),
{
    if queue.len() == 0 {
        Seq::<char>::empty()
    } else {
        let p = queue.last().0;
        install_listing(queue.drop_last()) + listing_entry(p.name@, p.version@, p.epoch)
    }
}

/// The listing of installed packages, in order.
pub open spec fn removal_listing(set: Seq<InstalledPackages>) -> Seq<char>
    decreases set.len(),
{
    if set.len() == 0 {
        Seq::<char>::empty()
    } else {
        let p = set.last();
        removal_listing(set.drop_last()) + listing_entry(p.name@, p.version@, p.epoch)
    }
}

/// Appends `name-version-epoch ` to `out`.
pub(crate) fn push_listing_entry(out: &mut String, name: &str, version: &str, epoch: i32)
    ensures
        final(out)@ == old(out)@ + listing_entry(name@, version@, epoch),
{
    push_str(out, name);
    push_char(out, '-');
    push_str(out, version);
    push_char(out, '-');
    let e = i32_to_string(epoch);
    push_str(out, e.as_str());
    push_char(out, ' ');
    assert(final(out)@ =~= old(out)@ + listing_entry(name@, version@, epoch));
}

/// The packages of an install queue as `name-version-epoch` entries, each
/// followed by a space, in queue order.
pub fn display_installing_packages(set: &Vec<(Package, String)>) -> (r: String)
    ensures
        r@ == install_listing(set@),
{
    let mut out = String::new();
    let mut i: usize = 0;
    assert(set@.take(0) =~= Seq::<(Package, String)>::empty());
    while i < set.len()
        invariant
            i <= set@.len(),
            out@ == install_listing(set@.take(i as int)),
        decreases set.len() - i,
    {
        assert(set@.take(i + 1).drop_last() =~= set@.take(i as int));
        assert(set@.take(i + 1).last() == set@[i as int]);
        let p = &set[i].0;
        push_listing_entry(&mut out, p.name.as_str(), p.version.as_str(), p.epoch);
        i = i + 1;
    }
    assert(set@.take(set@.len() as int) =~= set@);
    out
}

/// Installed packages as `name-version-epoch` entries, each followed by a
/// space, in order.
pub fn display_removing_packages(set: &Vec<InstalledPackages>) -> (r: String)
    ensures
        r@ == removal_listing(set@),
{
    let mut out = String::new();
    let mut i: usize = 0;
    assert(set@.take(0) =~= Seq::<InstalledPackages>::empty());
    while i < set.len()
        invariant
            i <= set@.len(),
            out@ == removal_listing(set@.take(i as int)),
        decreases set.len() - i,
    {
        assert(set@.take(i + 1).drop_last() =~= set@.take(i as int));
        assert(set@.take(i + 1).last() == set@[i as int]);
        let p = &set[i];
        push_listing_entry(&mut out, p.name.as_str(), p.version.as_str(), p.epoch);
        i = i + 1;
    }
    assert(set@.take(set@.len() as int) =~= set@);
    out
}

/// The install root: the value of the `INSTALL_ROOT` variable where it is
/// set, else the empty string.
pub fn get_root(install_root: Option<String>) -> (r: String)
    ensures
        r@ == match install_root {
            Some(v) => v@,
            None => Seq::<char>::empty(),
        },
{
    match install_root {
        Some(v) => v,
        None => String::new(),
    }
}

/// Whether an answer to a yes/no prompt means yes: the answer, trimmed of
/// white space and lowercased, is `y`. Only `y` and `Y` lowercase to `y`,
/// so the trimmed answer must be one of them.
pub open spec fn answer_is_yes(input: Seq<char>) -> bool {
    trim(input, TrimSet::Whitespace) == seq!['y'] || trim(input, TrimSet::Whitespace) == seq!['Y']
}

/// Whether an answer to the continue prompt means yes.
pub fn continue_answer(input: &str) -> (r: bool)
    ensures
        r == answer_is_yes(input@),
{
    let cs = chars_of(input);
    let t = trim_chars(&cs, &TrimSet::Whitespace);
    if t.len() == 1 && (t[0] == 'y' || t[0] == 'Y') {
        assert(t@ =~= seq![t@[0]]);
        true
    } else {
        assert(t@.len() == 1 ==> t@ =~= seq![t@[0]]);
        false
    }
}

} // verus!
