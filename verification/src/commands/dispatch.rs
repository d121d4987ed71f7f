use vstd::prelude::*;

verus! {

/// The commands of the command line.
#[derive(Debug, Clone, Copy, PartialEq, Eq, Structural)]
pub enum Command {
    Help,
    Sync,
    Upgrade,
    Install,
    LocalInstall,
    GroupInstall,
    Remove,
    List,
    Invalid,
}

/// A character in lower case, for the letters `A` to `Z`.
pub open spec fn lower_char(c: char) -> char {
    if 'A' <= c && c <= 'Z' {
        ((c as u32) + 32) as char
    } else {
        c
    }
}

/// A word in lower case, letter by letter.
pub open spec fn lower_word(s: Seq<char>) -> Seq<char> {
    s.map_values(|c: char| lower_char(c))
}

/// The command that a lower-case word names: each command has a short and
/// a long name (`-h` and `--help` for the help).
pub open spec fn command_named(w: Seq<char>) -> Command {
    if w == "-h"@ || w == "--help"@ {
        Command::Help
    } else if w == "s"@ || w == "sync"@ {
        Command::Sync
    } else if w == "u"@ || w == "upgrade"@ {
        Command::Upgrade
    } else if w == "i"@ || w == "install"@ {
        Command::Install
    } else if w == "li"@ || w == "localinstall"@ {
        Command::LocalInstall
    } else if w == "gi"@ || w == "groupinstall"@ {
        Command::GroupInstall
    } else if w == "r"@ || w == "remove"@ {
        Command::Remove
    } else if w == "list"@ {
        Command::List
    } else {
        Command::Invalid
    }
}

/// Whether character `c`, in lower case, is `w`.
fn lower_is(c: char, w: char) -> (r: bool)
    ensures
        r == (lower_char(c) == w),
{
    let cc = c as u32;
    let wc = w as u32;
    if 0x41 <= cc && cc <= 0x5a {
        cc + 32 == wc
    } else {
        cc == wc
    }
}

/// Whether `s`, in lower case, is the word `w`.
fn lower_equals(s: &Vec<char>, w: &str) -> (r: bool)
    ensures
        r == (lower_word(s@) == w@),
{
    let wc = crate::util::text::chars_of(w);
    if s.len() != wc.len() {
        assert(lower_word(s@).len() != w@.len());
        return false;
    }
    let mut i: usize = 0;
    while i < s.len()
        invariant
            wc@ == w@,
            s@.len() == wc@.len(),
            i <= s@.len(),
            forall|k: int| 0 <= k < i ==> lower_char(s@[k]) == wc@[k],
        decreases s.len() - i,
    {
        if !lower_is(s[i], wc[i]) {
            assert(lower_word(s@)[i as int] != w@[i as int]);
            return false;
        }
        i = i + 1;
    }
    assert(lower_word(s@) =~= w@);
    true
}

/// The command that the first argument names, whatever the case of its
/// letters.
pub fn command_of(arg: &str) -> (r: Command)
    ensures
        r == command_named(lower_word(arg@)),
{
    let s = crate::util::text::chars_of(arg);
    proof {
        reveal_strlit("-h");
        reveal_strlit("--help");
    }
    if lower_equals(&s, "-h") || lower_equals(&s, "--help") {
        Command::Help
    } else if lower_equals(&s, "s") || lower_equals(&s, "sync") {
        Command::Sync
    } else if lower_equals(&s, "u") || lower_equals(&s, "upgrade") {
        Command::Upgrade
    } else if lower_equals(&s, "i") || lower_equals(&s, "install") {
        Command::Install
    } else if lower_equals(&s, "li") || lower_equals(&s, "localinstall") {
        Command::LocalInstall
    } else if lower_equals(&s, "gi") || lower_equals(&s, "groupinstall") {
        Command::GroupInstall
    } else if lower_equals(&s, "r") || lower_equals(&s, "remove") {
        Command::Remove
    } else if lower_equals(&s, "list") {
        Command::List
    } else {
        Command::Invalid
    }
}

} // verus!
