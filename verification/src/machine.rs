//! The description of the machine that sessions are told about.
use vstd::prelude::*;
use vstd::utf8::*;

use crate::chars;
use crate::chars::CharSet;
use crate::foreign;
use crate::text;

verus! {

/// What follows a prefix on the first line that starts with it.
pub open spec fn value_of(lines: Seq<Seq<char>>, prefix: Seq<char>) -> Option<Seq<char>>
    decreases lines.len(),
{
    if lines.len() == 0 {
        None
    } else {
        match chars::after_prefix(lines[0], prefix) {
            Some(v) => Some(chars::trim_set(v, CharSet::Only('"'))),
            None => value_of(lines.skip(1), prefix),
        }
    }
}

/// The package manager of a distribution.
pub open spec fn package_manager(id: Seq<char>) -> Seq<char> {
    if id == "debian"@ || id == "ubuntu"@ || id == "raspbian"@ {
        "apt"@
    } else if id == "fedora"@ || id == "rhel"@ || id == "centos"@ {
        "dnf/yum"@
    } else if id == "arch"@ {
        "pacman"@
    } else if id == "alpine"@ {
        "apk"@
    } else {
        "the system package manager"@
    }
}

/// What a release file says of the machine.
pub open spec fn release_info(release: Seq<char>) -> Option<Seq<char>> {
    let lines = chars::lines(release);
    match value_of(lines, "PRETTY_NAME="@) {
        Some(name) => Some(
            name + " (package manager: "@ + package_manager(
                match value_of(lines, "ID="@) {
                    Some(id) => id,
                    None => ""@,
                },
            ) + ")"@,
        ),
        None => None,
    }
}

/// The description of the machine: by its release file, else by what `uname`
/// printed, else `Unix`.
pub open spec fn machine_info(release: Option<Seq<char>>, uname: Option<Seq<u8>>) -> Seq<char> {
    let by_release = match release {
        Some(r) => release_info(r),
        None => None,
    };
    match by_release {
        Some(info) => info,
        None => match uname {
            Some(out) => if valid_utf8(out) {
                chars::trim(decode_utf8(out))
            } else {
                "Unix"@
            },
            None => "Unix"@,
        },
    }
}

fn first_value<'a>(lines: &Vec<&'a str>, prefix: &str) -> (r: Option<&'a str>)
    ensures
        match r {
            Some(v) => value_of(chars::texts(lines@), prefix@) == Some(v@),
            None => value_of(chars::texts(lines@), prefix@) is None,
        },
{
    let ghost all = chars::texts(lines@);
    let mut i: usize = 0;
    assert(all.skip(0) =~= all);
    while i < lines.len()
        invariant
            i <= lines.len(),
            all == chars::texts(lines@),
            value_of(all, prefix@) == value_of(all.skip(i as int), prefix@),
        decreases lines.len() - i,
    {
        assert(all.skip(i as int).skip(1) =~= all.skip(i + 1));
        assert(all.skip(i as int)[0] == lines@[i as int]@);
        match text::after_prefix(lines[i], prefix) {
            Some(v) => {
                return Some(text::trim_set(v, CharSet::Only('"')));
            },
            None => {},
        }
        i += 1;
    }
    None
}

fn manager_for(id: &str) -> (r: &'static str)
    ensures
        r@ == package_manager(id@),
{
    if text::same(id, "debian") || text::same(id, "ubuntu") || text::same(id, "raspbian") {
        "apt"
    } else if text::same(id, "fedora") || text::same(id, "rhel") || text::same(id, "centos") {
        "dnf/yum"
    } else if text::same(id, "arch") {
        "pacman"
    } else if text::same(id, "alpine") {
        "apk"
    } else {
        "the system package manager"
    }
}

/// The description of the machine, from its release file and from what `uname`
/// printed, as far as they could be had.
pub fn detect_os_info(release: Option<&str>, uname: Option<&[u8]>) -> (r: String)
    ensures
        r@ == machine_info(
            match release {
                Some(s) => Some(s@),
                None => None,
            },
            match uname {
                Some(b) => Some(b@),
                None => None,
            },
        ),
{
    match release {
        Some(s) => {
            let lines = text::lines(s);
            match first_value(&lines, "PRETTY_NAME=") {
                Some(name) => {
                    let id = match first_value(&lines, "ID=") {
                        Some(id) => id,
                        None => "",
                    };
                    let mut out = name.to_owned();
                    out.append(" (package manager: ");
                    out.append(manager_for(id));
                    out.append(")");
                    return out;
                },
                None => {},
            }
        },
        None => {},
    }
    match uname {
        Some(b) => match foreign::utf8_text(b) {
            Ok(s) => text::trim(s).to_owned(),
            Err(_) => "Unix".to_owned(),
        },
        None => "Unix".to_owned(),
    }
}

}
