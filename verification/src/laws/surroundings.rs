//! Promises of what is told about the machine.
use vstd::prelude::*;
use vstd::utf8::*;

use crate::chars;
use crate::chars::CharSet;
use crate::laws::texts::{law_prefix_stands_first, lemma_part, occurs, stands_at};
use crate::machine::{machine_info, package_manager, release_info, value_of};

verus! {

/// A value is what follows its prefix on the first line that starts with it,
/// without the quotes around it.
pub proof fn law_value_of_the_first_line(
    lines: Seq<Seq<char>>,
    prefix: Seq<char>,
    i: int,
    value: Seq<char>,
)
    requires
        0 <= i < lines.len(),
        lines[i] == prefix + value,
        forall|j: int| 0 <= j < i ==> !stands_at(#[trigger] lines[j], prefix, 0),
    ensures
        value_of(lines, prefix) == Some(chars::trim_set(value, CharSet::Only('"'))),
    decreases lines.len(),
{
    law_prefix_stands_first(lines[0], prefix);
    if i > 0 {
        assert(!stands_at(lines[0], prefix, 0));
        let rest = lines.skip(1);
        assert(rest[i - 1] == lines[i]);
        assert forall|j: int| 0 <= j < i - 1 implies !stands_at(#[trigger] rest[j], prefix, 0) by {
            assert(rest[j] == lines[j + 1]);
        }
        law_value_of_the_first_line(rest, prefix, i - 1, value);
    } else {
        assert(lines[0].take(prefix.len() as int) =~= prefix);
        assert(lines[0].skip(prefix.len() as int) =~= value);
    }
}

/// Without a line that starts with the prefix there is no value.
pub proof fn law_no_value_without_its_line(lines: Seq<Seq<char>>, prefix: Seq<char>)
    requires
        forall|j: int| 0 <= j < lines.len() ==> !stands_at(#[trigger] lines[j], prefix, 0),
    ensures
        value_of(lines, prefix) is None,
    decreases lines.len(),
{
    if lines.len() > 0 {
        law_prefix_stands_first(lines[0], prefix);
        assert(!stands_at(lines[0], prefix, 0));
        let rest = lines.skip(1);
        assert forall|j: int| 0 <= j < rest.len() implies !stands_at(
            #[trigger] rest[j],
            prefix,
            0,
        ) by {
            assert(rest[j] == lines[j + 1]);
        }
        law_no_value_without_its_line(rest, prefix);
    }
}

/// A release that has a name is told by its name and by the package manager of its
/// distribution; one without a name tells nothing.
pub proof fn law_release_is_told_by_its_name(release: Seq<char>)
    ensures
        release_info(release) is Some == (value_of(
            chars::lines(release),
            "PRETTY_NAME="@,
        ) is Some),
        value_of(chars::lines(release), "PRETTY_NAME="@) matches Some(name) ==> occurs(
            release_info(release)->0,
            name,
        ),
        value_of(chars::lines(release), "PRETTY_NAME="@) is Some ==> (value_of(
            chars::lines(release),
            "ID="@,
        ) matches Some(id) ==> occurs(release_info(release)->0, package_manager(id))),
{
    let lines = chars::lines(release);
    if let Some(name) = value_of(lines, "PRETTY_NAME="@) {
        let id = match value_of(lines, "ID="@) {
            Some(id) => id,
            None => ""@,
        };
        let m = " (package manager: "@;
        let p = package_manager(id);
        let none = Seq::<char>::empty();
        lemma_part(none, name, m + p + ")"@);
        assert(none + name + (m + p + ")"@) =~= name + m + p + ")"@);
        lemma_part(name + m, p, ")"@);
    }
}

/// The machine is told by its release where that has a name, else by what `uname`
/// printed.
pub proof fn law_machine_is_told_by_its_release(
    release: Option<Seq<char>>,
    uname: Option<Seq<u8>>,
)
    ensures
        release matches Some(r) ==> (release_info(r) matches Some(info) ==> machine_info(
            release,
            uname,
        ) == info),
        release is None ==> (uname matches Some(out) ==> (valid_utf8(out) ==> machine_info(
            release,
            uname,
        ) == chars::trim(decode_utf8(out)))),
{
}

}
