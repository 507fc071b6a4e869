//! Front matter: `key: value` lines between two lines of `---`. What is written
//! as such lines is found again by its keys.
use vstd::prelude::*;

use crate::chars;
use crate::chars::CharSet;
use crate::readback::{lacks, plain};
use crate::skills::field_of;

verus! {

/// The line of a key and its value.
pub open spec fn entry_line(e: (Seq<char>, Seq<char>)) -> Seq<char> {
    e.0 + ": "@ + e.1
}

/// The lines of keys and their values.
pub open spec fn entry_lines(es: Seq<(Seq<char>, Seq<char>)>) -> Seq<Seq<char>> {
    es.map_values(|e: (Seq<char>, Seq<char>)| entry_line(e))
}

/// The lines as one text.
pub open spec fn front_text(es: Seq<(Seq<char>, Seq<char>)>) -> Seq<char> {
    chars::join(entry_lines(es), "\n"@)
}

/// A value that stands on a line of its own, without white space around it.
pub open spec fn tidy(v: Seq<char>) -> bool {
    lacks(v, '\n') && chars::trim(v) == v
}

/// The keys are names and the values tidy.
pub open spec fn tidy_entries(es: Seq<(Seq<char>, Seq<char>)>) -> bool {
    forall|i: int|
        0 <= i < es.len() ==> plain((#[trigger] es[i]).0) && es[i].0.len() > 0 && tidy(es[i].1)
}

/// The last value of a key.
pub open spec fn last_of(es: Seq<(Seq<char>, Seq<char>)>, key: Seq<char>) -> Option<Seq<char>>
    decreases es.len(),
{
    if es.len() == 0 {
        None
    } else if es.last().0 == key {
        Some(es.last().1)
    } else {
        last_of(es.drop_last(), key)
    }
}

pub proof fn lemma_trimmed_ends(v: Seq<char>)
    requires
        chars::trim(v) == v,
        v.len() > 0,
    ensures
        !chars::is_white(v[0]),
        !chars::is_white(v.last()),
{
    chars::lemma_drop_leading(v, CharSet::White);
    chars::lemma_drop_trailing(chars::trim_start(v), CharSet::White);
    let t = chars::trim_start(v);
    assert(chars::trim_end(t).len() <= t.len());
    assert(t.len() <= v.len());
    assert(t =~= v);
}

proof fn lemma_key(k: Seq<char>)
    requires
        plain(k),
        k.len() > 0,
    ensures
        chars::trim(k) == k,
        lacks(k, ':'),
        lacks(k, '\n'),
        k[0] != '-',
{
    assert forall|i: int| 0 <= i < k.len() implies #[trigger] k[i] != ':' && k[i] != '\n' && k[i]
        != '-' && !chars::is_white(k[i]) by {
        assert(CharSet::IdentStart.has(k[i]));
    }
    assert(!chars::is_white(k[0]));
    assert(!chars::is_white(k[k.len() - 1]));
    assert(chars::trim_start(k) == k);
    assert(chars::trim_end(k) == k);
}

/// A key and its value are found in their line.
proof fn lemma_entry(e: (Seq<char>, Seq<char>))
    requires
        plain(e.0),
        e.0.len() > 0,
        tidy(e.1),
    ensures
        chars::around(entry_line(e), ":"@) == Some((e.0, seq![' '] + e.1)),
        chars::trim(e.0) == e.0,
        chars::trim(seq![' '] + e.1) == e.1,
        lacks(entry_line(e), '\n'),
        entry_line(e).len() > 0,
        entry_line(e)[0] != '-',
        entry_line(e).last() != '\r',
{
    lemma_key(e.0);
    reveal_strlit(": ");
    reveal_strlit(":");
    assert(":"@ =~= seq![':']);
    let s = entry_line(e);
    let k = e.0;
    let v = seq![' '] + e.1;
    let n = k.len() as int;
    assert(s =~= k + (seq![':'] + v));
    assert(s.skip(n).take(1) =~= seq![':']);
    assert forall|j: int| 0 <= j < n implies !chars::starts_with(#[trigger] s.skip(j), ":"@) by {
        if chars::starts_with(s.skip(j), ":"@) {
            assert(s.skip(j).take(1)[0] == ':');
            assert(s.skip(j)[0] == k[j]);
        }
    }
    lemma_find_is(s, ":"@, n);
    assert(s.take(n) =~= k);
    assert(s.skip(n + 1) =~= v);
    assert(v.skip(1) =~= e.1);
    assert(v[0] == ' ');
    assert(chars::trim_start(v) == chars::trim_start(e.1));
    assert forall|i: int| 0 <= i < s.len() implies #[trigger] s[i] != '\n' by {
        if i < n {
            assert(s[i] == k[i]);
        } else if i >= n + 2 {
            assert(s[i] == e.1[i - n - 2]);
        }
    }
    assert(s[0] == k[0]);
    if e.1.len() > 0 {
        lemma_trimmed_ends(e.1);
        assert(s.last() == e.1.last());
    }
}

/// The first occurrence of a text is where it starts and does not start before.
pub proof fn lemma_find_is(s: Seq<char>, p: Seq<char>, k: int)
    requires
        0 <= k <= s.len(),
        chars::starts_with(s.skip(k), p),
        forall|j: int| 0 <= j < k ==> !chars::starts_with(#[trigger] s.skip(j), p),
    ensures
        chars::find(s, p) == Some(k as nat),
{
    chars::lemma_find(s, p);
    match chars::find(s, p) {
        Some(i) => {
            assert(chars::starts_with(s.skip(i as int), p));
        },
        None => {},
    }
}

/// Joined lines come apart again.
proof fn lemma_lines_back(ls: Seq<Seq<char>>)
    requires
        ls.len() > 0,
        forall|i: int|
            0 <= i < ls.len() ==> lacks(#[trigger] ls[i], '\n') && ls[i].len() > 0 && ls[i].last()
                != '\r',
    ensures
        chars::lines(chars::join(ls, "\n"@)) == ls,
    decreases ls.len(),
{
    reveal_strlit("\n");
    assert("\n"@ =~= seq!['\n']);
    let first = ls[0];
    assert(lacks(first, '\n') && first.len() > 0 && first.last() != '\r');
    if ls.len() == 1 {
        let set = CharSet::Only('\n');
        assert forall|j: int| 0 <= j < first.len() implies !set.has(#[trigger] first[j]) by {}
        chars::lemma_until_is(first, set, first.len() as int);
        assert(ls =~= seq![first]);
    } else {
        let more = ls.skip(1);
        assert forall|i: int| 0 <= i < more.len() implies lacks(#[trigger] more[i], '\n')
            && more[i].len() > 0 && more[i].last() != '\r' by {
            assert(more[i] == ls[i + 1]);
        }
        lemma_lines_back(more);
        crate::readback::lemma_join_left(ls, "\n"@);
        let rest = chars::join(more, "\n"@);
        assert(first + (seq!['\n'] + rest) =~= first + seq!['\n'] + rest);
        chars::lemma_first_line(first, rest);
        assert(ls =~= seq![first] + more);
    }
}

proof fn lemma_entries_at(es: Seq<(Seq<char>, Seq<char>)>, i: int)
    requires
        tidy_entries(es),
        0 <= i < es.len(),
    ensures
        entry_lines(es)[i] == entry_line(es[i]),
        lacks(entry_line(es[i]), '\n'),
        entry_line(es[i]).len() > 0,
        entry_line(es[i]).last() != '\r',
        entry_line(es[i])[0] != '-',
{
    assert(plain(es[i].0));
    lemma_entry(es[i]);
}

/// The lines of front matter.
pub proof fn lemma_front_lines(es: Seq<(Seq<char>, Seq<char>)>)
    requires
        es.len() > 0,
        tidy_entries(es),
    ensures
        chars::lines(front_text(es)) == entry_lines(es),
{
    let ls = entry_lines(es);
    assert forall|i: int| 0 <= i < ls.len() implies lacks(#[trigger] ls[i], '\n') && ls[i].len() > 0
        && ls[i].last() != '\r' by {
        lemma_entries_at(es, i);
    }
    lemma_lines_back(ls);
}

/// Each key finds its last value.
pub proof fn lemma_front_fields(es: Seq<(Seq<char>, Seq<char>)>, key: Seq<char>)
    requires
        tidy_entries(es),
    ensures
        field_of(entry_lines(es), key) == last_of(es, key),
    decreases es.len(),
{
    if es.len() > 0 {
        let init = es.drop_last();
        let e = es[es.len() - 1];
        assert(plain(e.0));
        lemma_entry(e);
        assert(entry_lines(es).last() == entry_line(e));
        assert(entry_lines(es).drop_last() =~= entry_lines(init));
        assert forall|i: int| 0 <= i < init.len() implies plain((#[trigger] init[i]).0)
            && init[i].0.len() > 0 && tidy(init[i].1) by {
            assert(init[i] == es[i]);
        }
        lemma_front_fields(init, key);
    }
}

/// An empty line in front changes no field.
pub proof fn lemma_blank_line(ls: Seq<Seq<char>>, key: Seq<char>)
    ensures
        field_of(seq![Seq::<char>::empty()] + ls, key) == field_of(ls, key),
    decreases ls.len(),
{
    let all = seq![Seq::<char>::empty()] + ls;
    reveal_strlit(":");
    if ls.len() == 0 {
        assert(all.drop_last() =~= seq![]);
        assert(all.last().len() == 0);
        assert(chars::around(all.last(), ":"@) is None);
        assert(field_of(all.drop_last(), key) is None);
    } else {
        assert(all.last() == ls.last());
        assert(all.drop_last() =~= seq![Seq::<char>::empty()] + ls.drop_last());
        lemma_blank_line(ls.drop_last(), key);
    }
}

/// No line of front matter starts with a hyphen.
pub open spec fn undashed(s: Seq<char>) -> bool {
    forall|j: int|
        0 <= j < s.len() && #[trigger] s[j] == '\n' ==> j + 1 < s.len() && s[j + 1] != '-'
}

proof fn lemma_undashed(es: Seq<(Seq<char>, Seq<char>)>)
    requires
        es.len() > 0,
        tidy_entries(es),
    ensures
        undashed(front_text(es)),
        front_text(es).len() > 0,
        front_text(es)[0] != '-',
    decreases es.len(),
{
    let last = es[es.len() - 1];
    let line = entry_line(last);
    lemma_entries_at(es, es.len() - 1);
    reveal_strlit("\n");
    let s = front_text(es);
    if es.len() == 1 {
        assert(s == line);
        assert forall|j: int| 0 <= j < s.len() implies #[trigger] s[j] != '\n' by {}
    } else {
        let init = es.drop_last();
        assert forall|i: int| 0 <= i < init.len() implies plain((#[trigger] init[i]).0)
            && init[i].0.len() > 0 && tidy(init[i].1) by {
            assert(init[i] == es[i]);
        }
        lemma_undashed(init);
        assert(entry_lines(es).drop_last() =~= entry_lines(init));
        let before = front_text(init);
        assert(s =~= before + (seq!['\n'] + line));
        assert forall|j: int| 0 <= j < s.len() && #[trigger] s[j] == '\n' implies j + 1 < s.len()
            && s[j + 1] != '-' by {
            if j < before.len() {
                assert(before[j] == '\n');
                assert(s[j + 1] == before[j + 1]);
            } else if j == before.len() {
                assert(s[j + 1] == line[0]);
            } else {
                assert(s[j] == line[j - before.len() - 1]);
            }
        }
    }
}

/// Front matter ends at the first line that starts with hyphens.
proof fn lemma_end_is(front: Seq<char>, rest: Seq<char>)
    requires
        undashed(front),
    ensures
        chars::find(front + ("\n---"@ + rest), "\n---"@) == Some(front.len()),
{
    reveal_strlit("\n---");
    let p = "\n---"@;
    let s = front + (p + rest);
    let k = front.len() as int;
    assert(s.skip(k) =~= p + rest);
    assert((p + rest).take(p.len() as int) =~= p);
    assert forall|j: int| 0 <= j < k implies !chars::starts_with(#[trigger] s.skip(j), p) by {
        if chars::starts_with(s.skip(j), p) {
            assert(s.skip(j).take(4)[0] == '\n');
            assert(s.skip(j).take(4)[1] == '-');
            assert(front[j] == '\n');
            assert(front[j + 1] == s[j + 1]);
        }
    }
    lemma_find_is(s, p, k);
}

/// Front matter is found between its ends, with or without the line break that
/// follows the first of them.
pub proof fn lemma_front_found(es: Seq<(Seq<char>, Seq<char>)>, rest: Seq<char>)
    requires
        es.len() > 0,
        tidy_entries(es),
    ensures
        chars::around(front_text(es) + ("\n---"@ + rest), "\n---"@) == Some((front_text(es), rest)),
        chars::find(seq!['\n'] + front_text(es) + ("\n---"@ + rest), "\n---"@) == Some(
            (front_text(es).len() + 1) as nat,
        ),
{
    let front = front_text(es);
    lemma_undashed(es);
    lemma_end_is(front, rest);
    reveal_strlit("\n---");
    let s = front + ("\n---"@ + rest);
    assert(s.take(front.len() as int) =~= front);
    assert(s.skip(front.len() as int + 4) =~= rest);
    let longer = seq!['\n'] + front;
    assert(undashed(longer)) by {
        assert forall|j: int| 0 <= j < longer.len() && #[trigger] longer[j] == '\n' implies j + 1
            < longer.len() && longer[j + 1] != '-' by {
            if j == 0 {
                assert(longer[1] == front[0]);
            } else {
                assert(front[j - 1] == '\n');
                assert(longer[j + 1] == front[j]);
            }
        }
    }
    lemma_end_is(longer, rest);
}

}
