//! Promises of the operations on texts.
use vstd::prelude::*;

use crate::chars;
use crate::chars::CharSet;

verus! {

/// `p` stands in `s` at position `i`.
pub open spec fn stands_at(s: Seq<char>, p: Seq<char>, i: int) -> bool {
    0 <= i && i + p.len() <= s.len() && s.subrange(i, i + p.len()) == p
}

/// `p` stands somewhere in `s`.
pub open spec fn occurs(s: Seq<char>, p: Seq<char>) -> bool {
    exists|i: int| stands_at(s, p, i)
}

/// A text starts with another where that one stands at its beginning, and what
/// follows it is the rest.
pub proof fn law_prefix_stands_first(s: Seq<char>, p: Seq<char>)
    ensures
        chars::starts_with(s, p) == stands_at(s, p, 0),
        chars::after_prefix(s, p) is Some == stands_at(s, p, 0),
        chars::after_prefix(s, p) matches Some(rest) ==> s == p + rest,
{
    if p.len() <= s.len() {
        assert(s.take(p.len() as int) =~= s.subrange(0, p.len() as int));
        assert(s =~= s.take(p.len() as int) + s.skip(p.len() as int));
    }
}

proof fn lemma_skip_starts(s: Seq<char>, p: Seq<char>, i: int)
    requires
        0 <= i <= s.len(),
    ensures
        chars::starts_with(s.skip(i), p) == stands_at(s, p, i),
{
    if i + p.len() <= s.len() {
        assert(s.skip(i).take(p.len() as int) =~= s.subrange(i, i + p.len()));
    }
}

/// A text is found in another where it stands there first, and not found only
/// where it stands nowhere. What is around it makes up the whole.
pub proof fn law_find_is_first_occurrence(s: Seq<char>, p: Seq<char>)
    ensures
        chars::contains(s, p) == occurs(s, p),
        chars::find(s, p) is Some == occurs(s, p),
        chars::find(s, p) matches Some(i) ==> stands_at(s, p, i as int) && forall|j: int|
            0 <= j < i ==> !#[trigger] stands_at(s, p, j),
        chars::around(s, p) is Some == occurs(s, p),
        chars::around(s, p) matches Some((a, b)) ==> s == a + p + b && forall|j: int|
            0 <= j < a.len() ==> !#[trigger] stands_at(s, p, j),
{
    chars::lemma_find(s, p);
    match chars::find(s, p) {
        Some(i) => {
            lemma_skip_starts(s, p, i as int);
            assert forall|j: int| 0 <= j < i implies !#[trigger] stands_at(s, p, j) by {
                lemma_skip_starts(s, p, j);
                assert(!chars::starts_with(s.skip(j), p));
            }
            assert(s =~= s.take(i as int) + p + s.skip((i + p.len()) as int)) by {
                assert(s =~= s.take(i as int) + s.subrange(i as int, (i + p.len()) as int) + s.skip(
                    (i + p.len()) as int,
                ));
            }
        },
        None => {
            assert forall|j: int| !#[trigger] stands_at(s, p, j) by {
                if 0 <= j && j + p.len() <= s.len() {
                    lemma_skip_starts(s, p, j);
                    assert(!chars::starts_with(s.skip(j), p));
                }
            }
        },
    }
}

/// What stands in a part of a text stands in the text.
pub proof fn law_occurrence_carries_over(a: Seq<char>, s: Seq<char>, b: Seq<char>, p: Seq<char>)
    requires
        occurs(s, p),
    ensures
        occurs(a + s + b, p),
        chars::contains(a + s + b, p),
{
    let i = choose|i: int| stands_at(s, p, i);
    let all = a + s + b;
    assert(all.subrange(a.len() + i, a.len() + i + p.len()) =~= s.subrange(i, i + p.len()));
    assert(stands_at(all, p, a.len() + i));
    law_find_is_first_occurrence(all, p);
}

/// Lower case keeps every character but the capitals `A` to `Z`, which become
/// `a` to `z`.
pub proof fn law_lower_changes_capitals_only(s: Seq<char>, i: int)
    requires
        0 <= i < s.len(),
    ensures
        chars::lower(s).len() == s.len(),
        !('A' <= s[i] <= 'Z') ==> chars::lower(s)[i] == s[i],
        'A' <= s[i] <= 'Z' ==> chars::lower(s)[i] as int == s[i] as int + 32,
        chars::lower(chars::lower(s)) == chars::lower(s),
{
    assert(chars::lower(chars::lower(s)) =~= chars::lower(s));
}

/// Lower case of texts one after the other.
pub proof fn law_lower_of_parts(a: Seq<char>, b: Seq<char>)
    ensures
        chars::lower(a + b) == chars::lower(a) + chars::lower(b),
{
    assert(chars::lower(a + b) =~= chars::lower(a) + chars::lower(b));
}

/// Every character is white space.
pub open spec fn blank(s: Seq<char>) -> bool {
    forall|i: int| 0 <= i < s.len() ==> chars::is_white(#[trigger] s[i])
}

/// Trimming takes white space off both ends and nothing else.
pub proof fn law_trim_takes_white_space_off(s: Seq<char>) -> (r: (Seq<char>, Seq<char>))
    ensures
        s == r.0 + chars::trim(s) + r.1,
        blank(r.0),
        blank(r.1),
        chars::trim(s).len() > 0 ==> !chars::is_white(chars::trim(s)[0]) && !chars::is_white(
            chars::trim(s).last(),
        ),
        blank(s) == (chars::trim(s).len() == 0),
{
    let white = CharSet::White;
    let t = chars::trim_start(s);
    let u = chars::trim(s);
    chars::lemma_drop_leading(s, white);
    chars::lemma_drop_trailing(t, white);
    lemma_trailing_all(t, white);
    let a = s.take(s.len() - t.len());
    let b = t.skip(u.len() as int);
    assert(s =~= a + u + b) by {
        assert(s =~= a + t);
        assert(t =~= u + b);
    }
    assert forall|i: int| 0 <= i < a.len() implies chars::is_white(#[trigger] a[i]) by {
        assert(white.has(s[i]));
    }
    assert forall|i: int| 0 <= i < b.len() implies chars::is_white(#[trigger] b[i]) by {
        assert(white.has(t[u.len() + i]));
    }
    if u.len() > 0 {
        assert(u[0] == t[0]);
        assert(!white.has(t[0]));
        let k = a.len() as int;
        assert(s[k] == u[0]);
        assert(!blank(s));
    } else {
        assert forall|i: int| 0 <= i < s.len() implies chars::is_white(#[trigger] s[i]) by {
            if i < a.len() {
                assert(a[i] == s[i]);
            } else {
                assert(b[i - a.len()] == s[i]);
            }
        }
    }
    (a, b)
}

proof fn lemma_trailing_all(s: Seq<char>, set: CharSet)
    ensures
        forall|j: int|
            chars::drop_trailing(s, set).len() <= j < s.len() ==> set.has(#[trigger] s[j]),
    decreases s.len(),
{
    if s.len() > 0 && set.has(s.last()) {
        lemma_trailing_all(s.drop_last(), set);
        assert forall|j: int|
            chars::drop_trailing(s, set).len() <= j < s.len() implies set.has(
            #[trigger] s[j],
        ) by {
            if j < s.len() - 1 {
                assert(s.drop_last()[j] == s[j]);
            }
        }
    }
}

/// What is joined behind a first part.
pub proof fn lemma_join_front(x: Seq<char>, parts: Seq<Seq<char>>, sep: Seq<char>)
    requires
        parts.len() > 0,
    ensures
        chars::join(seq![x] + parts, sep) == x + sep + chars::join(parts, sep),
    decreases parts.len(),
{
    let all = seq![x] + parts;
    if parts.len() == 1 {
        assert(all.drop_last() =~= seq![x]);
        assert(chars::join(seq![x], sep) == x);
        assert(chars::join(parts, sep) == parts[0]);
        assert(all.last() == parts[0]);
    } else {
        lemma_join_front(x, parts.drop_last(), sep);
        assert(all.drop_last() =~= seq![x] + parts.drop_last());
        assert(all.last() == parts.last());
        assert(x + sep + chars::join(parts.drop_last(), sep) + sep + parts.last() =~= x + sep + (
        chars::join(parts.drop_last(), sep) + sep + parts.last()));
    }
}

/// The parts between the occurrences of a text give the whole back when they
/// are joined by it, and it stands in none of them.
pub proof fn law_split_joins_back(s: Seq<char>, p: Seq<char>)
    requires
        p.len() > 0,
    ensures
        chars::split(s, p).len() > 0,
        chars::join(chars::split(s, p), p) == s,
        forall|i: int| 0 <= i < chars::split(s, p).len() ==> !occurs(
            #[trigger] chars::split(s, p)[i],
            p,
        ),
    decreases s.len(),
{
    law_find_is_first_occurrence(s, p);
    chars::lemma_find(s, p);
    match chars::find(s, p) {
        Some(i) => {
            let a = s.take(i as int);
            let rest = s.skip((i + p.len()) as int);
            law_split_joins_back(rest, p);
            lemma_join_front(a, chars::split(rest, p), p);
            assert(s =~= a + p + rest) by {
                assert(s =~= a + s.subrange(i as int, (i + p.len()) as int) + rest);
            }
            assert(!occurs(a, p)) by {
                if occurs(a, p) {
                    let j = choose|j: int| stands_at(a, p, j);
                    assert(s.subrange(j, j + p.len()) =~= a.subrange(j, j + p.len()));
                    assert(stands_at(s, p, j));
                }
            }
            let all = chars::split(s, p);
            assert forall|k: int| 0 <= k < all.len() implies !occurs(#[trigger] all[k], p) by {
                if k > 0 {
                    assert(all[k] == chars::split(rest, p)[k - 1]);
                }
            }
        },
        None => {},
    }
}

/// Joined parts stand in the whole, each one.
pub proof fn law_joined_parts_stand_in_whole(parts: Seq<Seq<char>>, sep: Seq<char>, i: int)
    requires
        0 <= i < parts.len(),
    ensures
        occurs(chars::join(parts, sep), parts[i]),
        chars::contains(chars::join(parts, sep), parts[i]),
    decreases parts.len(),
{
    let all = chars::join(parts, sep);
    if parts.len() == 1 {
        assert(all.subrange(0, all.len() as int) =~= all);
        assert(stands_at(all, parts[i], 0));
        law_find_is_first_occurrence(all, parts[i]);
    } else {
        let before = chars::join(parts.drop_last(), sep);
        if i < parts.len() - 1 {
            law_joined_parts_stand_in_whole(parts.drop_last(), sep, i);
            law_occurrence_carries_over(seq![], before, sep + parts.last(), parts[i]);
            assert(Seq::<char>::empty() + before + (sep + parts.last()) =~= all);
        } else {
            let x = parts.last();
            assert(x.subrange(0, x.len() as int) =~= x);
            assert(stands_at(x, x, 0));
            law_occurrence_carries_over(before + sep, x, seq![], x);
            assert(before + sep + x + Seq::<char>::empty() =~= all);
        }
    }
}

/// The parts between the characters of a set hold none of them, and hold all the
/// others in order.
pub proof fn law_pieces_keep_the_rest(s: Seq<char>, set: CharSet)
    ensures
        chars::concat(chars::pieces(s, set)) == s.filter(|c: char| !set.has(c)),
        forall|i: int, j: int|
            0 <= i < chars::pieces(s, set).len() && 0 <= j < chars::pieces(s, set)[i].len()
                ==> !set.has(#[trigger] chars::pieces(s, set)[i][j]),
    decreases s.len(),
{
    let keep = |c: char| !set.has(c);
    let all = chars::pieces(s, set);
    chars::lemma_until(s, set);
    let u = chars::until(s, set) as int;
    if u >= s.len() {
        assert(all =~= Seq::<Seq<char>>::empty().push(s));
        assert(all.drop_last() =~= Seq::<Seq<char>>::empty());
        assert(chars::concat(all.drop_last()).len() == 0);
        assert(chars::concat(all) =~= s);
        lemma_filter_all(s, keep);
    } else {
        let a = s.take(u);
        let rest = s.skip(u + 1);
        let more = chars::pieces(rest, set);
        law_pieces_keep_the_rest(rest, set);
        lemma_concat_front(a, more);
        lemma_filter_all(a, keep);
        assert(s =~= a + seq![s[u]] + rest);
        lemma_filter_concat(a + seq![s[u]], rest, keep);
        lemma_filter_concat(a, seq![s[u]], keep);
        lemma_filter_none(seq![s[u]], keep);
        assert(a.filter(keep) + Seq::<char>::empty() =~= a);
        assert forall|i: int, j: int| 0 <= i < all.len() && 0 <= j < all[i].len() implies !set.has(
            #[trigger] all[i][j],
        ) by {
            if i == 0 {
                assert(!set.has(s[j]));
            } else {
                assert(all[i] == more[i - 1]);
                assert(!set.has(more[i - 1][j]));
            }
        }
    }
}

proof fn lemma_concat_front(x: Seq<char>, parts: Seq<Seq<char>>)
    ensures
        chars::concat(seq![x] + parts) == x + chars::concat(parts),
    decreases parts.len(),
{
    let all = seq![x] + parts;
    if parts.len() == 0 {
        assert(all.drop_last() =~= Seq::<Seq<char>>::empty());
        assert(chars::concat(all.drop_last()).len() == 0);
        assert(chars::concat(all) =~= x + chars::concat(parts));
    } else {
        lemma_concat_front(x, parts.drop_last());
        assert(all.drop_last() =~= seq![x] + parts.drop_last());
        assert(x + chars::concat(parts.drop_last()) + parts.last() =~= x + (chars::concat(
            parts.drop_last(),
        ) + parts.last()));
    }
}

/// Filtering keeps everything of a list whose members all fit.
pub proof fn lemma_filter_all<T>(s: Seq<T>, kind: spec_fn(T) -> bool)
    requires
        forall|i: int| 0 <= i < s.len() ==> kind(#[trigger] s[i]),
    ensures
        s.filter(kind) == s,
    decreases s.len(),
{
    reveal(Seq::filter);
    if s.len() > 0 {
        lemma_filter_all(s.drop_last(), kind);
        assert(s =~= s.drop_last().push(s.last()));
    } else {
        assert(s.filter(kind) =~= s);
    }
}

/// Filtering keeps nothing of a list none of whose members fits.
pub proof fn lemma_filter_none<T>(s: Seq<T>, kind: spec_fn(T) -> bool)
    requires
        forall|i: int| 0 <= i < s.len() ==> !kind(#[trigger] s[i]),
    ensures
        s.filter(kind).len() == 0,
    decreases s.len(),
{
    reveal(Seq::filter);
    if s.len() > 0 {
        lemma_filter_none(s.drop_last(), kind);
    }
}

/// Filtering of lists one after the other.
pub proof fn lemma_filter_concat<T>(a: Seq<T>, b: Seq<T>, kind: spec_fn(T) -> bool)
    ensures
        (a + b).filter(kind) == a.filter(kind) + b.filter(kind),
    decreases b.len(),
{
    reveal(Seq::filter);
    if b.len() == 0 {
        assert(a + b =~= a);
        assert(a.filter(kind) + b.filter(kind) =~= a.filter(kind));
    } else {
        lemma_filter_concat(a, b.drop_last(), kind);
        assert((a + b).drop_last() =~= a + b.drop_last());
        assert((a + b).last() == b.last());
        assert(a.filter(kind) + b.filter(kind) =~= (a + b).filter(kind));
    }
}

/// What filtering keeps is what is in the list and fits.
pub proof fn lemma_filter_has<T>(s: Seq<T>, kind: spec_fn(T) -> bool, x: T)
    ensures
        s.filter(kind).contains(x) == (s.contains(x) && kind(x)),
    decreases s.len(),
{
    reveal(Seq::filter);
    if s.len() > 0 {
        let init = s.drop_last();
        lemma_filter_has(init, kind, x);
        let r = s.filter(kind);
        let before = init.filter(kind);
        if s.contains(x) {
            let i = choose|i: int| 0 <= i < s.len() && s[i] == x;
            if i < init.len() {
                assert(init[i] == x);
            }
        }
        if init.contains(x) {
            let i = choose|i: int| 0 <= i < init.len() && init[i] == x;
            assert(s[i] == x);
        }
        if kind(s.last()) {
            assert(r == before.push(s.last()));
            assert(r[before.len() as int] == s.last());
            if before.contains(x) {
                let i = choose|i: int| 0 <= i < before.len() && before[i] == x;
                assert(r[i] == x);
            }
            if r.contains(x) {
                let i = choose|i: int| 0 <= i < r.len() && r[i] == x;
                if i < before.len() {
                    assert(before[i] == x);
                } else {
                    assert(s[s.len() - 1] == x);
                }
            }
        } else if s.contains(x) && kind(x) {
            assert(init.contains(x));
        }
    }
}

proof fn lemma_concat_filter(parts: Seq<Seq<char>>)
    ensures
        chars::concat(parts.filter(chars::at_least(1))) == chars::concat(parts),
    decreases parts.len(),
{
    reveal(Seq::filter);
    if parts.len() > 0 {
        lemma_concat_filter(parts.drop_last());
        let kept = parts.drop_last().filter(chars::at_least(1));
        if parts.last().len() >= 1 {
            assert(kept.push(parts.last()).drop_last() =~= kept);
        } else {
            assert(chars::concat(parts.drop_last()) + parts.last() =~= chars::concat(
                parts.drop_last(),
            ));
        }
    }
}

/// The words of a text are its characters but the white space, in order, and no
/// word is empty.
pub proof fn law_words_keep_all_but_white_space(s: Seq<char>)
    ensures
        chars::concat(chars::words(s)) == s.filter(|c: char| !chars::is_white(c)),
        forall|i: int|
            0 <= i < chars::words(s).len() ==> (#[trigger] chars::words(s)[i]).len() > 0
                && forall|j: int|
                0 <= j < chars::words(s)[i].len() ==> !chars::is_white(
                    #[trigger] chars::words(s)[i][j],
                ),
{
    let set = CharSet::White;
    law_pieces_keep_the_rest(s, set);
    lemma_concat_filter(chars::pieces(s, set));
    lemma_same_filter(s, |c: char| !set.has(c), |c: char| !chars::is_white(c));
    let all = chars::words(s);
    assert forall|i: int| 0 <= i < all.len() implies (#[trigger] all[i]).len() > 0 && forall|j: int|
        0 <= j < all[i].len() ==> !chars::is_white(#[trigger] all[i][j]) by {
        lemma_filter_has(chars::pieces(s, set), chars::at_least(1), all[i]);
        assert(all.contains(all[i]));
        let k = choose|k: int|
            0 <= k < chars::pieces(s, set).len() && chars::pieces(s, set)[k] == all[i];
        assert forall|j: int| 0 <= j < all[i].len() implies !chars::is_white(
            #[trigger] all[i][j],
        ) by {
            assert(!set.has(chars::pieces(s, set)[k][j]));
        }
    }
}

proof fn lemma_same_filter<T>(s: Seq<T>, a: spec_fn(T) -> bool, b: spec_fn(T) -> bool)
    requires
        forall|x: T| #![trigger a(x)] a(x) == b(x),
    ensures
        s.filter(a) == s.filter(b),
    decreases s.len(),
{
    reveal(Seq::filter);
    if s.len() > 0 {
        lemma_same_filter(s.drop_last(), a, b);
        assert(a(s.last()) == b(s.last()));
    }
}

/// The lines of a text without carriage returns give it back when they are
/// joined by line breaks, up to a line break at its end, and no line holds one.
pub proof fn law_lines_join_back(s: Seq<char>)
    requires
        forall|i: int| 0 <= i < s.len() ==> #[trigger] s[i] != '\r',
    ensures
        s.len() > 0 && s.last() == '\n' ==> chars::join(chars::lines(s), seq!['\n']) + seq!['\n']
            == s,
        s.len() == 0 || s.last() != '\n' ==> chars::join(chars::lines(s), seq!['\n']) == s,
        (s.len() == 0) == (chars::lines(s).len() == 0),
        forall|i: int, j: int|
            0 <= i < chars::lines(s).len() && 0 <= j < chars::lines(s)[i].len()
                ==> #[trigger] chars::lines(s)[i][j] != '\n',
    decreases s.len(),
{
    let set = CharSet::Only('\n');
    chars::lemma_until(s, set);
    let u = chars::until(s, set) as int;
    let all = chars::lines(s);
    let br = seq!['\n'];
    if s.len() == 0 {
        assert(chars::join(all, br) =~= s);
    } else if u >= s.len() {
        assert(all =~= seq![s]);
        assert forall|i: int, j: int| 0 <= i < all.len() && 0 <= j < all[i].len() implies
        #[trigger] all[i][j] != '\n' by {
            assert(!set.has(s[j]));
        }
        assert(s.last() != '\n') by {
            assert(!set.has(s[s.len() - 1]));
        }
    } else {
        let a = s.take(u);
        let rest = s.skip(u + 1);
        assert forall|i: int| 0 <= i < rest.len() implies #[trigger] rest[i] != '\r' by {
            assert(s[u + 1 + i] != '\r');
        }
        if a.len() > 0 {
            assert(s[u - 1] != '\r');
        }
        law_lines_join_back(rest);
        assert(s =~= a + br + rest);
        assert forall|i: int, j: int| 0 <= i < all.len() && 0 <= j < all[i].len() implies
        #[trigger] all[i][j] != '\n' by {
            if i == 0 {
                assert(!set.has(s[j]));
            } else {
                assert(all[i] == chars::lines(rest)[i - 1]);
                assert(chars::lines(rest)[i - 1][j] != '\n');
            }
        }
        if rest.len() == 0 {
            assert(all =~= seq![a]);
            assert(s =~= a + br);
        } else {
            lemma_join_front(a, chars::lines(rest), br);
            assert(s.last() == rest.last());
            if rest.last() == '\n' {
                assert(a + br + chars::join(chars::lines(rest), br) + br =~= s);
            }
        }
    }
}

/// A text that has to be cut keeps as many characters as fit: one more would take
/// more bytes than allowed.
pub proof fn law_cut_is_no_shorter_than_needed(s: Seq<char>, limit: nat)
    ensures
        chars::prefix_within(s, limit).len() <= s.len(),
        chars::prefix_within(s, limit) == s.take(chars::prefix_within(s, limit).len() as int),
        chars::byte_len(chars::prefix_within(s, limit)) <= limit,
        chars::prefix_within(s, limit).len() < s.len() ==> chars::byte_len(
            s.take((chars::prefix_within(s, limit).len() + 1) as int),
        ) > limit,
    decreases s.len(),
{
    chars::lemma_prefix_within(s, limit);
    let p = chars::prefix_within(s, limit);
    if s.len() > 0 {
        if chars::width(s[0]) > limit {
            assert(s.take(1) =~= Seq::<char>::empty().push(s[0]));
            chars::lemma_byte_len_push(Seq::empty(), s[0]);
        } else {
            let left = (limit - chars::width(s[0])) as nat;
            let q = chars::prefix_within(s.skip(1), left);
            law_cut_is_no_shorter_than_needed(s.skip(1), left);
            if p.len() < s.len() {
                let more = s.skip(1).take((q.len() + 1) as int);
                assert(s.take((p.len() + 1) as int) =~= seq![s[0]] + more);
                chars::lemma_byte_len_concat(seq![s[0]], more);
                assert(seq![s[0]] =~= Seq::<char>::empty().push(s[0]));
                chars::lemma_byte_len_push(Seq::empty(), s[0]);
            }
        }
    }
}

/// A text within the limit is left alone; one over it is cut and marked.
pub proof fn law_capped_marks_what_is_cut(s: Seq<char>, limit: nat, mark: Seq<char>)
    ensures
        chars::byte_len(s) <= limit ==> chars::capped(s, limit, mark) == s,
        chars::byte_len(s) > limit ==> exists|n: int|
            {
                &&& 0 <= n < s.len()
                &&& chars::capped(s, limit, mark) == #[trigger] s.take(n) + mark
                &&& chars::byte_len(s.take(n)) <= limit
                &&& chars::byte_len(s.take(n + 1)) > limit
            },
{
    law_cut_is_no_shorter_than_needed(s, limit);
    chars::lemma_prefix_within(s, limit);
    let n = chars::prefix_within(s, limit).len() as int;
    if chars::byte_len(s) > limit {
        if n == s.len() {
            assert(s.take(n) =~= s);
        }
        assert(chars::capped(s, limit, mark) == s.take(n) + mark);
    }
}

/// A character that is replaced is gone unless its replacement brings it back,
/// and a text without it stays as it is.
pub proof fn law_replaced_character_is_gone(s: Seq<char>, from: char, to: Seq<char>)
    ensures
        !s.contains(from) ==> chars::replace_char(s, from, to) == s,
        !to.contains(from) ==> !chars::replace_char(s, from, to).contains(from),
        to.len() == 1 ==> chars::replace_char(s, from, to).len() == s.len() && forall|i: int|
            0 <= i < s.len() ==> #[trigger] chars::replace_char(s, from, to)[i] == (if s[i] == from {
                to[0]
            } else {
                s[i]
            }),
    decreases s.len(),
{
    if s.len() > 0 {
        let init = s.drop_last();
        let r = chars::replace_char(s, from, to);
        law_replaced_character_is_gone(init, from, to);
        if !s.contains(from) {
            assert(!init.contains(from)) by {
                if init.contains(from) {
                    let i = choose|i: int| 0 <= i < init.len() && init[i] == from;
                    assert(s[i] == from);
                }
            }
            assert(s[s.len() - 1] != from);
            assert(r =~= s);
        }
        let before = chars::replace_char(init, from, to);
        if !to.contains(from) && r.contains(from) {
            let i = choose|i: int| 0 <= i < r.len() && r[i] == from;
            if i < before.len() {
                assert(before[i] == from);
            } else if s.last() == from {
                assert(to[i - before.len()] == from);
            }
        }
    } else {
        assert(!chars::replace_char(s, from, to).contains(from));
    }
}

/// The text before which a dictionary puts another: the first place where the two
/// differ decides.
pub proof fn law_order_is_decided_at_first_difference(
    s: Seq<char>,
    t: Seq<char>,
    n: int,
)
    requires
        0 <= n <= s.len(),
        n <= t.len(),
        s.take(n) == t.take(n),
    ensures
        n < s.len() && n < t.len() && s[n] < t[n] ==> chars::precedes(s, t),
        n < s.len() && n < t.len() && s[n] > t[n] ==> !chars::precedes(s, t),
        n == s.len() && n < t.len() ==> chars::precedes(s, t),
        n == t.len() ==> !chars::precedes(s, t),
    decreases n,
{
    if n > 0 {
        assert(s[0] == s.take(n)[0] && t[0] == t.take(n)[0]);
        assert(s.skip(1).take(n - 1) =~= s.take(n).skip(1));
        assert(t.skip(1).take(n - 1) =~= t.take(n).skip(1));
        law_order_is_decided_at_first_difference(s.skip(1), t.skip(1), n - 1);
    }
}

/// A text stands in every text that it is a part of.
pub proof fn lemma_part(a: Seq<char>, s: Seq<char>, b: Seq<char>)
    ensures
        occurs(a + s + b, s),
{
    assert(s.subrange(0, s.len() as int) =~= s);
    assert(stands_at(s, s, 0));
    law_occurrence_carries_over(a, s, b, s);
}

/// The parts of two texts with a character of the set between them.
pub proof fn lemma_pieces_break(a: Seq<char>, c: char, b: Seq<char>, set: CharSet)
    requires
        set.has(c),
    ensures
        chars::pieces(a + seq![c] + b, set) == chars::pieces(a, set) + chars::pieces(b, set),
    decreases a.len(),
{
    let s = a + seq![c] + b;
    chars::lemma_until(a, set);
    let u = chars::until(a, set) as int;
    assert forall|j: int| 0 <= j < u implies !set.has(#[trigger] s[j]) by {
        assert(s[j] == a[j]);
    }
    if u >= a.len() {
        assert(s[u] == c);
        chars::lemma_until_is(s, set, u);
        assert(s.take(u) =~= a);
        assert(s.skip(u + 1) =~= b);
    } else {
        assert(s[u] == a[u]);
        chars::lemma_until_is(s, set, u);
        let rest = a.skip(u + 1);
        lemma_pieces_break(rest, c, b, set);
        assert(s.take(u) =~= a.take(u));
        assert(s.skip(u + 1) =~= rest + seq![c] + b);
        assert(seq![a.take(u)] + (chars::pieces(rest, set) + chars::pieces(b, set)) =~= (seq![
            a.take(u),
        ] + chars::pieces(rest, set)) + chars::pieces(b, set));
    }
}

/// What stands in a part that stands in a whole stands in the whole.
pub proof fn lemma_within(s: Seq<char>, line: Seq<char>, p: Seq<char>)
    requires
        occurs(s, line),
        occurs(line, p),
    ensures
        occurs(s, p),
{
    let i = choose|i: int| stands_at(s, line, i);
    let j = choose|j: int| stands_at(line, p, j);
    assert(s.subrange(i + j, i + j + p.len()) =~= s.subrange(i, i + line.len()).subrange(
        j,
        j + p.len(),
    ));
    assert(stands_at(s, p, i + j));
}

/// Every part stands in the parts put together.
pub proof fn lemma_concat_part(parts: Seq<Seq<char>>, i: int)
    requires
        0 <= i < parts.len(),
    ensures
        occurs(chars::concat(parts), parts[i]),
    decreases parts.len(),
{
    let before = chars::concat(parts.drop_last());
    if i < parts.len() - 1 {
        lemma_concat_part(parts.drop_last(), i);
        law_occurrence_carries_over(seq![], before, parts.last(), parts[i]);
        assert(Seq::<char>::empty() + before + parts.last() =~= before + parts.last());
    } else {
        lemma_part(before, parts.last(), seq![]);
        assert(before + parts.last() + Seq::<char>::empty() =~= before + parts.last());
    }
}

/// The last place of a character.
pub proof fn lemma_last_index(s: Seq<char>, c: char)
    ensures
        chars::last_index(s, c) is Some == s.contains(c),
        chars::last_index(s, c) matches Some(i) ==> i < s.len() && s[i as int] == c && forall|
            j: int,
        |
            i < j < s.len() ==> #[trigger] s[j] != c,
    decreases s.len(),
{
    if s.len() > 0 {
        let init = s.drop_last();
        lemma_last_index(init, c);
        if s.last() == c {
            assert(s[s.len() - 1] == c);
        } else {
            if init.contains(c) {
                let i = init.index_of(c);
                assert(s[i] == c);
            }
            if s.contains(c) {
                let i = s.index_of(c);
                assert(init[i] == c);
            }
            if let Some(i) = chars::last_index(init, c) {
                assert(s[i as int] == init[i as int]);
                assert forall|j: int| i < j < s.len() implies #[trigger] s[j] != c by {
                    if j < init.len() {
                        assert(init[j] == s[j]);
                    }
                }
            }
        }
    }
}

/// A text is parted at another one that starts with a character that does not
/// stand before it.
pub proof fn lemma_around_first(a: Seq<char>, p: Seq<char>, b: Seq<char>)
    requires
        p.len() > 0,
        !a.contains(p[0]),
    ensures
        chars::find(a + p + b, p) == Some(a.len()),
        chars::around(a + p + b, p) == Some((a, b)),
{
    let s = a + p + b;
    law_find_is_first_occurrence(s, p);
    assert(s.subrange(a.len() as int, (a.len() + p.len()) as int) =~= p);
    assert(stands_at(s, p, a.len() as int));
    let i = chars::find(s, p)->0 as int;
    if i < a.len() {
        assert(s.subrange(i, i + p.len())[0] == p[0]);
        assert(a[i] == s[i]);
        assert(a.contains(p[0]));
    }
    assert(i == a.len());
    assert(s.take(i) =~= a);
    assert(s.skip(i + p.len()) =~= b);
}

/// Replacing a text puts the other one where it stood, each time: the parts
/// between are kept in order. A text that does not hold it stays as it is.
pub proof fn law_replace_keeps_the_parts(s: Seq<char>, p: Seq<char>, w: Seq<char>)
    requires
        p.len() > 0,
    ensures
        chars::replace(s, p, w) == chars::join(chars::split(s, p), w),
        !occurs(s, p) ==> chars::replace(s, p, w) == s,
        occurs(s, p) ==> occurs(chars::replace(s, p, w), w),
    decreases s.len(),
{
    law_find_is_first_occurrence(s, p);
    match chars::find(s, p) {
        Some(i) => {
            let a = s.take(i as int);
            let rest = s.skip((i + p.len()) as int);
            law_replace_keeps_the_parts(rest, p, w);
            law_split_joins_back(rest, p);
            lemma_join_front(a, chars::split(rest, p), w);
            lemma_part(a, w, chars::replace(rest, p, w));
        },
        None => {},
    }
}

/// Taking the characters of a set off both ends takes nothing else.
pub proof fn law_trim_takes_the_set_off(s: Seq<char>, set: CharSet) -> (r: (Seq<char>, Seq<char>))
    ensures
        s == r.0 + chars::trim_set(s, set) + r.1,
        forall|i: int| 0 <= i < r.0.len() ==> set.has(#[trigger] r.0[i]),
        forall|i: int| 0 <= i < r.1.len() ==> set.has(#[trigger] r.1[i]),
        chars::trim_set(s, set).len() > 0 ==> !set.has(chars::trim_set(s, set)[0]) && !set.has(
            chars::trim_set(s, set).last(),
        ),
{
    let t = chars::drop_leading(s, set);
    let u = chars::trim_set(s, set);
    chars::lemma_drop_leading(s, set);
    chars::lemma_drop_trailing(t, set);
    lemma_trailing_all(t, set);
    let a = s.take(s.len() - t.len());
    let b = t.skip(u.len() as int);
    assert(s =~= a + u + b) by {
        assert(s =~= a + t);
        assert(t =~= u + b);
    }
    assert forall|i: int| 0 <= i < a.len() implies set.has(#[trigger] a[i]) by {
        assert(set.has(s[i]));
    }
    assert forall|i: int| 0 <= i < b.len() implies set.has(#[trigger] b[i]) by {
        assert(set.has(t[u.len() + i]));
    }
    if u.len() > 0 {
        assert(u[0] == t[0]);
        assert(!set.has(t[0]));
    }
    (a, b)
}

}
