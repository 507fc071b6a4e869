//! Mathematical model of text: a text is a sequence of characters, and every
//! string operation of the library is defined here on `Seq<char>`.
use vstd::prelude::*;
use vstd::utf8::*;

verus! {

/// The sets of characters that the library splits, trims and searches by.
#[derive(Clone, Copy)]
pub enum CharSet {
    /// Unicode white space.
    White,
    /// White space and the Markdown quote mark `>`.
    QuoteOrWhite,
    /// ASCII punctuation.
    Punctuation,
    /// ASCII letters and digits.
    Alphanumeric,
    /// Everything but ASCII letters and digits.
    NotAlphanumeric,
    /// ASCII decimal digits.
    Digit,
    /// Everything but ASCII decimal digits.
    NotDigit,
    /// ASCII letters and digits, `-` and `_`.
    NameChar,
    /// ASCII letters and `_`, with which an identifier starts.
    IdentStart,
    /// Everything but ASCII letters and digits and `_`.
    NotIdent,
    /// One character.
    Only(char),
}

/// Unicode's `White_Space` property.
pub open spec fn is_white(c: char) -> bool {
    ||| '\u{9}' <= c <= '\u{d}'
    ||| c == ' '
    ||| c == '\u{85}'
    ||| c == '\u{a0}'
    ||| c == '\u{1680}'
    ||| '\u{2000}' <= c <= '\u{200a}'
    ||| c == '\u{2028}'
    ||| c == '\u{2029}'
    ||| c == '\u{202f}'
    ||| c == '\u{205f}'
    ||| c == '\u{3000}'
}

/// Unicode's general category `Cc`.
pub open spec fn is_control(c: char) -> bool {
    c <= '\u{1f}' || '\u{7f}' <= c <= '\u{9f}'
}

pub open spec fn is_digit(c: char) -> bool {
    '0' <= c <= '9'
}

pub open spec fn is_letter(c: char) -> bool {
    'a' <= c <= 'z' || 'A' <= c <= 'Z'
}

pub open spec fn is_alphanumeric(c: char) -> bool {
    is_digit(c) || is_letter(c)
}

pub open spec fn is_punctuation(c: char) -> bool {
    '!' <= c <= '/' || ':' <= c <= '@' || '[' <= c <= '`' || '{' <= c <= '~'
}

impl CharSet {
    /// Membership of a character in the set.
    pub open spec fn has(self, c: char) -> bool {
        match self {
            CharSet::White => is_white(c),
            CharSet::QuoteOrWhite => c == '>' || is_white(c),
            CharSet::Punctuation => is_punctuation(c),
            CharSet::Alphanumeric => is_alphanumeric(c),
            CharSet::NotAlphanumeric => !is_alphanumeric(c),
            CharSet::Digit => is_digit(c),
            CharSet::NotDigit => !is_digit(c),
            CharSet::NameChar => is_alphanumeric(c) || c == '-' || c == '_',
            CharSet::IdentStart => is_letter(c) || c == '_',
            CharSet::NotIdent => !is_alphanumeric(c) && c != '_',
            CharSet::Only(x) => c == x,
        }
    }
}

/// Whether every character of `s` is in the set.
pub open spec fn all_in(s: Seq<char>, set: CharSet) -> bool {
    forall|i: int| 0 <= i < s.len() ==> set.has(#[trigger] s[i])
}

/// Position of the first character of `s` in the set; the length of `s` when
/// there is none.
pub open spec fn until(s: Seq<char>, set: CharSet) -> nat
    decreases s.len(),
{
    if s.len() == 0 || set.has(s[0]) {
        0
    } else {
        1 + until(s.skip(1), set)
    }
}

/// `s` without its leading characters in the set.
pub open spec fn drop_leading(s: Seq<char>, set: CharSet) -> Seq<char>
    decreases s.len(),
{
    if s.len() > 0 && set.has(s[0]) {
        drop_leading(s.skip(1), set)
    } else {
        s
    }
}

/// `s` without its trailing characters in the set.
pub open spec fn drop_trailing(s: Seq<char>, set: CharSet) -> Seq<char>
    decreases s.len(),
{
    if s.len() > 0 && set.has(s.last()) {
        drop_trailing(s.drop_last(), set)
    } else {
        s
    }
}

pub open spec fn trim_start(s: Seq<char>) -> Seq<char> {
    drop_leading(s, CharSet::White)
}

pub open spec fn trim_end(s: Seq<char>) -> Seq<char> {
    drop_trailing(s, CharSet::White)
}

pub open spec fn trim(s: Seq<char>) -> Seq<char> {
    trim_end(trim_start(s))
}

/// `s` without leading and trailing characters in the set.
pub open spec fn trim_set(s: Seq<char>, set: CharSet) -> Seq<char> {
    drop_trailing(drop_leading(s, set), set)
}

/// The parts of `s` between the characters in the set, empty parts included.
pub open spec fn pieces(s: Seq<char>, set: CharSet) -> Seq<Seq<char>>
    decreases s.len(),
{
    let i = until(s, set) as int;
    if i >= s.len() {
        seq![s]
    } else {
        seq![s.take(i)] + pieces(s.skip(i + 1), set)
    }
}

/// The texts that take at least `n` characters.
pub open spec fn at_least(n: nat) -> spec_fn(Seq<char>) -> bool {
    |t: Seq<char>| t.len() >= n
}

/// The maximal runs of `s` outside the set.
pub open spec fn runs(s: Seq<char>, set: CharSet) -> Seq<Seq<char>> {
    pieces(s, set).filter(at_least(1))
}

/// The words of `s`: its maximal runs without white space.
pub open spec fn words(s: Seq<char>) -> Seq<Seq<char>> {
    runs(s, CharSet::White)
}

/// A line without the carriage return of its line break.
pub open spec fn without_cr(s: Seq<char>) -> Seq<char> {
    if s.len() > 0 && s.last() == '\r' {
        s.drop_last()
    } else {
        s
    }
}

/// The lines of `s`, each without its line break (`\n` or `\r\n`); a final
/// line break starts no further line.
pub open spec fn lines(s: Seq<char>) -> Seq<Seq<char>>
    decreases s.len(),
{
    let i = until(s, CharSet::Only('\n')) as int;
    if s.len() == 0 {
        seq![]
    } else if i >= s.len() {
        seq![s]
    } else {
        seq![without_cr(s.take(i))] + lines(s.skip(i + 1))
    }
}

pub open spec fn starts_with(s: Seq<char>, p: Seq<char>) -> bool {
    p.len() <= s.len() && s.take(p.len() as int) == p
}

/// What follows the prefix `p` in `s`, when `s` starts with it.
pub open spec fn after_prefix(s: Seq<char>, p: Seq<char>) -> Option<Seq<char>> {
    if starts_with(s, p) {
        Some(s.skip(p.len() as int))
    } else {
        None
    }
}

/// Position of the first occurrence of `p` in `s`.
pub open spec fn find(s: Seq<char>, p: Seq<char>) -> Option<nat>
    decreases s.len(),
{
    if starts_with(s, p) {
        Some(0)
    } else if s.len() == 0 {
        None
    } else {
        match find(s.skip(1), p) {
            Some(i) => Some(i + 1),
            None => None,
        }
    }
}

/// Whether `p` occurs in `s`.
pub open spec fn contains(s: Seq<char>, p: Seq<char>) -> bool {
    find(s, p) is Some
}

/// What stands before and after the first occurrence of `p` in `s`.
pub open spec fn around(s: Seq<char>, p: Seq<char>) -> Option<(Seq<char>, Seq<char>)> {
    match find(s, p) {
        Some(i) => Some((s.take(i as int), s.skip((i + p.len()) as int))),
        None => None,
    }
}

/// The parts of `s` between the occurrences of the non-empty `p`, empty parts
/// included.
pub open spec fn split(s: Seq<char>, p: Seq<char>) -> Seq<Seq<char>>
    decreases s.len(),
{
    match find(s, p) {
        Some(i) => if p.len() > 0 && i + p.len() <= s.len() {
            seq![s.take(i as int)] + split(s.skip((i + p.len()) as int), p)
        } else {
            seq![s]
        },
        None => seq![s],
    }
}

/// `s` with every occurrence of the non-empty `p`, taken from the left without
/// overlap, replaced by `w`.
pub open spec fn replace(s: Seq<char>, p: Seq<char>, w: Seq<char>) -> Seq<char>
    decreases s.len(),
{
    if p.len() == 0 {
        s
    } else {
        match find(s, p) {
            None => s,
            Some(i) => if i + p.len() <= s.len() {
                s.take(i as int) + w + replace(s.skip((i + p.len()) as int), p, w)
            } else {
                s
            },
        }
    }
}

/// `s` with each character `from` replaced by the text `to`.
pub open spec fn replace_char(s: Seq<char>, from: char, to: Seq<char>) -> Seq<char>
    decreases s.len(),
{
    if s.len() == 0 {
        s
    } else {
        replace_char(s.drop_last(), from, to) + (if s.last() == from {
            to
        } else {
            seq![s.last()]
        })
    }
}

/// The parts one after the other, with `sep` between neighbours.
pub open spec fn join(parts: Seq<Seq<char>>, sep: Seq<char>) -> Seq<char>
    decreases parts.len(),
{
    if parts.len() == 0 {
        seq![]
    } else if parts.len() == 1 {
        parts[0]
    } else {
        join(parts.drop_last(), sep) + sep + parts.last()
    }
}

/// The parts one after the other.
pub open spec fn concat(parts: Seq<Seq<char>>) -> Seq<char>
    decreases parts.len(),
{
    if parts.len() == 0 {
        seq![]
    } else {
        concat(parts.drop_last()) + parts.last()
    }
}

pub open spec fn lower_char(c: char) -> char {
    if 'A' <= c <= 'Z' {
        (c as u8 + 32) as char
    } else {
        c
    }
}

/// `s` with its ASCII capitals in lower case.
pub open spec fn lower(s: Seq<char>) -> Seq<char> {
    s.map_values(|c: char| lower_char(c))
}

/// Length of `s` in UTF-8 bytes.
pub open spec fn byte_len(s: Seq<char>) -> nat {
    encode_utf8(s).len()
}

/// Width of one character in UTF-8 bytes.
pub open spec fn width(c: char) -> nat {
    if c <= '\u{7f}' {
        1
    } else if c <= '\u{7ff}' {
        2
    } else if c <= '\u{ffff}' {
        3
    } else {
        4
    }
}

/// The longest prefix of `s` that takes at most `limit` bytes.
pub open spec fn prefix_within(s: Seq<char>, limit: nat) -> Seq<char>
    decreases s.len(),
{
    if s.len() == 0 || width(s[0]) > limit {
        seq![]
    } else {
        seq![s[0]] + prefix_within(s.skip(1), (limit - width(s[0])) as nat)
    }
}

/// `s` itself when it takes at most `limit` bytes, else its longest prefix
/// within the limit followed by `mark`.
pub open spec fn capped(s: Seq<char>, limit: nat, mark: Seq<char>) -> Seq<char> {
    if byte_len(s) <= limit {
        s
    } else {
        prefix_within(s, limit) + mark
    }
}

/// Position of the last occurrence of `c` in `s`.
pub open spec fn last_index(s: Seq<char>, c: char) -> Option<nat>
    decreases s.len(),
{
    if s.len() == 0 {
        None
    } else if s.last() == c {
        Some((s.len() - 1) as nat)
    } else {
        last_index(s.drop_last(), c)
    }
}

/// How often `c` occurs in `s`.
pub open spec fn count(s: Seq<char>, c: char) -> nat
    decreases s.len(),
{
    if s.len() == 0 {
        0
    } else {
        count(s.drop_last(), c) + (if s.last() == c {
            1nat
        } else {
            0nat
        })
    }
}

/// The texts of a sequence of string slices.
pub open spec fn texts(v: Seq<&str>) -> Seq<Seq<char>> {
    v.map_values(|s: &str| s@)
}

/// The texts of a sequence of strings.
pub open spec fn owned_texts(v: Seq<String>) -> Seq<Seq<char>> {
    v.map_values(|s: String| s@)
}

/// The text of an optional string.
pub open spec fn opt_text(o: Option<String>) -> Option<Seq<char>> {
    match o {
        Some(s) => Some(s@),
        None => None,
    }
}

/// `t` put into a list in ascending order.
pub open spec fn insert_sorted(list: Seq<Seq<char>>, t: Seq<char>) -> Seq<Seq<char>>
    decreases list.len(),
{
    if list.len() == 0 || precedes(t, list[0]) {
        seq![t] + list
    } else {
        seq![list[0]] + insert_sorted(list.skip(1), t)
    }
}

/// The texts in ascending order.
pub open spec fn sorted(list: Seq<Seq<char>>) -> Seq<Seq<char>>
    decreases list.len(),
{
    if list.len() == 0 {
        seq![]
    } else {
        insert_sorted(sorted(list.drop_last()), list.last())
    }
}

/// The texts in ascending order, each of them once.
pub open spec fn ordered_set(list: Seq<Seq<char>>) -> Seq<Seq<char>>
    decreases list.len(),
{
    if list.len() == 0 {
        seq![]
    } else if ordered_set(list.drop_last()).contains(list.last()) {
        ordered_set(list.drop_last())
    } else {
        insert_sorted(ordered_set(list.drop_last()), list.last())
    }
}

/// `true` or `false`.
pub open spec fn bool_text(b: bool) -> Seq<char> {
    if b {
        "true"@
    } else {
        "false"@
    }
}

/// `s` comes before `t` in the order of code points, character by character.
pub open spec fn precedes(s: Seq<char>, t: Seq<char>) -> bool
    decreases s.len(),
{
    if t.len() == 0 {
        false
    } else if s.len() == 0 {
        true
    } else if s[0] == t[0] {
        precedes(s.skip(1), t.skip(1))
    } else {
        s[0] < t[0]
    }
}

// ---------------------------------------------------------------------------
// Facts about the definitions
// ---------------------------------------------------------------------------

pub proof fn lemma_until(s: Seq<char>, set: CharSet)
    ensures
        until(s, set) <= s.len(),
        until(s, set) < s.len() ==> set.has(s[until(s, set) as int]),
        forall|j: int| 0 <= j < until(s, set) ==> !set.has(#[trigger] s[j]),
    decreases s.len(),
{
    if s.len() == 0 || set.has(s[0]) {
    } else {
        lemma_until(s.skip(1), set);
        assert forall|j: int| 0 <= j < until(s, set) implies !set.has(#[trigger] s[j]) by {
            if j > 0 {
                assert(s[j] == s.skip(1)[j - 1]);
            }
        }
    }
}

pub proof fn lemma_until_is(s: Seq<char>, set: CharSet, k: int)
    requires
        0 <= k <= s.len(),
        forall|j: int| 0 <= j < k ==> !set.has(#[trigger] s[j]),
        k < s.len() ==> set.has(s[k]),
    ensures
        until(s, set) == k,
{
    lemma_until(s, set);
    let u = until(s, set) as int;
    if u < k {
        assert(!set.has(s[u]));
    } else if k < u {
        assert(!set.has(s[k]));
    }
}

pub proof fn lemma_drop_leading(s: Seq<char>, set: CharSet)
    ensures
        drop_leading(s, set).len() <= s.len(),
        drop_leading(s, set) == s.skip(s.len() - drop_leading(s, set).len()),
        forall|j: int| 0 <= j < s.len() - drop_leading(s, set).len() ==> set.has(#[trigger] s[j]),
        drop_leading(s, set).len() > 0 ==> !set.has(drop_leading(s, set)[0]),
    decreases s.len(),
{
    if s.len() > 0 && set.has(s[0]) {
        lemma_drop_leading(s.skip(1), set);
        let r = drop_leading(s, set);
        assert(r =~= s.skip(s.len() - r.len()));
        assert forall|j: int| 0 <= j < s.len() - r.len() implies set.has(#[trigger] s[j]) by {
            if j > 0 {
                assert(s[j] == s.skip(1)[j - 1]);
            }
        }
    } else {
        assert(s.skip(0) =~= s);
    }
}

pub proof fn lemma_drop_leading_is(s: Seq<char>, set: CharSet, k: int)
    requires
        0 <= k <= s.len(),
        forall|j: int| 0 <= j < k ==> set.has(#[trigger] s[j]),
        k < s.len() ==> !set.has(s[k]),
    ensures
        drop_leading(s, set) == s.skip(k),
{
    lemma_drop_leading(s, set);
    let u = s.len() - drop_leading(s, set).len();
    if u < k {
        assert(set.has(s[u]));
    } else if k < u {
        assert(set.has(s[k]));
    }
}

pub proof fn lemma_drop_trailing_is(s: Seq<char>, set: CharSet, k: int)
    requires
        0 <= k <= s.len(),
        forall|j: int| k <= j < s.len() ==> set.has(#[trigger] s[j]),
        k > 0 ==> !set.has(s[k - 1]),
    ensures
        drop_trailing(s, set) == s.take(k),
    decreases s.len(),
{
    if k < s.len() {
        assert(set.has(s[s.len() - 1]));
        assert forall|j: int| k <= j < s.drop_last().len() implies set.has(
            #[trigger] s.drop_last()[j],
        ) by {
            assert(s.drop_last()[j] == s[j]);
        }
        lemma_drop_trailing_is(s.drop_last(), set, k);
        assert(s.drop_last().take(k) =~= s.take(k));
    } else {
        assert(s.take(k) =~= s);
    }
}

pub proof fn lemma_drop_trailing(s: Seq<char>, set: CharSet)
    ensures
        drop_trailing(s, set).len() <= s.len(),
        drop_trailing(s, set) == s.take(drop_trailing(s, set).len() as int),
        drop_trailing(s, set).len() > 0 ==> !set.has(drop_trailing(s, set).last()),
    decreases s.len(),
{
    if s.len() > 0 && set.has(s.last()) {
        lemma_drop_trailing(s.drop_last(), set);
        let r = drop_trailing(s, set);
        assert(r =~= s.take(r.len() as int));
    } else {
        assert(s.take(s.len() as int) =~= s);
    }
}

pub proof fn lemma_find(s: Seq<char>, p: Seq<char>)
    ensures
        find(s, p) matches Some(i) ==> i + p.len() <= s.len() && starts_with(s.skip(i as int), p),
        find(s, p) matches Some(i) ==> forall|j: int|
            0 <= j < i ==> !#[trigger] starts_with(s.skip(j), p),
        find(s, p) is None ==> forall|j: int|
            0 <= j <= s.len() ==> !#[trigger] starts_with(s.skip(j), p),
    decreases s.len(),
{
    assert(s.skip(0) =~= s);
    if starts_with(s, p) || s.len() == 0 {
    } else {
        lemma_find(s.skip(1), p);
        assert forall|j: int| 1 <= j <= s.len() implies #[trigger] s.skip(j) == s.skip(1).skip(
            j - 1,
        ) by {
            assert(s.skip(j) =~= s.skip(1).skip(j - 1));
        }
        assert forall|j: int|
            1 <= j <= s.len() && !starts_with(s.skip(1).skip(j - 1), p) implies !(
        #[trigger] starts_with(s.skip(j), p)) by {
            assert(s.skip(j) == s.skip(1).skip(j - 1));
        }
    }
}

/// The prefix within a byte limit is a prefix, keeps to the limit, and cannot
/// be extended by the next character.
pub proof fn lemma_prefix_within(s: Seq<char>, limit: nat)
    ensures
        prefix_within(s, limit).len() <= s.len(),
        prefix_within(s, limit) == s.take(prefix_within(s, limit).len() as int),
        byte_len(prefix_within(s, limit)) <= limit,
        byte_len(s) <= limit ==> prefix_within(s, limit) == s,
    decreases s.len(),
{
    reveal_with_fuel(encode_utf8, 2);
    if s.len() == 0 {
        assert(s.take(0) =~= s);
        assert(prefix_within(s, limit) =~= s);
    } else {
        lemma_width(s[0]);
        assert(s.drop_first() =~= s.skip(1));
        if width(s[0]) > limit {
            assert(s.take(0) =~= prefix_within(s, limit));
        } else {
            let rest = (limit - width(s[0])) as nat;
            lemma_prefix_within(s.skip(1), rest);
            let p = prefix_within(s, limit);
            let q = prefix_within(s.skip(1), rest);
            assert(p =~= s.take(p.len() as int));
            assert(p.drop_first() =~= q);
            assert(byte_len(p) == width(s[0]) + byte_len(q));
            if byte_len(s) <= limit {
                assert(byte_len(s) == width(s[0]) + byte_len(s.skip(1)));
                assert(p =~= s);
            }
        }
    }
}

pub proof fn lemma_width(c: char)
    ensures
        encode_scalar(c as u32).len() == width(c),
        1 <= width(c) <= 4,
{
    char_is_scalar(c);
}

pub proof fn lemma_byte_len_push(s: Seq<char>, c: char)
    ensures
        byte_len(s.push(c)) == byte_len(s) + width(c),
    decreases s.len(),
{
    lemma_width(c);
    if s.len() == 0 {
        reveal_with_fuel(encode_utf8, 2);
        assert(s.push(c).drop_first() =~= s);
    } else {
        lemma_byte_len_push(s.drop_first(), c);
        assert(s.push(c).drop_first() =~= s.drop_first().push(c));
    }
}

pub proof fn lemma_byte_len_concat(s: Seq<char>, t: Seq<char>)
    ensures
        byte_len(s + t) == byte_len(s) + byte_len(t),
    decreases t.len(),
{
    if t.len() == 0 {
        assert(s + t =~= s);
    } else {
        lemma_byte_len_concat(s, t.drop_last());
        assert(s + t =~= (s + t.drop_last()).push(t.last()));
        assert(t =~= t.drop_last().push(t.last()));
        lemma_byte_len_push(s + t.drop_last(), t.last());
        lemma_byte_len_push(t.drop_last(), t.last());
    }
}

/// A text of lower-case ASCII letters is its own trimmed lower-case form.
pub proof fn lemma_plain_word(s: Seq<char>)
    requires
        s.len() > 0,
        forall|i: int| 0 <= i < s.len() ==> 'a' <= #[trigger] s[i] <= 'z',
    ensures
        lower(trim(s)) == s,
{
    assert(!is_white(s[0]));
    assert(!is_white(s.last()));
    assert(trim(s) =~= s);
    assert(lower(s) =~= s);
}

pub proof fn lemma_precedes_irreflexive(s: Seq<char>)
    ensures
        !precedes(s, s),
    decreases s.len(),
{
    if s.len() > 0 {
        lemma_precedes_irreflexive(s.skip(1));
    }
}

pub proof fn lemma_precedes_total(s: Seq<char>, t: Seq<char>)
    ensures
        precedes(s, t) || precedes(t, s) || s == t,
    decreases s.len(),
{
    if s.len() == 0 || t.len() == 0 {
        if s.len() == 0 && t.len() == 0 {
            assert(s =~= t);
        }
    } else if s[0] == t[0] {
        lemma_precedes_total(s.skip(1), t.skip(1));
        if s.skip(1) == t.skip(1) {
            assert(s =~= seq![s[0]] + s.skip(1));
            assert(t =~= seq![t[0]] + t.skip(1));
        }
    }
}

pub proof fn lemma_precedes_transitive(s: Seq<char>, t: Seq<char>, u: Seq<char>)
    requires
        precedes(s, t),
        precedes(t, u),
    ensures
        precedes(s, u),
    decreases s.len(),
{
    if s.len() > 0 && t.len() > 0 && u.len() > 0 && s[0] == t[0] && t[0] == u[0] {
        lemma_precedes_transitive(s.skip(1), t.skip(1), u.skip(1));
    }
}

pub proof fn lemma_precedes_asymmetric(s: Seq<char>, t: Seq<char>)
    requires
        precedes(s, t),
    ensures
        !precedes(t, s),
        s != t,
{
    lemma_precedes_irreflexive(s);
    if precedes(t, s) {
        lemma_precedes_transitive(s, t, s);
    }
}

/// A capped text takes at most the limit and the width of the mark, and is
/// the text itself or a prefix of it followed by the mark.
pub proof fn law_capped_keeps_limit(s: Seq<char>, limit: nat, mark: Seq<char>)
    ensures
        byte_len(capped(s, limit, mark)) <= limit + byte_len(mark),
        capped(s, limit, mark) == s || exists|n: int|
            0 <= n < s.len() && capped(s, limit, mark) == #[trigger] s.take(n) + mark,
{
    lemma_prefix_within(s, limit);
    let p = prefix_within(s, limit);
    lemma_byte_len_concat(p, mark);
    if byte_len(s) > limit {
        if p.len() == s.len() {
            assert(p =~= s);
        }
        assert(capped(s, limit, mark) == s.take(p.len() as int) + mark);
    }
}

/// ASCII text takes one byte for each character.
pub proof fn lemma_ascii_byte_len(s: Seq<char>)
    requires
        forall|i: int| 0 <= i < s.len() ==> #[trigger] s[i] <= '\u{7f}',
    ensures
        byte_len(s) == s.len(),
    decreases s.len(),
{
    if s.len() > 0 {
        lemma_ascii_byte_len(s.drop_last());
        assert(s =~= s.drop_last().push(s.last()));
        lemma_byte_len_push(s.drop_last(), s.last());
    }
}

pub proof fn lemma_split_not_empty(s: Seq<char>, p: Seq<char>)
    ensures
        split(s, p).len() > 0,
{
}

proof fn lemma_insert_sorted(list: Seq<Seq<char>>, t: Seq<char>)
    requires
        forall|i: int, j: int| #![auto] 0 <= i < j < list.len() ==> !precedes(list[j], list[i]),
    ensures
        insert_sorted(list, t).to_multiset() == list.to_multiset().insert(t),
        forall|i: int, j: int| #![auto]
            0 <= i < j < insert_sorted(list, t).len() ==> !precedes(
                insert_sorted(list, t)[j],
                insert_sorted(list, t)[i],
            ),
        forall|i: int| #![auto]
            0 <= i < insert_sorted(list, t).len() ==> insert_sorted(list, t)[i] == t
                || list.contains(insert_sorted(list, t)[i]),
    decreases list.len(),
{
    let r = insert_sorted(list, t);
    if list.len() == 0 || precedes(t, list[0]) {
        vstd::seq_lib::lemma_multiset_commutative(seq![t], list);
        seq![t].to_multiset_ensures();
        assert(seq![t] =~= Seq::<Seq<char>>::empty().push(t));
        Seq::<Seq<char>>::empty().to_multiset_ensures();
        assert(r.to_multiset() =~= list.to_multiset().insert(t));
        assert forall|i: int, j: int| #![auto] 0 <= i < j < r.len() implies !precedes(
            r[j],
            r[i],
        ) by {
            assert(r[j] == list[j - 1]);
            if i == 0 {
                if precedes(list[j - 1], t) {
                    lemma_precedes_transitive(list[j - 1], t, list[0]);
                    lemma_precedes_irreflexive(list[0]);
                }
            } else {
                assert(r[i] == list[i - 1]);
            }
        }
        assert forall|i: int| #![auto] 0 <= i < r.len() implies r[i] == t || list.contains(r[i]) by {
            if i > 0 {
                assert(list[i - 1] == r[i]);
            }
        }
    } else {
        let rest = list.skip(1);
        let tail = insert_sorted(rest, t);
        lemma_insert_sorted(rest, t);
        vstd::seq_lib::lemma_multiset_commutative(seq![list[0]], tail);
        vstd::seq_lib::lemma_multiset_commutative(seq![list[0]], rest);
        assert(list =~= seq![list[0]] + rest);
        assert(r.to_multiset() =~= list.to_multiset().insert(t));
        assert forall|i: int, j: int| #![auto] 0 <= i < j < r.len() implies !precedes(
            r[j],
            r[i],
        ) by {
            assert(r[j] == tail[j - 1]);
            if i == 0 {
                if tail[j - 1] != t {
                    let k = choose|k: int| 0 <= k < rest.len() && rest[k] == tail[j - 1];
                    assert(rest[k] == list[k + 1]);
                }
            } else {
                assert(r[i] == tail[i - 1]);
            }
        }
        assert forall|i: int| #![auto] 0 <= i < r.len() implies r[i] == t || list.contains(r[i]) by {
            if i == 0 {
                assert(list[0] == r[i]);
            } else {
                assert(r[i] == tail[i - 1]);
                if tail[i - 1] != t {
                    let k = choose|k: int| 0 <= k < rest.len() && rest[k] == tail[i - 1];
                    assert(list[k + 1] == r[i]);
                }
            }
        }
    }
}

/// Sorting loses no text, adds none, and puts none before one that precedes it.
pub proof fn law_sorted_sorts(list: Seq<Seq<char>>)
    ensures
        sorted(list).to_multiset() == list.to_multiset(),
        forall|i: int, j: int| #![auto]
            0 <= i < j < sorted(list).len() ==> !precedes(sorted(list)[j], sorted(list)[i]),
    decreases list.len(),
{
    if list.len() == 0 {
        assert(sorted(list) =~= list);
    } else {
        let init = list.drop_last();
        law_sorted_sorts(init);
        lemma_insert_sorted(sorted(init), list.last());
        assert(list =~= init.push(list.last()));
        init.to_multiset_ensures();
    }
}

/// A list made into an ordered set keeps its texts, each of them once, and puts
/// none before one that precedes it.
pub proof fn law_ordered_set(list: Seq<Seq<char>>)
    ensures
        ordered_set(list).no_duplicates(),
        forall|t: Seq<char>| #[trigger] ordered_set(list).contains(t) == list.contains(t),
        forall|i: int, j: int| #![auto]
            0 <= i < j < ordered_set(list).len() ==> !precedes(
                ordered_set(list)[j],
                ordered_set(list)[i],
            ),
    decreases list.len(),
{
    let r = ordered_set(list);
    if list.len() > 0 {
        let init = list.drop_last();
        let last = list.last();
        let before = ordered_set(init);
        law_ordered_set(init);
        assert(list =~= init.push(last));
        lemma_push_set(init, last);
        if !before.contains(last) {
            lemma_insert_sorted(before, last);
            before.to_multiset_ensures();
            r.to_multiset_ensures();
            before.lemma_multiset_has_no_duplicates();
            assert(forall|t: Seq<char>| #[trigger] before.contains(t) ==> before.to_multiset().count(t) > 0);
            assert forall|t: Seq<char>| #[trigger] r.contains(t) == list.contains(t) by {
                assert(r.contains(t) == (r.to_multiset().count(t) > 0));
                assert(before.contains(t) == (before.to_multiset().count(t) > 0));
                assert(init.to_set().contains(t) == init.contains(t));
                assert(list.to_set().contains(t) == list.contains(t));
            }
            assert forall|t: Seq<char>| #[trigger] r.to_multiset().contains(t) implies r.to_multiset().count(t)
                == 1 by {
                if t == last {
                    assert(before.to_multiset().count(t) == 0);
                } else {
                    assert(before.to_multiset().contains(t));
                }
            }
            r.lemma_multiset_has_no_duplicates_conv();
        } else {
            assert forall|t: Seq<char>| #[trigger] r.contains(t) == list.contains(t) by {
                assert(init.to_set().contains(t) == init.contains(t));
                assert(list.to_set().contains(t) == list.contains(t));
            }
        }
    }
}

pub proof fn lemma_push_set(s: Seq<Seq<char>>, x: Seq<char>)
    ensures
        s.push(x).to_set() == s.to_set().insert(x),
{
    assert forall|w: Seq<char>|
        #[trigger] s.push(x).to_set().contains(w) == s.to_set().insert(x).contains(w) by {
        if s.contains(w) {
            let k = s.index_of(w);
            assert(s.push(x)[k] == w);
        }
        assert(s.push(x)[s.len() as int] == x);
        if s.push(x).contains(w) {
            let k = s.push(x).index_of(w);
            if k < s.len() {
                assert(s[k] == w);
            }
        }
    }
    assert(s.push(x).to_set() =~= s.to_set().insert(x));
}

/// The first line of a text whose first line is known.
pub proof fn lemma_first_line(a: Seq<char>, rest: Seq<char>)
    requires
        forall|i: int| 0 <= i < a.len() ==> #[trigger] a[i] != '\n',
        a.len() > 0 ==> a.last() != '\r',
    ensures
        lines(a + seq!['\n'] + rest) == seq![a] + lines(rest),
{
    let s = a + seq!['\n'] + rest;
    let k = a.len() as int;
    assert forall|j: int| 0 <= j < k implies !CharSet::Only('\n').has(#[trigger] s[j]) by {
        assert(s[j] == a[j]);
    }
    assert(s[k] == '\n');
    lemma_until_is(s, CharSet::Only('\n'), k);
    assert(s.take(k) =~= a);
    assert(s.skip(k + 1) =~= rest);
}

}
