//! Executable string operations, each proved to compute its definition in
//! [`crate::chars`].
use vstd::prelude::*;
use vstd::utf8::*;

use crate::chars;
use crate::chars::CharSet;

verus! {

/// `String::push` appends one character.
pub assume_specification[ String::push ](s: &mut String, c: char)
    ensures
        final(s)@ == old(s)@.push(c),
;

/// The characters of a text.
pub fn chars_of(s: &str) -> (v: Vec<char>)
    ensures
        v@ == s@,
{
    let mut v: Vec<char> = Vec::new();
    for c in it: s.chars()
        invariant
            it.seq() == s@,
            v@ == it.seq().take(it.index()),
    {
        v.push(c);
    }
    v
}

/// Whether two texts are equal.
pub fn same(a: &str, b: &str) -> (r: bool)
    ensures
        r == (a@ == b@),
{
    let x = a.as_bytes();
    let y = b.as_bytes();
    proof {
        encode_utf8_decode_utf8(a@);
        encode_utf8_decode_utf8(b@);
    }
    if x.len() != y.len() {
        return false;
    }
    let mut i: usize = 0;
    while i < x.len()
        invariant
            i <= x.len(),
            x@ == encode_utf8(a@),
            y@ == encode_utf8(b@),
            x@.len() == y@.len(),
            forall|j: int| 0 <= j < i ==> x@[j] == y@[j],
        decreases x.len() - i,
    {
        if x[i] != y[i] {
            return false;
        }
        i += 1;
    }
    assert(x@ =~= y@);
    true
}

impl CharSet {
    /// Whether the character is in the set.
    pub fn test(&self, c: char) -> (r: bool)
        ensures
            r == self.has(c),
    {
        match self {
            CharSet::White => is_white(c),
            CharSet::QuoteOrWhite => c == '>' || is_white(c),
            CharSet::Punctuation => ('!' <= c && c <= '/') || (':' <= c && c <= '@') || ('[' <= c && c
                <= '`') || ('{' <= c && c <= '~'),
            CharSet::Alphanumeric => is_alphanumeric(c),
            CharSet::NotAlphanumeric => !is_alphanumeric(c),
            CharSet::Digit => '0' <= c && c <= '9',
            CharSet::NotDigit => !('0' <= c && c <= '9'),
            CharSet::NameChar => is_alphanumeric(c) || c == '-' || c == '_',
            CharSet::IdentStart => 'a' <= c && c <= 'z' || 'A' <= c && c <= 'Z' || c == '_',
            CharSet::NotIdent => !is_alphanumeric(c) && c != '_',
            CharSet::Only(x) => c == *x,
        }
    }
}

/// Unicode white space.
pub fn is_white(c: char) -> (r: bool)
    ensures
        r == chars::is_white(c),
{
    ('\u{9}' <= c && c <= '\u{d}') || c == ' ' || c == '\u{85}' || c == '\u{a0}' || c == '\u{1680}'
        || ('\u{2000}' <= c && c <= '\u{200a}') || c == '\u{2028}' || c == '\u{2029}' || c
        == '\u{202f}' || c == '\u{205f}' || c == '\u{3000}'
}

/// Unicode control characters.
pub fn is_control(c: char) -> (r: bool)
    ensures
        r == chars::is_control(c),
{
    c <= '\u{1f}' || ('\u{7f}' <= c && c <= '\u{9f}')
}

/// ASCII letters and digits.
pub fn is_alphanumeric(c: char) -> (r: bool)
    ensures
        r == chars::is_alphanumeric(c),
{
    ('0' <= c && c <= '9') || ('a' <= c && c <= 'z') || ('A' <= c && c <= 'Z')
}

/// Position of the first character in the set, or the number of characters.
pub fn until(v: &Vec<char>, from: usize, set: CharSet) -> (r: usize)
    requires
        from <= v.len(),
    ensures
        r == from + chars::until(v@.skip(from as int), set),
        from <= r <= v.len(),
{
    let mut i: usize = from;
    while i < v.len()
        invariant
            from <= i <= v.len(),
            forall|j: int| from <= j < i ==> !set.has(#[trigger] v@[j]),
        decreases v.len() - i,
    {
        if set.test(v[i]) {
            proof {
                chars::lemma_until_is(v@.skip(from as int), set, i - from);
            }
            return i;
        }
        i += 1;
    }
    proof {
        chars::lemma_until_is(v@.skip(from as int), set, i - from);
    }
    i
}

/// The text without its leading characters in the set.
pub fn drop_leading<'a>(s: &'a str, set: CharSet) -> (r: &'a str)
    ensures
        r@ == chars::drop_leading(s@, set),
{
    let v = chars_of(s);
    let mut i: usize = 0;
    while i < v.len() && set.test(v[i])
        invariant
            i <= v.len(),
            forall|j: int| 0 <= j < i ==> set.has(#[trigger] v@[j]),
        decreases v.len() - i,
    {
        i += 1;
    }
    proof {
        chars::lemma_drop_leading_is(s@, set, i as int);
    }
    s.substring_char(i, v.len())
}

/// The text without its trailing characters in the set.
pub fn drop_trailing<'a>(s: &'a str, set: CharSet) -> (r: &'a str)
    ensures
        r@ == chars::drop_trailing(s@, set),
{
    let v = chars_of(s);
    let mut i: usize = v.len();
    while i > 0 && set.test(v[i - 1])
        invariant
            i <= v.len(),
            forall|j: int| i <= j < v.len() ==> set.has(#[trigger] v@[j]),
        decreases i,
    {
        i -= 1;
    }
    proof {
        chars::lemma_drop_trailing_is(s@, set, i as int);
    }
    s.substring_char(0, i)
}

/// The text without leading and trailing characters in the set.
pub fn trim_set<'a>(s: &'a str, set: CharSet) -> (r: &'a str)
    ensures
        r@ == chars::trim_set(s@, set),
{
    drop_trailing(drop_leading(s, set), set)
}

pub fn trim_start<'a>(s: &'a str) -> (r: &'a str)
    ensures
        r@ == chars::trim_start(s@),
{
    drop_leading(s, CharSet::White)
}

pub fn trim_end<'a>(s: &'a str) -> (r: &'a str)
    ensures
        r@ == chars::trim_end(s@),
{
    drop_trailing(s, CharSet::White)
}

pub fn trim<'a>(s: &'a str) -> (r: &'a str)
    ensures
        r@ == chars::trim(s@),
{
    trim_end(trim_start(s))
}

/// Whether every character is in the set.
pub fn all_in(s: &str, set: CharSet) -> (r: bool)
    ensures
        r == chars::all_in(s@, set),
{
    let v = chars_of(s);
    let mut i: usize = 0;
    while i < v.len()
        invariant
            i <= v.len(),
            v@ == s@,
            forall|j: int| 0 <= j < i ==> set.has(#[trigger] s@[j]),
        decreases v.len() - i,
    {
        if !set.test(v[i]) {
            assert(!set.has(s@[i as int]));
            return false;
        }
        i += 1;
    }
    true
}

/// The parts between the characters in the set.
pub fn pieces<'a>(s: &'a str, set: CharSet) -> (r: Vec<&'a str>)
    ensures
        chars::texts(r@) == chars::pieces(s@, set),
        r@.len() > 0,
{
    let v = chars_of(s);
    let mut out: Vec<&'a str> = Vec::new();
    let mut start: usize = 0;
    assert(s@.skip(0) =~= s@);
    assert(chars::texts(out@) + chars::pieces(s@, set) =~= chars::pieces(s@, set));
    loop
        invariant
            start <= v.len(),
            v@ == s@,
            chars::pieces(s@, set) == chars::texts(out@) + chars::pieces(
                s@.skip(start as int),
                set,
            ),
        decreases v.len() - start,
    {
        let end = until(&v, start, set);
        let ghost rest = s@.skip(start as int);
        let ghost before = chars::texts(out@);
        let piece = s.substring_char(start, end);
        out.push(piece);
        assert(piece@ =~= rest.take(end - start));
        assert(chars::texts(out@) =~= before.push(piece@));
        if end >= v.len() {
            assert(rest.take(end - start) =~= rest);
            assert(chars::pieces(rest, set) =~= seq![piece@]);
            assert(chars::texts(out@) =~= chars::pieces(s@, set));
            return out;
        }
        assert(rest.skip(end - start + 1) =~= s@.skip(end + 1));
        assert(chars::pieces(rest, set) =~= seq![piece@] + chars::pieces(s@.skip(end + 1), set));
        assert(before + (seq![piece@] + chars::pieces(s@.skip(end + 1), set)) =~= before.push(
            piece@,
        ) + chars::pieces(s@.skip(end + 1), set));
        start = end + 1;
    }
}

/// The maximal runs outside the set.
pub fn runs<'a>(s: &'a str, set: CharSet) -> (r: Vec<&'a str>)
    ensures
        chars::texts(r@) == chars::runs(s@, set),
{
    let parts = pieces(s, set);
    let mut out: Vec<&'a str> = Vec::new();
    let mut i: usize = 0;
    proof {
        reveal(Seq::filter);
        assert(chars::texts(parts@).take(0).filter(chars::at_least(1)) =~= Seq::empty());
        assert(chars::texts(out@) =~= Seq::empty());
    }
    while i < parts.len()
        invariant
            i <= parts.len(),
            chars::texts(out@) == chars::texts(parts@).take(i as int).filter(chars::at_least(1)),
        decreases parts.len() - i,
    {
        let part = parts[i];
        let ghost all = chars::texts(parts@);
        let ghost before = chars::texts(out@);
        assert(all.take(i + 1).drop_last() =~= all.take(i as int));
        assert(all.take(i + 1).last() == part@);
        proof {
            reveal(Seq::filter);
        }
        if !part.is_empty() {
            out.push(part);
            assert(chars::texts(out@) =~= before.push(part@));
        }
        i += 1;
    }
    assert(chars::texts(parts@).take(i as int) =~= chars::texts(parts@));
    out
}

/// The words: maximal runs without white space.
pub fn words<'a>(s: &'a str) -> (r: Vec<&'a str>)
    ensures
        chars::texts(r@) == chars::words(s@),
{
    runs(s, CharSet::White)
}

/// The lines, each without its line break.
pub fn lines<'a>(s: &'a str) -> (r: Vec<&'a str>)
    ensures
        chars::texts(r@) == chars::lines(s@),
{
    let v = chars_of(s);
    let mut out: Vec<&'a str> = Vec::new();
    let mut start: usize = 0;
    assert(s@.skip(0) =~= s@);
    assert(chars::texts(out@) + chars::lines(s@) =~= chars::lines(s@));
    while start < v.len()
        invariant
            start <= v.len(),
            v@ == s@,
            chars::lines(s@) == chars::texts(out@) + chars::lines(s@.skip(start as int)),
        decreases v.len() - start,
    {
        let end = until(&v, start, CharSet::Only('\n'));
        let ghost rest = s@.skip(start as int);
        let ghost before = chars::texts(out@);
        if end >= v.len() {
            let piece = s.substring_char(start, end);
            out.push(piece);
            assert(piece@ =~= rest);
            assert(chars::texts(out@) =~= before.push(piece@));
            assert(chars::lines(rest) =~= seq![rest]);
            assert(chars::texts(out@) =~= chars::lines(s@));
            return out;
        }
        let stop = if end > start && v[end - 1] == '\r' {
            end - 1
        } else {
            end
        };
        let piece = s.substring_char(start, stop);
        out.push(piece);
        assert(piece@ =~= chars::without_cr(rest.take(end - start)));
        assert(chars::texts(out@) =~= before.push(piece@));
        assert(rest.skip(end - start + 1) =~= s@.skip(end + 1));
        assert(before + (seq![piece@] + chars::lines(s@.skip(end + 1))) =~= before.push(piece@)
            + chars::lines(s@.skip(end + 1)));
        start = end + 1;
    }
    assert(s@.skip(start as int) =~= Seq::empty());
    assert(chars::lines(s@) =~= chars::texts(out@));
    out
}

fn matches_at(v: &Vec<char>, i: usize, p: &Vec<char>) -> (r: bool)
    requires
        i <= v.len(),
    ensures
        r == chars::starts_with(v@.skip(i as int), p@),
{
    let ghost rest = v@.skip(i as int);
    if p.len() > v.len() - i {
        return false;
    }
    let mut j: usize = 0;
    while j < p.len()
        invariant
            j <= p.len(),
            i + p.len() <= v.len(),
            rest == v@.skip(i as int),
            forall|k: int| 0 <= k < j ==> rest[k] == p@[k],
        decreases p.len() - j,
    {
        if v[i + j] != p[j] {
            assert(rest.take(p@.len() as int)[j as int] != p@[j as int]);
            return false;
        }
        j += 1;
    }
    assert(rest.take(p@.len() as int) =~= p@);
    true
}

/// Whether the text starts with `p`.
pub fn starts_with(s: &str, p: &str) -> (r: bool)
    ensures
        r == chars::starts_with(s@, p@),
{
    assert(s@.skip(0) =~= s@);
    matches_at(&chars_of(s), 0, &chars_of(p))
}

/// What follows the prefix `p`.
pub fn after_prefix<'a>(s: &'a str, p: &str) -> (r: Option<&'a str>)
    ensures
        match r {
            Some(t) => chars::after_prefix(s@, p@) == Some(t@),
            None => chars::after_prefix(s@, p@) is None,
        },
{
    if starts_with(s, p) {
        let r = s.substring_char(p.unicode_len(), s.unicode_len());
        assert(r@ =~= s@.skip(p@.len() as int));
        Some(r)
    } else {
        None
    }
}

/// Position of the first occurrence of `p`, in characters.
pub fn find(s: &str, p: &str) -> (r: Option<usize>)
    ensures
        match r {
            Some(i) => chars::find(s@, p@) == Some(i as nat) && i + p@.len() <= s@.len(),
            None => chars::find(s@, p@) is None,
        },
{
    let v = chars_of(s);
    let q = chars_of(p);
    let mut i: usize = 0;
    assert(s@.skip(0) =~= s@);
    proof {
        chars::lemma_find(s@, p@);
    }
    while i < v.len()
        invariant
            i <= v.len(),
            v@ == s@,
            q@ == p@,
            chars::find(s@, p@) matches Some(k) ==> k + p@.len() <= s@.len(),
            chars::find(s@, p@) == (match chars::find(s@.skip(i as int), p@) {
                Some(k) => Some((i + k) as nat),
                None => None::<nat>,
            }),
        decreases v.len() - i,
    {
        if matches_at(&v, i, &q) {
            return Some(i);
        }
        assert(s@.skip(i as int).skip(1) =~= s@.skip(i + 1));
        i += 1;
    }
    if q.len() == 0 {
        assert(s@.skip(i as int).take(0) =~= p@);
        return Some(i);
    }
    None
}

/// Whether `p` occurs in the text.
pub fn contains(s: &str, p: &str) -> (r: bool)
    ensures
        r == chars::contains(s@, p@),
{
    find(s, p).is_some()
}

/// What stands before and after the first occurrence of `p`.
pub fn around<'a>(s: &'a str, p: &str) -> (r: Option<(&'a str, &'a str)>)
    ensures
        match r {
            Some((a, b)) => chars::around(s@, p@) == Some((a@, b@)),
            None => chars::around(s@, p@) is None,
        },
{
    match find(s, p) {
        Some(i) => {
            let n = s.unicode_len();
            let a = s.substring_char(0, i);
            let b = s.substring_char(i + p.unicode_len(), n);
            assert(a@ =~= s@.take(i as int));
            assert(b@ =~= s@.skip(i + p@.len()));
            Some((a, b))
        },
        None => None,
    }
}

/// The text with every occurrence of the non-empty `p` replaced by `w`.
pub fn replace(s: &str, p: &str, w: &str) -> (r: String)
    requires
        p@.len() > 0,
    ensures
        r@ == chars::replace(s@, p@, w@),
{
    let v = chars_of(s);
    let q = chars_of(p);
    let mut out = String::new();
    let mut start: usize = 0;
    let mut i: usize = 0;
    assert(s@.skip(0) =~= s@);
    assert(out@ + chars::replace(s@, p@, w@) =~= chars::replace(s@, p@, w@));
    while i < v.len()
        invariant
            start <= i <= v.len(),
            v@ == s@,
            q@ == p@,
            p@.len() > 0,
            chars::replace(s@, p@, w@) == out@ + chars::replace(s@.skip(start as int), p@, w@),
            chars::find(s@.skip(start as int), p@) == (match chars::find(s@.skip(i as int), p@) {
                Some(k) => Some((i - start + k) as nat),
                None => None::<nat>,
            }),
        decreases v.len() - i,
    {
        let ghost rest = s@.skip(start as int);
        if matches_at(&v, i, &q) {
            let ghost before = out@;
            let ghost tail = s@.skip(i + p@.len());
            out.append(s.substring_char(start, i));
            out.append(w);
            assert(s@.subrange(start as int, i as int) =~= rest.take(i - start));
            assert(rest.skip(i - start + p@.len()) =~= tail);
            assert(chars::replace(rest, p@, w@) == rest.take(i - start) + w@ + chars::replace(
                tail,
                p@,
                w@,
            ));
            assert(before + (rest.take(i - start) + w@ + chars::replace(tail, p@, w@)) =~= out@
                + chars::replace(tail, p@, w@));
            i = i + q.len();
            start = i;
        } else {
            assert(s@.skip(i as int).skip(1) =~= s@.skip(i + 1));
            i += 1;
        }
    }
    let ghost rest = s@.skip(start as int);
    assert(s@.skip(i as int) =~= Seq::empty());
    assert(chars::find(rest, p@) is None);
    assert(s@.subrange(start as int, i as int) =~= rest);
    out.append(s.substring_char(start, i));
    out
}

/// The text with each character `from` replaced by `to`.
pub fn replace_char(s: &str, from: char, to: &str) -> (r: String)
    ensures
        r@ == chars::replace_char(s@, from, to@),
{
    let v = chars_of(s);
    let mut out = String::new();
    let mut i: usize = 0;
    assert(s@.take(0) =~= Seq::empty());
    while i < v.len()
        invariant
            i <= v.len(),
            v@ == s@,
            out@ == chars::replace_char(s@.take(i as int), from, to@),
        decreases v.len() - i,
    {
        assert(s@.take(i + 1).drop_last() =~= s@.take(i as int));
        if v[i] == from {
            out.append(to);
        } else {
            let ghost before = out@;
            out.push(v[i]);
            assert(out@ =~= before + seq![v@[i as int]]);
        }
        i += 1;
    }
    assert(s@.take(i as int) =~= s@);
    out
}

/// The parts with `sep` between neighbours.
pub fn join(parts: &Vec<&str>, sep: &str) -> (r: String)
    ensures
        r@ == chars::join(chars::texts(parts@), sep@),
{
    let mut out = String::new();
    let mut i: usize = 0;
    let ghost all = chars::texts(parts@);
    assert(all.take(0) =~= Seq::empty());
    while i < parts.len()
        invariant
            i <= parts.len(),
            all == chars::texts(parts@),
            out@ == chars::join(all.take(i as int), sep@),
        decreases parts.len() - i,
    {
        assert(all.take(i + 1).drop_last() =~= all.take(i as int));
        if i > 0 {
            out.append(sep);
        } else {
            assert(out@ + parts@[0]@ =~= parts@[0]@);
        }
        out.append(parts[i]);
        i += 1;
    }
    assert(all.take(i as int) =~= all);
    out
}

/// The strings with `sep` between neighbours.
pub fn join_owned(parts: &Vec<String>, sep: &str) -> (r: String)
    ensures
        r@ == chars::join(chars::owned_texts(parts@), sep@),
{
    let mut out = String::new();
    let mut i: usize = 0;
    let ghost all = chars::owned_texts(parts@);
    assert(all.take(0) =~= Seq::empty());
    while i < parts.len()
        invariant
            i <= parts.len(),
            all == chars::owned_texts(parts@),
            out@ == chars::join(all.take(i as int), sep@),
        decreases parts.len() - i,
    {
        assert(all.take(i + 1).drop_last() =~= all.take(i as int));
        if i > 0 {
            out.append(sep);
        } else {
            assert(out@ + parts@[0]@ =~= parts@[0]@);
        }
        out.append(parts[i].as_str());
        i += 1;
    }
    assert(all.take(i as int) =~= all);
    out
}

/// Owned copies of the texts.
pub fn to_owned_all(parts: &Vec<&str>, from: usize) -> (r: Vec<String>)
    requires
        from <= parts.len(),
    ensures
        chars::owned_texts(r@) == chars::texts(parts@).skip(from as int),
{
    let mut out: Vec<String> = Vec::new();
    let mut i: usize = from;
    let ghost all = chars::texts(parts@);
    assert(chars::owned_texts(out@) =~= all.subrange(from as int, from as int));
    while i < parts.len()
        invariant
            from <= i <= parts.len(),
            all == chars::texts(parts@),
            chars::owned_texts(out@) == all.subrange(from as int, i as int),
        decreases parts.len() - i,
    {
        let ghost before = out@;
        out.push(parts[i].to_owned());
        assert(chars::owned_texts(out@) =~= chars::owned_texts(before).push(all[i as int]));
        assert(all.subrange(from as int, i + 1) =~= all.subrange(from as int, i as int).push(
            all[i as int],
        ));
        i += 1;
    }
    assert(all.subrange(from as int, i as int) =~= all.skip(from as int));
    out
}

/// The character in ASCII lower case.
pub fn lower_char(c: char) -> (r: char)
    ensures
        r == chars::lower_char(c),
{
    if 'A' <= c && c <= 'Z' {
        (c as u8 + 32) as char
    } else {
        c
    }
}

/// The text with its ASCII capitals in lower case.
pub fn lower(s: &str) -> (r: String)
    ensures
        r@ == chars::lower(s@),
{
    let v = chars_of(s);
    let mut out = String::new();
    let mut i: usize = 0;
    while i < v.len()
        invariant
            i <= v.len(),
            v@ == s@,
            out@ == chars::lower(s@).take(i as int),
        decreases v.len() - i,
    {
        out.push(lower_char(v[i]));
        assert(chars::lower(s@).take(i + 1) =~= chars::lower(s@).take(i as int).push(
            chars::lower(s@)[i as int],
        ));
        i += 1;
    }
    assert(chars::lower(s@).take(i as int) =~= chars::lower(s@));
    out
}

/// Whether two texts agree up to ASCII case.
pub fn same_ignoring_case(a: &str, b: &str) -> (r: bool)
    ensures
        r == (chars::lower(a@) == chars::lower(b@)),
{
    same(lower(a).as_str(), lower(b).as_str())
}

/// Length in UTF-8 bytes.
pub fn byte_len(s: &str) -> (r: usize)
    ensures
        r == chars::byte_len(s@),
{
    s.as_bytes().len()
}

/// The longest prefix that takes at most `limit` bytes.
pub fn prefix_within<'a>(s: &'a str, limit: usize) -> (r: &'a str)
    ensures
        r@ == chars::prefix_within(s@, limit as nat),
{
    let v = chars_of(s);
    let mut i: usize = 0;
    let mut left: usize = limit;
    assert(s@.skip(0) =~= s@);
    assert(s@.take(0) + chars::prefix_within(s@, limit as nat) =~= chars::prefix_within(
        s@,
        limit as nat,
    ));
    while i < v.len()
        invariant
            i <= v.len(),
            v@ == s@,
            chars::prefix_within(s@, limit as nat) == s@.take(i as int) + chars::prefix_within(
                s@.skip(i as int),
                left as nat,
            ),
        decreases v.len() - i,
    {
        let w = width(v[i]);
        if w > left {
            let r = s.substring_char(0, i);
            assert(r@ =~= chars::prefix_within(s@, limit as nat));
            return r;
        }
        let ghost rest = s@.skip(i as int);
        left = left - w;
        assert(rest.skip(1) =~= s@.skip(i + 1));
        assert(s@.take(i as int) + (seq![rest[0]] + chars::prefix_within(rest.skip(1), left as nat))
            =~= s@.take(i + 1) + chars::prefix_within(s@.skip(i + 1), left as nat));
        i += 1;
    }
    let r = s.substring_char(0, i);
    assert(r@ =~= chars::prefix_within(s@, limit as nat));
    r
}

/// Width of one character in UTF-8 bytes.
pub fn width(c: char) -> (r: usize)
    ensures
        r == chars::width(c),
{
    if c <= '\u{7f}' {
        1
    } else if c <= '\u{7ff}' {
        2
    } else if c <= '\u{ffff}' {
        3
    } else {
        4
    }
}

/// The text, or its longest prefix within `limit` bytes followed by `mark`.
pub fn capped(s: &str, limit: usize, mark: &str) -> (r: String)
    ensures
        r@ == chars::capped(s@, limit as nat, mark@),
{
    if byte_len(s) <= limit {
        return s.to_owned();
    }
    let mut out = prefix_within(s, limit).to_owned();
    out.append(mark);
    out
}

/// Position of the last occurrence of a character.
pub fn last_index(s: &str, c: char) -> (r: Option<usize>)
    ensures
        match r {
            Some(i) => chars::last_index(s@, c) == Some(i as nat) && i < s@.len() && s@[i as int] == c,
            None => chars::last_index(s@, c) is None,
        },
{
    let v = chars_of(s);
    let mut i: usize = v.len();
    assert(s@.take(i as int) =~= s@);
    while i > 0
        invariant
            i <= v.len(),
            v@ == s@,
            chars::last_index(s@, c) == chars::last_index(s@.take(i as int), c),
        decreases i,
    {
        assert(s@.take(i as int).drop_last() =~= s@.take(i - 1));
        i -= 1;
        if v[i] == c {
            return Some(i);
        }
    }
    None
}

/// How often a character occurs.
pub fn count(s: &str, c: char) -> (r: usize)
    ensures
        r == chars::count(s@, c),
{
    let v = chars_of(s);
    let mut n: usize = 0;
    let mut i: usize = 0;
    while i < v.len()
        invariant
            n <= i <= v.len(),
            v@ == s@,
            n == chars::count(s@.take(i as int), c),
        decreases v.len() - i,
    {
        assert(s@.take(i + 1).drop_last() =~= s@.take(i as int));
        if v[i] == c {
            n += 1;
        }
        i += 1;
    }
    assert(s@.take(i as int) =~= s@);
    n
}

/// Whether `a` comes before `b` in the order of code points.
pub fn precedes(a: &str, b: &str) -> (r: bool)
    ensures
        r == chars::precedes(a@, b@),
{
    let v = chars_of(a);
    let w = chars_of(b);
    let mut i: usize = 0;
    assert(a@.skip(0) =~= a@);
    assert(b@.skip(0) =~= b@);
    while i < v.len() && i < w.len()
        invariant
            i <= v.len(),
            i <= w.len(),
            v@ == a@,
            w@ == b@,
            chars::precedes(a@, b@) == chars::precedes(a@.skip(i as int), b@.skip(i as int)),
        decreases v.len() - i,
    {
        if v[i] != w[i] {
            return v[i] < w[i];
        }
        assert(a@.skip(i as int).skip(1) =~= a@.skip(i + 1));
        assert(b@.skip(i as int).skip(1) =~= b@.skip(i + 1));
        i += 1;
    }
    i < w.len()
}

/// Whether one of the texts equals `t`.
pub fn any_same(list: &Vec<String>, t: &str) -> (r: bool)
    ensures
        r == chars::owned_texts(list@).contains(t@),
{
    let mut i: usize = 0;
    let ghost all = chars::owned_texts(list@);
    while i < list.len()
        invariant
            i <= list.len(),
            all == chars::owned_texts(list@),
            forall|j: int| 0 <= j < i ==> all[j] != t@,
        decreases list.len() - i,
    {
        if same(list[i].as_str(), t) {
            assert(all[i as int] == t@);
            return true;
        }
        i += 1;
    }
    assert(!all.contains(t@));
    false
}

/// A copy of a list of strings.
pub fn copy_all(list: &Vec<String>) -> (r: Vec<String>)
    ensures
        r@ == list@,
{
    let mut out: Vec<String> = Vec::new();
    let mut i: usize = 0;
    while i < list.len()
        invariant
            i <= list.len(),
            out@ == list@.take(i as int),
        decreases list.len() - i,
    {
        out.push(list[i].clone());
        assert(out@ =~= list@.take(i + 1));
        i += 1;
    }
    assert(list@.take(i as int) =~= list@);
    out
}

/// `true` or `false`.
pub fn bool_text(b: bool) -> (r: &'static str)
    ensures
        r@ == chars::bool_text(b),
{
    if b {
        "true"
    } else {
        "false"
    }
}

/// The first `n` characters, all of them when there are fewer.
pub fn take<'a>(s: &'a str, n: usize) -> (r: &'a str)
    ensures
        r@ == (if s@.len() <= n {
            s@
        } else {
            s@.take(n as int)
        }),
{
    let len = s.unicode_len();
    if len <= n {
        s
    } else {
        s.substring_char(0, n)
    }
}

/// A copy of an optional string.
pub fn copy_opt(o: &Option<String>) -> (r: Option<String>)
    ensures
        r == *o,
{
    match o {
        Some(s) => Some(s.clone()),
        None => None,
    }
}

/// The parts of the text between the occurrences of the non-empty `p`.
pub fn split<'a>(s: &'a str, p: &str) -> (r: Vec<&'a str>)
    requires
        p@.len() > 0,
    ensures
        chars::texts(r@) == chars::split(s@, p@),
{
    let mut out: Vec<&'a str> = Vec::new();
    let mut rest = s;
    assert(chars::texts(out@) + chars::split(s@, p@) =~= chars::split(s@, p@));
    loop
        invariant
            p@.len() > 0,
            chars::split(s@, p@) == chars::texts(out@) + chars::split(rest@, p@),
        decreases rest@.len(),
    {
        proof {
            chars::lemma_find(rest@, p@);
        }
        let ghost before = chars::texts(out@);
        match around(rest, p) {
            Some((head, tail)) => {
                out.push(head);
                assert(chars::texts(out@) =~= before.push(head@));
                assert(before + (seq![head@] + chars::split(tail@, p@)) =~= before.push(head@)
                    + chars::split(tail@, p@));
                rest = tail;
            },
            None => {
                out.push(rest);
                assert(chars::texts(out@) =~= before.push(rest@));
                assert(before + seq![rest@] =~= before.push(rest@));
                return out;
            },
        }
    }
}

/// Puts a text into a list in ascending order.
pub fn insert_sorted(list: &mut Vec<String>, t: String)
    ensures
        chars::owned_texts(final(list)@) == chars::insert_sorted(
            chars::owned_texts(old(list)@),
            t@,
        ),
{
    let ghost all = chars::owned_texts(list@);
    let ghost x = t@;
    let mut i: usize = 0;
    assert(all.skip(0) =~= all);
    assert(all.take(0) + chars::insert_sorted(all, x) =~= chars::insert_sorted(all, x));
    while i < list.len() && !precedes(t.as_str(), list[i].as_str())
        invariant
            i <= list.len(),
            x == t@,
            all == chars::owned_texts(list@),
            all == chars::owned_texts(old(list)@),
            chars::insert_sorted(all, x) == all.take(i as int) + chars::insert_sorted(
                all.skip(i as int),
                x,
            ),
        decreases list.len() - i,
    {
        let ghost rest = all.skip(i as int);
        assert(rest.skip(1) =~= all.skip(i + 1));
        assert(all.take(i as int) + (seq![rest[0]] + chars::insert_sorted(rest.skip(1), x))
            =~= all.take(i + 1) + chars::insert_sorted(rest.skip(1), x));
        i += 1;
    }
    let ghost rest = all.skip(i as int);
    list.insert(i, t);
    assert(chars::owned_texts(list@) =~= all.take(i as int) + (seq![x] + rest));
}

/// The texts of a list in ascending order, each of them once.
pub fn ordered_set(list: &Vec<String>) -> (r: Vec<String>)
    ensures
        chars::owned_texts(r@) == chars::ordered_set(chars::owned_texts(list@)),
{
    let ghost all = chars::owned_texts(list@);
    let mut out: Vec<String> = Vec::new();
    let mut i: usize = 0;
    assert(all.take(0) =~= seq![]);
    assert(chars::owned_texts(out@) =~= seq![]);
    while i < list.len()
        invariant
            i <= list.len(),
            all == chars::owned_texts(list@),
            chars::owned_texts(out@) == chars::ordered_set(all.take(i as int)),
        decreases list.len() - i,
    {
        assert(all.take(i + 1).drop_last() =~= all.take(i as int));
        assert(all[i as int] == list[i as int]@);
        if !any_same(&out, list[i].as_str()) {
            insert_sorted(&mut out, list[i].clone());
        }
        i += 1;
    }
    assert(all.take(i as int) =~= all);
    out
}

/// A copy of a list of strings from one number on.
pub fn copy_from(list: &Vec<String>, from: usize) -> (r: Vec<String>)
    requires
        from <= list.len(),
    ensures
        r@ == list@.skip(from as int),
        chars::owned_texts(r@) == chars::owned_texts(list@).skip(from as int),
{
    let mut out: Vec<String> = Vec::new();
    let mut i: usize = from;
    while i < list.len()
        invariant
            from <= i <= list.len(),
            out@ == list@.subrange(from as int, i as int),
        decreases list.len() - i,
    {
        out.push(list[i].clone());
        assert(out@ =~= list@.subrange(from as int, i + 1));
        i += 1;
    }
    assert(out@ =~= list@.skip(from as int));
    assert(chars::owned_texts(out@) =~= chars::owned_texts(list@).skip(from as int));
    out
}

}
