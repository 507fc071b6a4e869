//! The subset of JSON that the library writes and picks values out of: quoted
//! strings with escapes, and values found by the name in front of them.
use std::collections::BTreeSet;

use vstd::prelude::*;

use crate::chars;
use crate::chars::CharSet;
use crate::numbers;
use crate::text;

verus! {

/// One character inside a quoted string; a control character without an escape
/// of its own becomes a space.
pub open spec fn escape_char(c: char) -> Seq<char> {
    if c == '"' {
        seq!['\\', '"']
    } else if c == '\\' {
        seq!['\\', '\\']
    } else if c == '\n' {
        seq!['\\', 'n']
    } else if c == '\r' {
        seq!['\\', 'r']
    } else if c == '\t' {
        seq!['\\', 't']
    } else if chars::is_control(c) {
        seq![' ']
    } else {
        seq![c]
    }
}

/// A text inside a quoted string.
pub open spec fn escaped(s: Seq<char>) -> Seq<char>
    decreases s.len(),
{
    if s.len() == 0 {
        seq![]
    } else {
        escaped(s.drop_last()) + escape_char(s.last())
    }
}

/// The character that an escape stands for.
pub open spec fn unescape_char(c: char) -> char {
    if c == 'n' {
        '\n'
    } else if c == 'r' {
        '\r'
    } else if c == 't' {
        '\t'
    } else {
        c
    }
}

/// The text of a quoted string that was entered behind its opening quote; none
/// where the closing quote is missing.
pub open spec fn quoted(s: Seq<char>) -> Option<Seq<char>>
    decreases s.len(),
{
    if s.len() == 0 {
        None
    } else if s[0] == '"' {
        Some(seq![])
    } else if s[0] == '\\' {
        if s.len() == 1 {
            None
        } else {
            match quoted(s.skip(2)) {
                Some(r) => Some(seq![unescape_char(s[1])] + r),
                None => None,
            }
        }
    } else {
        match quoted(s.skip(1)) {
            Some(r) => Some(seq![s[0]] + r),
            None => None,
        }
    }
}

/// A name in quotes.
pub open spec fn marker(key: Seq<char>) -> Seq<char> {
    "\""@ + key + "\""@
}

/// What follows the first occurrence of the quoted name.
pub open spec fn after_key(s: Seq<char>, key: Seq<char>) -> Option<Seq<char>> {
    match chars::around(s, marker(key)) {
        Some((_, rest)) => Some(rest),
        None => None,
    }
}

/// What follows the first colon behind the quoted name.
pub open spec fn after_colon(s: Seq<char>, key: Seq<char>) -> Option<Seq<char>> {
    match after_key(s, key) {
        Some(rest) => match chars::around(rest, ":"@) {
            Some((_, value)) => Some(value),
            None => None,
        },
        None => None,
    }
}

/// The string value of a name.
pub open spec fn string_value(s: Seq<char>, key: Seq<char>) -> Option<Seq<char>> {
    match after_colon(s, key) {
        Some(value) => {
            let v = chars::trim_start(value);
            if v.len() > 0 && v[0] == '"' {
                quoted(v.skip(1))
            } else {
                None
            }
        },
        None => None,
    }
}

/// The boolean value of a name; only white space may stand before its colon.
pub open spec fn bool_value(s: Seq<char>, key: Seq<char>) -> Option<bool> {
    match after_key(s, key) {
        Some(rest) => match chars::after_prefix(chars::trim_start(rest), ":"@) {
            Some(value) => {
                let v = chars::trim_start(value);
                if chars::starts_with(v, "true"@) {
                    Some(true)
                } else if chars::starts_with(v, "false"@) {
                    Some(false)
                } else {
                    None
                }
            },
            None => None,
        },
        None => None,
    }
}

/// Length of the block that starts `s`, up to the brace that closes it: braces
/// inside quoted strings do not count.
pub open spec fn block_len(s: Seq<char>, depth: nat, in_string: bool) -> Option<nat>
    decreases s.len(),
{
    if s.len() == 0 {
        None
    } else if in_string && s[0] == '\\' {
        if s.len() == 1 {
            None
        } else {
            plus(2, block_len(s.skip(2), depth, true))
        }
    } else if s[0] == '"' {
        plus(1, block_len(s.skip(1), depth, !in_string))
    } else if in_string {
        plus(1, block_len(s.skip(1), depth, true))
    } else if s[0] == '{' {
        plus(1, block_len(s.skip(1), depth + 1, false))
    } else if s[0] == '}' {
        if depth <= 1 {
            Some(1)
        } else {
            plus(1, block_len(s.skip(1), (depth - 1) as nat, false))
        }
    } else {
        plus(1, block_len(s.skip(1), depth, false))
    }
}

pub open spec fn plus(n: nat, m: Option<nat>) -> Option<nat> {
    match m {
        Some(k) => Some(n + k),
        None => None,
    }
}

/// The block in braces behind a name.
pub open spec fn object_value(s: Seq<char>, key: Seq<char>) -> Option<Seq<char>> {
    match chars::find(s, marker(key)) {
        Some(p) => {
            let from = s.skip(p as int);
            match chars::find(from, "{"@) {
                Some(o) => {
                    let block = from.skip(o as int);
                    match block_len(block, 0, false) {
                        Some(n) => Some(block.take(n as int)),
                        None => None,
                    }
                },
                None => None,
            }
        },
        None => None,
    }
}

/// The 64-bit numbers among texts, each trimmed.
pub open spec fn numbers_in(parts: Seq<Seq<char>>) -> Set<i64>
    decreases parts.len(),
{
    if parts.len() == 0 {
        Set::empty()
    } else {
        let before = numbers_in(parts.drop_last());
        match numbers::signed_value(chars::trim(parts.last())) {
            Some(n) => before.insert(n as i64),
            None => before,
        }
    }
}

/// The numbers of a comma-separated list; parts that are no number are skipped.
pub open spec fn number_list(s: Seq<char>) -> Set<i64> {
    numbers_in(chars::pieces(s, CharSet::Only(',')))
}

/// The text between the brackets behind a name.
pub open spec fn bracketed(s: Seq<char>, key: Seq<char>) -> Option<Seq<char>> {
    match after_colon(s, key) {
        Some(rest) => match chars::around(rest, "["@) {
            Some((_, list)) => match chars::around(list, "]"@) {
                Some((inner, _)) => Some(inner),
                None => None,
            },
            None => None,
        },
        None => None,
    }
}

/// The numbers in the array of a name, none where there is no array.
pub open spec fn array_value(s: Seq<char>, key: Seq<char>) -> Set<i64> {
    match bracketed(s, key) {
        Some(inner) => number_list(inner),
        None => Set::empty(),
    }
}

/// Escapes a text for a quoted string.
pub fn json_escape(value: &str) -> (r: String)
    ensures
        r@ == escaped(value@),
{
    let v = text::chars_of(value);
    let mut out = String::new();
    let mut i: usize = 0;
    assert(value@.take(0) =~= Seq::empty());
    while i < v.len()
        invariant
            i <= v.len(),
            v@ == value@,
            out@ == escaped(value@.take(i as int)),
        decreases v.len() - i,
    {
        let ghost before = out@;
        let c = v[i];
        assert(value@.take(i + 1).drop_last() =~= value@.take(i as int));
        if c == '"' {
            out.push('\\');
            out.push('"');
        } else if c == '\\' {
            out.push('\\');
            out.push('\\');
        } else if c == '\n' {
            out.push('\\');
            out.push('n');
        } else if c == '\r' {
            out.push('\\');
            out.push('r');
        } else if c == '\t' {
            out.push('\\');
            out.push('t');
        } else if text::is_control(c) {
            out.push(' ');
        } else {
            out.push(c);
        }
        assert(out@ =~= before + escape_char(c));
        i += 1;
    }
    assert(value@.take(i as int) =~= value@);
    out
}

fn marker_text(key: &str) -> (r: String)
    ensures
        r@ == marker(key@),
{
    let mut m = "\"".to_owned();
    m.append(key);
    m.append("\"");
    m
}

fn rest_after_key<'a>(s: &'a str, key: &str) -> (r: Option<&'a str>)
    ensures
        match r {
            Some(t) => after_key(s@, key@) == Some(t@),
            None => after_key(s@, key@) is None,
        },
{
    match text::around(s, marker_text(key).as_str()) {
        Some((_, rest)) => Some(rest),
        None => None,
    }
}

pub(crate) fn rest_after_colon<'a>(s: &'a str, key: &str) -> (r: Option<&'a str>)
    ensures
        match r {
            Some(t) => after_colon(s@, key@) == Some(t@),
            None => after_colon(s@, key@) is None,
        },
{
    match rest_after_key(s, key) {
        Some(rest) => match text::around(rest, ":") {
            Some((_, value)) => Some(value),
            None => None,
        },
        None => None,
    }
}

/// Reads a quoted string that was entered behind its opening quote.
pub fn read_quoted(s: &str) -> (r: Option<String>)
    ensures
        chars::opt_text(r) == quoted(s@),
{
    let v = text::chars_of(s);
    let mut out = String::new();
    let mut i: usize = 0;
    assert(s@.skip(0) =~= s@);
    assert(prepended(out@, quoted(s@)) == quoted(s@)) by {
        match quoted(s@) {
            Some(r) => {
                assert(out@ + r =~= r);
            },
            None => {},
        }
    }
    while i < v.len()
        invariant
            i <= v.len(),
            v@ == s@,
            quoted(s@) == prepended(out@, quoted(s@.skip(i as int))),
        decreases v.len() - i,
    {
        let ghost rest = s@.skip(i as int);
        let ghost before = out@;
        let c = v[i];
        assert(rest[0] == c);
        if c == '"' {
            assert(out@ + Seq::<char>::empty() =~= out@);
            return Some(out);
        }
        if c == '\\' {
            if i + 1 >= v.len() {
                return None;
            }
            let d = v[i + 1];
            assert(rest[1] == d);
            let u = if d == 'n' {
                '\n'
            } else if d == 'r' {
                '\r'
            } else if d == 't' {
                '\t'
            } else {
                d
            };
            out.push(u);
            assert(rest.skip(2) =~= s@.skip(i + 2));
            proof {
                match quoted(rest.skip(2)) {
                    Some(r) => {
                        assert(before + (seq![u] + r) =~= out@ + r);
                    },
                    None => {},
                }
            }
            i += 2;
        } else {
            out.push(c);
            assert(rest.skip(1) =~= s@.skip(i + 1));
            proof {
                match quoted(rest.skip(1)) {
                    Some(r) => {
                        assert(before + (seq![c] + r) =~= out@ + r);
                    },
                    None => {},
                }
            }
            i += 1;
        }
    }
    None
}

/// `head` in front of a text, where there is one.
pub open spec fn prepended(head: Seq<char>, tail: Option<Seq<char>>) -> Option<Seq<char>> {
    match tail {
        Some(t) => Some(head + t),
        None => None,
    }
}

/// The string value behind the first occurrence of the quoted name.
pub fn extract_json_string(s: &str, key: &str) -> (r: Option<String>)
    ensures
        chars::opt_text(r) == string_value(s@, key@),
{
    match rest_after_colon(s, key) {
        Some(value) => {
            let v = text::trim_start(value);
            match text::after_prefix(v, "\"") {
                Some(body) => {
                    proof {
                        reveal_strlit("\"");
                        assert(v@.take(1)[0] == v@[0]);
                    }
                    read_quoted(body)
                },
                None => {
                    proof {
                        reveal_strlit("\"");
                        if v@.len() > 0 && v@[0] == '"' {
                            assert(v@.take(1) =~= "\""@);
                        }
                    }
                    None
                },
            }
        },
        None => None,
    }
}

/// The boolean value behind the first occurrence of the quoted name.
pub fn extract_json_bool(s: &str, key: &str) -> (r: Option<bool>)
    ensures
        r == bool_value(s@, key@),
{
    match rest_after_key(s, key) {
        Some(rest) => match text::after_prefix(text::trim_start(rest), ":") {
            Some(value) => {
                let v = text::trim_start(value);
                if text::starts_with(v, "true") {
                    Some(true)
                } else if text::starts_with(v, "false") {
                    Some(false)
                } else {
                    None
                }
            },
            None => None,
        },
        None => None,
    }
}

/// Length of the block in braces that starts the text.
fn block_end(block: &str) -> (r: Option<usize>)
    ensures
        match r {
            Some(k) => block_len(block@, 0, false) == Some(k as nat) && k <= block@.len(),
            None => block_len(block@, 0, false) is None,
        },
{
    let v = text::chars_of(block);
    let mut i: usize = 0;
    let mut depth: usize = 0;
    let mut in_string = false;
    assert(block@.skip(0) =~= block@);
    assert(plus(0, block_len(block@, 0, false)) == block_len(block@, 0, false));
    while i < v.len()
        invariant
            depth <= i <= v.len(),
            v@ == block@,
            block_len(block@, 0, false) == plus(
                i as nat,
                block_len(block@.skip(i as int), depth as nat, in_string),
            ),
        decreases v.len() - i,
    {
        let ghost rest = block@.skip(i as int);
        let c = v[i];
        assert(rest[0] == c);
        assert(rest.skip(1) =~= block@.skip(i + 1));
        if in_string && c == '\\' {
            if i + 1 >= v.len() {
                return None;
            }
            assert(rest.skip(2) =~= block@.skip(i + 2));
            i += 2;
            continue ;
        }
        if c == '"' {
            in_string = !in_string;
        } else if in_string {
        } else if c == '{' {
            depth += 1;
        } else if c == '}' {
            if depth <= 1 {
                return Some(i + 1);
            }
            depth -= 1;
        }
        i += 1;
    }
    None
}

/// The block in braces behind the first occurrence of the quoted name.
pub fn extract_object<'a>(s: &'a str, key: &str) -> (r: Option<&'a str>)
    ensures
        match r {
            Some(t) => object_value(s@, key@) == Some(t@),
            None => object_value(s@, key@) is None,
        },
{
    let m = marker_text(key);
    let p: usize = match text::find(s, m.as_str()) {
        Some(p) => p,
        None => {
            return None;
        },
    };
    let n: usize = s.unicode_len();
    let from = s.substring_char(p, n);
    assert(from@ =~= s@.skip(p as int));
    let o: usize = match text::find(from, "{") {
        Some(o) => o,
        None => {
            return None;
        },
    };
    let block = from.substring_char(o, n - p);
    assert(block@ =~= from@.skip(o as int));
    match block_end(block) {
        Some(k) => Some(block.substring_char(0, k)),
        None => None,
    }
}

/// The numbers of a comma-separated list.
pub fn parse_number_list(s: &str) -> (r: BTreeSet<i64>)
    ensures
        r@ == number_list(s@),
{
    broadcast use vstd::std_specs::btree::group_btree_axioms;

    let parts = text::pieces(s, CharSet::Only(','));
    let mut out: BTreeSet<i64> = BTreeSet::new();
    let ghost all = chars::texts(parts@);
    let mut i: usize = 0;
    assert(all.take(0) =~= Seq::empty());
    while i < parts.len()
        invariant
            i <= parts.len(),
            all == chars::texts(parts@),
            out@ == numbers_in(all.take(i as int)),
        decreases parts.len() - i,
    {
        assert(all.take(i + 1).drop_last() =~= all.take(i as int));
        match numbers::parse_i64(text::trim(parts[i])) {
            Some(n) => {
                out.insert(n);
            },
            None => {},
        }
        i += 1;
    }
    assert(all.take(i as int) =~= all);
    out
}

/// The numbers of the array behind the first occurrence of the quoted name.
pub fn extract_json_i64_array(s: &str, key: &str) -> (r: BTreeSet<i64>)
    ensures
        r@ == array_value(s@, key@),
{
    match rest_after_colon(s, key) {
        Some(rest) => match text::around(rest, "[") {
            Some((_, list)) => match text::around(list, "]") {
                Some((inner, _)) => parse_number_list(inner),
                None => BTreeSet::new(),
            },
            None => BTreeSet::new(),
        },
        None => BTreeSet::new(),
    }
}

pub proof fn lemma_prepended(a: Seq<char>, b: Seq<char>, t: Option<Seq<char>>)
    ensures
        prepended(a, prepended(b, t)) == prepended(a + b, t),
{
    match t {
        Some(r) => {
            assert(a + (b + r) =~= (a + b) + r);
        },
        None => {},
    }
}

/// The numbers of a list are finitely many.
pub proof fn lemma_numbers_finite(parts: Seq<Seq<char>>)
    ensures
        numbers_in(parts).finite(),
    decreases parts.len(),
{
    if parts.len() > 0 {
        lemma_numbers_finite(parts.drop_last());
    }
}

// ---------------------------------------------------------------------------
// Laws
// ---------------------------------------------------------------------------

/// A character as it is read back from a quoted string: a control character
/// without an escape of its own has become a space.
pub open spec fn shown_char(c: char) -> char {
    if chars::is_control(c) && c != '\n' && c != '\r' && c != '\t' {
        ' '
    } else {
        c
    }
}

/// A text as it is read back from a quoted string.
pub open spec fn shown(s: Seq<char>) -> Seq<char> {
    s.map_values(|c: char| shown_char(c))
}

pub proof fn lemma_escaped_first(s: Seq<char>)
    requires
        s.len() > 0,
    ensures
        escaped(s) == escape_char(s[0]) + escaped(s.skip(1)),
    decreases s.len(),
{
    let init = s.drop_last();
    if init.len() == 0 {
        assert(s.skip(1) =~= seq![]);
        assert(init =~= seq![]);
        assert(escaped(s) =~= escape_char(s[0]) + escaped(s.skip(1)));
    } else {
        lemma_escaped_first(init);
        assert(init.skip(1) =~= s.skip(1).drop_last());
        assert(escaped(s) =~= escape_char(s[0]) + escaped(s.skip(1)));
    }
}

/// What was escaped reads back, whatever follows its closing quote; only control
/// characters without an escape of their own have become spaces.
pub proof fn law_escaped_reads_back(s: Seq<char>, rest: Seq<char>)
    ensures
        quoted(escaped(s) + seq!['"'] + rest) == Some(shown(s)),
    decreases s.len(),
{
    let all = escaped(s) + seq!['"'] + rest;
    if s.len() == 0 {
        assert(all[0] == '"');
        assert(shown(s) =~= seq![]);
    } else {
        let tail = escaped(s.skip(1)) + seq!['"'] + rest;
        lemma_escaped_first(s);
        law_escaped_reads_back(s.skip(1), rest);
        let e = escape_char(s[0]);
        assert(all =~= e + tail);
        assert(all.skip(e.len() as int) =~= tail);
        assert(shown(s) =~= seq![shown_char(s[0])] + shown(s.skip(1)));
        assert(all[0] == e[0]);
        if e.len() == 2 {
            assert(all[1] == e[1]);
        }
    }
}

}
