//! What the configuration file gives back of the settings that it was written
//! from. Values are found in the file by the name in front of them, wherever that
//! name stands in quotes, so the settings that read back are those of which none
//! is taken for a name.
use vstd::prelude::*;

use crate::chars;
use crate::chars::CharSet;
use crate::config::{
    agent_entries, agents_section, config_in, field, llm_block, llm_fields, llm_in, llm_texts,
    mode_in, mode_section, number_texts, rendered, routing_in, routing_lines, rule_in, sections,
    telegram_section, with_primary, AdvisorModel, FileModel, LlmModel, Routing, TelegramModel,
};
use crate::json;
use crate::json::{
    after_key, block_len, escape_char, escaped, marker, object_value, plus, shown, string_value,
};
use crate::numbers;
use crate::order;
use crate::types::{law_choice_labels, law_mode_labels, AdvisorMode, AgentChoice, MessageClass};

verus! {

// ---------------------------------------------------------------------------
// Finding a name
// ---------------------------------------------------------------------------

/// The letters and the underscore, of which the names in the file are made.
pub open spec fn name_char(c: char) -> bool {
    CharSet::IdentStart.has(c)
}

/// A name that the file's reader looks for.
pub open spec fn plain(k: Seq<char>) -> bool {
    forall|i: int| 0 <= i < k.len() ==> name_char(#[trigger] k[i])
}

/// No character of the text is the given one.
pub open spec fn lacks(s: Seq<char>, c: char) -> bool {
    forall|i: int| 0 <= i < s.len() ==> #[trigger] s[i] != c
}

/// A value is taken for a name: it is the name, or ends in a quote and the name.
pub open spec fn clash(v: Seq<char>, k: Seq<char>) -> bool {
    v == k || ends_quoted(v, k)
}

/// A text ends in a quote and the name.
pub open spec fn ends_quoted(v: Seq<char>, k: Seq<char>) -> bool {
    v.len() > k.len() && v.skip(v.len() - k.len() - 1) == seq!['"'] + k
}

/// A text does not go on with a name.
pub open spec fn apart(s: Seq<char>) -> bool {
    s.len() > 0 && !name_char(s[0])
}

/// A value in quotes.
pub open spec fn quo(v: Seq<char>) -> Seq<char> {
    seq!['"'] + escaped(v) + seq!['"']
}

proof fn lemma_marker(k: Seq<char>)
    ensures
        marker(k) == seq!['"'] + k + seq!['"'],
{
    reveal_strlit("\"");
    assert("\""@ =~= seq!['"']);
}

/// The search goes on where the text does not start with the name.
proof fn lemma_key_step(s: Seq<char>, k: Seq<char>)
    requires
        s.len() > 0,
        !chars::starts_with(s, marker(k)),
    ensures
        after_key(s, k) == after_key(s.skip(1), k),
{
    let m = marker(k);
    chars::lemma_find(s.skip(1), m);
    match chars::find(s.skip(1), m) {
        Some(i) => {
            assert(s.skip(1).skip((i + m.len()) as int) =~= s.skip((i + 1 + m.len()) as int));
        },
        None => {},
    }
}

proof fn lemma_key_here(s: Seq<char>, k: Seq<char>)
    requires
        chars::starts_with(s, marker(k)),
    ensures
        after_key(s, k) == Some(s.skip(k.len() as int + 2)),
{
    lemma_marker(k);
    assert(marker(k).len() == k.len() + 2);
    assert(chars::find(s, marker(k)) == Some(0nat));
}

proof fn lemma_key_gap(g: Seq<char>, rest: Seq<char>, k: Seq<char>)
    requires
        lacks(g, '"'),
    ensures
        after_key(g + rest, k) == after_key(rest, k),
    decreases g.len(),
{
    if g.len() == 0 {
        assert(g + rest =~= rest);
    } else {
        let s = g + rest;
        lemma_marker(k);
        assert(s[0] == g[0]);
        if chars::starts_with(s, marker(k)) {
            assert(s.take(marker(k).len() as int)[0] == marker(k)[0]);
        }
        lemma_key_step(s, k);
        assert(s.skip(1) =~= g.skip(1) + rest);
        lemma_key_gap(g.skip(1), rest, k);
    }
}

/// A quoted text starts with a name and a quote only where it is the name.
proof fn lemma_same_name(v: Seq<char>, rest: Seq<char>, k: Seq<char>)
    requires
        plain(k),
    ensures
        chars::starts_with(escaped(v) + seq!['"'] + rest, k + seq!['"']) == (v == k),
    decreases v.len(),
{
    let s = escaped(v) + seq!['"'] + rest;
    let p = k + seq!['"'];
    if v.len() == 0 {
        assert(s[0] == '"');
        if k.len() == 0 {
            assert(v =~= k);
            assert(s.take(1) =~= p);
        } else {
            assert(name_char(k[0]));
            assert(p[0] == k[0]);
            if chars::starts_with(s, p) {
                assert(s.take(p.len() as int)[0] == s[0]);
            }
        }
    } else {
        json::lemma_escaped_first(v);
        let e = escape_char(v[0]);
        let tail = escaped(v.skip(1)) + seq!['"'] + rest;
        assert(s =~= e + tail);
        assert(s[0] == e[0]);
        if k.len() == 0 {
            assert(p[0] == '"');
            if chars::starts_with(s, p) {
                assert(s.take(p.len() as int)[0] == s[0]);
            }
        } else {
            assert(name_char(k[0]));
            assert(p[0] == k[0]);
            if e.len() == 2 || e[0] != v[0] || v[0] != k[0] {
                if chars::starts_with(s, p) {
                    assert(s.take(p.len() as int)[0] == s[0]);
                }
            } else {
                let k1 = k.skip(1);
                assert forall|i: int| 0 <= i < k1.len() implies name_char(#[trigger] k1[i]) by {
                    assert(k1[i] == k[i + 1]);
                }
                lemma_same_name(v.skip(1), rest, k1);
                let p1 = k1 + seq!['"'];
                assert(s.skip(1) =~= tail);
                if chars::starts_with(s, p) {
                    assert(tail.take(p1.len() as int) =~= s.take(p.len() as int).skip(1));
                    assert(p1 =~= p.skip(1));
                    assert(v =~= seq![v[0]] + v.skip(1));
                    assert(k =~= seq![k[0]] + k1);
                }
                if v == k {
                    assert(v.skip(1) =~= k1);
                    assert(s.take(p.len() as int) =~= seq![s[0]] + tail.take(p1.len() as int));
                    assert(p =~= seq![k[0]] + p1);
                }
            }
        }
    }
}

proof fn lemma_plain_escaped(k: Seq<char>)
    requires
        plain(k),
    ensures
        escaped(k) == k,
    decreases k.len(),
{
    if k.len() == 0 {
        assert(escaped(k) =~= k);
    } else {
        let init = k.drop_last();
        assert(plain(init)) by {
            assert forall|i: int| 0 <= i < init.len() implies name_char(#[trigger] init[i]) by {
                assert(init[i] == k[i]);
            }
        }
        lemma_plain_escaped(init);
        assert(name_char(k.last()));
        assert(escaped(k) =~= k);
    }
}

/// The search inside a quoted value, of which `v` is left.
proof fn lemma_key_inside(v: Seq<char>, rest: Seq<char>, k: Seq<char>)
    requires
        plain(k),
        k.len() > 0,
        apart(rest),
    ensures
        after_key(escaped(v) + seq!['"'] + rest, k) == (if ends_quoted(v, k) {
            Some(rest)
        } else {
            after_key(rest, k)
        }),
    decreases v.len(),
{
    let s = escaped(v) + seq!['"'] + rest;
    lemma_marker(k);
    let m = marker(k);
    if v.len() == 0 {
        assert(s =~= seq!['"'] + rest);
        if chars::starts_with(s, m) {
            assert(s.take(m.len() as int)[1] == m[1]);
            assert(m[1] == k[0]);
            assert(name_char(k[0]));
        }
        lemma_key_step(s, k);
        assert(s.skip(1) =~= rest);
    } else {
        json::lemma_escaped_first(v);
        let e = escape_char(v[0]);
        let v1 = v.skip(1);
        let tail = escaped(v1) + seq!['"'] + rest;
        assert(s =~= e + tail);
        lemma_key_inside(v1, rest, k);
        if v.len() > k.len() + 1 {
            assert(v1.skip(v1.len() - k.len() - 1) =~= v.skip(v.len() - k.len() - 1));
        } else if v.len() == k.len() + 1 {
            assert(v.skip(0) =~= v);
            assert((seq!['"'] + k).skip(1) =~= k);
            assert(v =~= seq![v[0]] + v1);
            assert(v == seq!['"'] + k ==> v[0] == '"' && v1 == k);
        }
        if v[0] == '"' {
            assert(s[0] == '\\');
            if chars::starts_with(s, m) {
                assert(s.take(m.len() as int)[0] == m[0]);
            }
            lemma_key_step(s, k);
            let s1 = s.skip(1);
            assert(s1 =~= seq!['"'] + tail);
            lemma_same_name(v1, rest, k);
            let p = k + seq!['"'];
            assert(m =~= seq!['"'] + p);
            if v1 == k {
                assert(s1.take(m.len() as int) =~= seq!['"'] + tail.take(p.len() as int));
                assert(chars::starts_with(s1, m));
                lemma_key_here(s1, k);
                lemma_plain_escaped(k);
                assert(s1.skip(k.len() as int + 2) =~= rest);
                assert(v =~= seq!['"'] + k);
                assert(v.skip(v.len() - k.len() - 1) =~= seq!['"'] + k);
            } else {
                if chars::starts_with(s1, m) {
                    assert(tail.take(p.len() as int) =~= s1.take(m.len() as int).skip(1));
                    assert(p =~= m.skip(1));
                }
                lemma_key_step(s1, k);
                assert(s1.skip(1) =~= tail);
            }
        } else {
            assert(lacks(e, '"'));
            lemma_key_gap(e, tail, k);
        }
    }
}

/// The search at a quoted value: it ends there where the value is taken for the
/// name.
proof fn lemma_key_quo(v: Seq<char>, rest: Seq<char>, k: Seq<char>)
    requires
        plain(k),
        k.len() > 0,
        apart(rest),
    ensures
        after_key(quo(v) + rest, k) == (if clash(v, k) {
            Some(rest)
        } else {
            after_key(rest, k)
        }),
{
    let s = quo(v) + rest;
    let inner = escaped(v) + seq!['"'] + rest;
    assert(s =~= seq!['"'] + inner);
    lemma_marker(k);
    let m = marker(k);
    let p = k + seq!['"'];
    assert(m =~= seq!['"'] + p);
    lemma_same_name(v, rest, k);
    if v == k {
        assert(s.take(m.len() as int) =~= seq!['"'] + inner.take(p.len() as int));
        lemma_key_here(s, k);
        lemma_plain_escaped(k);
        assert(s.skip(k.len() as int + 2) =~= rest);
    } else {
        if chars::starts_with(s, m) {
            assert(inner.take(p.len() as int) =~= s.take(m.len() as int).skip(1));
            assert(p =~= m.skip(1));
        }
        lemma_key_step(s, k);
        assert(s.skip(1) =~= inner);
        lemma_key_inside(v, rest, k);
    }
}

// ---------------------------------------------------------------------------
// The value behind a name
// ---------------------------------------------------------------------------

/// The string behind the next colon.
pub open spec fn string_at(s: Seq<char>) -> Option<Seq<char>> {
    match chars::around(s, ":"@) {
        Some((_, value)) => {
            let v = chars::trim_start(value);
            if v.len() > 0 && v[0] == '"' {
                json::quoted(v.skip(1))
            } else {
                None
            }
        },
        None => None,
    }
}

/// The block behind the next brace.
pub open spec fn block_at(s: Seq<char>) -> Option<Seq<char>> {
    match chars::find(s, "{"@) {
        Some(o) => {
            let block = s.skip(o as int);
            match block_len(block, 0, false) {
                Some(n) => Some(block.take(n as int)),
                None => None,
            }
        },
        None => None,
    }
}

/// A single character is found behind a text that lacks it.
proof fn lemma_find_char(g: Seq<char>, rest: Seq<char>, c: char)
    requires
        lacks(g, c),
    ensures
        chars::find(g + rest, seq![c]) == plus(g.len(), chars::find(rest, seq![c])),
    decreases g.len(),
{
    if g.len() == 0 {
        assert(g + rest =~= rest);
    } else {
        let s = g + rest;
        assert(s[0] == g[0]);
        if chars::starts_with(s, seq![c]) {
            assert(s.take(1)[0] == c);
        }
        assert(s.skip(1) =~= g.skip(1) + rest);
        lemma_find_char(g.skip(1), rest, c);
    }
}

proof fn lemma_string_gap(g: Seq<char>, rest: Seq<char>)
    requires
        lacks(g, ':'),
    ensures
        string_at(g + rest) == string_at(rest),
{
    reveal_strlit(":");
    assert(":"@ =~= seq![':']);
    lemma_find_char(g, rest, ':');
    match chars::find(rest, seq![':']) {
        Some(i) => {
            chars::lemma_find(rest, seq![':']);
            assert((g + rest).skip((g.len() + i + 1) as int) =~= rest.skip((i + 1) as int));
        },
        None => {},
    }
}

/// The string behind a colon and a space.
proof fn lemma_string_here(v: Seq<char>, rest: Seq<char>)
    ensures
        string_at(": "@ + (quo(v) + rest)) == Some(shown(v)),
{
    reveal_strlit(":");
    reveal_strlit(": ");
    let s = ": "@ + (quo(v) + rest);
    assert(":"@ =~= seq![':']);
    assert(s.take(1) =~= seq![':']);
    assert(chars::find(s, ":"@) == Some(0nat));
    let value = s.skip(1);
    assert(value =~= seq![' '] + (quo(v) + rest));
    chars::lemma_drop_leading_is(value, CharSet::White, 1);
    let w = value.skip(1);
    assert(w =~= quo(v) + rest);
    assert(w.skip(1) =~= escaped(v) + seq!['"'] + rest);
    json::law_escaped_reads_back(v, rest);
}

proof fn lemma_string_none(g: Seq<char>)
    requires
        lacks(g, ':'),
    ensures
        string_at(g) is None,
{
    let none = Seq::<char>::empty();
    lemma_string_gap(g, none);
    assert(g + none =~= g);
    reveal_strlit(":");
    assert(":"@.len() == 1);
}

proof fn lemma_block_gap(g: Seq<char>, rest: Seq<char>)
    requires
        lacks(g, '{'),
    ensures
        block_at(g + rest) == block_at(rest),
{
    reveal_strlit("{");
    assert("{"@ =~= seq!['{']);
    lemma_find_char(g, rest, '{');
    match chars::find(rest, seq!['{']) {
        Some(i) => {
            chars::lemma_find(rest, seq!['{']);
            assert((g + rest).skip((g.len() + i) as int) =~= rest.skip(i as int));
        },
        None => {},
    }
}

proof fn lemma_block_none(g: Seq<char>)
    requires
        lacks(g, '{'),
    ensures
        block_at(g) is None,
{
    let none = Seq::<char>::empty();
    lemma_block_gap(g, none);
    assert(g + none =~= g);
    reveal_strlit("{");
    assert("{"@.len() == 1);
}

/// A block is looked for behind its name.
proof fn lemma_object(s: Seq<char>, k: Seq<char>)
    requires
        plain(k),
    ensures
        object_value(s, k) == (match after_key(s, k) {
            Some(rest) => block_at(rest),
            None => None,
        }),
{
    let m = marker(k);
    lemma_marker(k);
    chars::lemma_find(s, m);
    match chars::find(s, m) {
        Some(p) => {
            let from = s.skip(p as int);
            let rest = s.skip((p + m.len()) as int);
            assert(from.take(m.len() as int) == m);
            assert(from =~= m + rest) by {
                assert(from =~= from.take(m.len() as int) + from.skip(m.len() as int));
                assert(from.skip(m.len() as int) =~= rest);
            }
            assert forall|i: int| 0 <= i < m.len() implies #[trigger] m[i] != '{' by {
                if 0 < i < m.len() - 1 {
                    assert(m[i] == k[i - 1]);
                    assert(name_char(k[i - 1]));
                }
            }
            lemma_block_gap(m, rest);
            assert(object_value(s, k) == block_at(from));
        },
        None => {},
    }
}

proof fn lemma_object_gap(g: Seq<char>, rest: Seq<char>, k: Seq<char>)
    requires
        lacks(g, '"'),
        plain(k),
    ensures
        object_value(g + rest, k) == object_value(rest, k),
{
    lemma_key_gap(g, rest, k);
    lemma_object(g + rest, k);
    lemma_object(rest, k);
}

proof fn lemma_object_quo(v: Seq<char>, rest: Seq<char>, k: Seq<char>)
    requires
        plain(k),
        k.len() > 0,
        apart(rest),
    ensures
        object_value(quo(v) + rest, k) == (if clash(v, k) {
            block_at(rest)
        } else {
            object_value(rest, k)
        }),
{
    lemma_key_quo(v, rest, k);
    lemma_object(quo(v) + rest, k);
    lemma_object(rest, k);
}

// ---------------------------------------------------------------------------
// Blocks
// ---------------------------------------------------------------------------

/// A text that neither opens nor closes a block.
pub open spec fn neutral(x: Seq<char>) -> bool {
    forall|d: nat, rest: Seq<char>|
        d >= 1 ==> #[trigger] block_len(x + rest, d, false) == plus(
            x.len(),
            block_len(rest, d, false),
        )
}

/// A block with its braces.
pub open spec fn braced(x: Seq<char>) -> Seq<char> {
    seq!['{'] + x + seq!['}']
}

/// A text without quotes and braces.
pub open spec fn bare(g: Seq<char>) -> bool {
    lacks(g, '"') && lacks(g, '{') && lacks(g, '}')
}

proof fn lemma_len_gap(g: Seq<char>, rest: Seq<char>, d: nat)
    requires
        bare(g),
    ensures
        block_len(g + rest, d, false) == plus(g.len(), block_len(rest, d, false)),
    decreases g.len(),
{
    if g.len() == 0 {
        assert(g + rest =~= rest);
    } else {
        let s = g + rest;
        assert(s[0] == g[0]);
        assert(s.skip(1) =~= g.skip(1) + rest);
        lemma_len_gap(g.skip(1), rest, d);
    }
}

proof fn lemma_len_inside(v: Seq<char>, rest: Seq<char>, d: nat)
    ensures
        block_len(escaped(v) + seq!['"'] + rest, d, true) == plus(
            escaped(v).len() + 1,
            block_len(rest, d, false),
        ),
    decreases v.len(),
{
    let s = escaped(v) + seq!['"'] + rest;
    if v.len() == 0 {
        assert(s =~= seq!['"'] + rest);
        assert(s.skip(1) =~= rest);
    } else {
        json::lemma_escaped_first(v);
        let e = escape_char(v[0]);
        let tail = escaped(v.skip(1)) + seq!['"'] + rest;
        assert(s =~= e + tail);
        lemma_len_inside(v.skip(1), rest, d);
        assert(s[0] == e[0]);
        assert(s.skip(e.len() as int) =~= tail);
    }
}

proof fn lemma_neutral_gap(g: Seq<char>)
    requires
        bare(g),
    ensures
        neutral(g),
{
    assert forall|d: nat, rest: Seq<char>|
        d >= 1 implies #[trigger] block_len(g + rest, d, false) == plus(
        g.len(),
        block_len(rest, d, false),
    ) by {
        lemma_len_gap(g, rest, d);
    }
}

proof fn lemma_neutral_quo(v: Seq<char>)
    ensures
        neutral(quo(v)),
{
    let x = quo(v);
    assert forall|d: nat, rest: Seq<char>|
        d >= 1 implies #[trigger] block_len(x + rest, d, false) == plus(
        x.len(),
        block_len(rest, d, false),
    ) by {
        let s = x + rest;
        assert(s[0] == '"');
        assert(s.skip(1) =~= escaped(v) + seq!['"'] + rest);
        lemma_len_inside(v, rest, d);
    }
}

proof fn lemma_neutral_join(x: Seq<char>, y: Seq<char>)
    requires
        neutral(x),
        neutral(y),
    ensures
        neutral(x + y),
{
    assert forall|d: nat, rest: Seq<char>|
        d >= 1 implies #[trigger] block_len((x + y) + rest, d, false) == plus(
        (x + y).len(),
        block_len(rest, d, false),
    ) by {
        assert((x + y) + rest =~= x + (y + rest));
        assert(block_len(y + rest, d, false) == plus(y.len(), block_len(rest, d, false)));
    }
}

proof fn lemma_neutral_braced(x: Seq<char>)
    requires
        neutral(x),
    ensures
        neutral(braced(x)),
{
    let b = braced(x);
    assert forall|d: nat, rest: Seq<char>|
        d >= 1 implies #[trigger] block_len(b + rest, d, false) == plus(
        b.len(),
        block_len(rest, d, false),
    ) by {
        let s = b + rest;
        let tail = seq!['}'] + rest;
        assert(s[0] == '{');
        assert(s.skip(1) =~= x + tail);
        assert(block_len(x + tail, d + 1, false) == plus(x.len(), block_len(tail, d + 1, false)));
        assert(tail[0] == '}');
        assert(tail.skip(1) =~= rest);
    }
}

/// The block that stands behind a text without an opening brace.
proof fn lemma_block_here(g: Seq<char>, x: Seq<char>, rest: Seq<char>)
    requires
        lacks(g, '{'),
        neutral(x),
    ensures
        block_at(g + (braced(x) + rest)) == Some(braced(x)),
{
    let s = braced(x) + rest;
    lemma_block_gap(g, s);
    reveal_strlit("{");
    assert("{"@ =~= seq!['{']);
    assert(s.take(1) =~= seq!['{']);
    assert(chars::find(s, "{"@) == Some(0nat));
    assert(s.skip(0) =~= s);
    let tail = seq!['}'] + rest;
    assert(s.skip(1) =~= x + tail);
    assert(block_len(x + tail, 1, false) == plus(x.len(), block_len(tail, 1, false)));
    assert(tail[0] == '}');
    assert(s.take(braced(x).len() as int) =~= braced(x));
}

// ---------------------------------------------------------------------------
// Fields
// ---------------------------------------------------------------------------

/// Names with their values, one after the other.
pub open spec fn fields_text(fs: Seq<(Seq<char>, Seq<char>)>, sep: Seq<char>) -> Seq<char>
    decreases fs.len(),
{
    if fs.len() == 0 {
        seq![]
    } else {
        quo(fs[0].0) + (": "@ + (quo(fs[0].1) + (if fs.len() == 1 {
            seq![]
        } else {
            sep + fields_text(fs.skip(1), sep)
        })))
    }
}

/// The value that is read for a name: where a value is taken for the name, the
/// one that follows it.
pub open spec fn found(fs: Seq<(Seq<char>, Seq<char>)>, k: Seq<char>) -> Option<Seq<char>>
    decreases fs.len(),
{
    if fs.len() == 0 {
        None
    } else if clash(fs[0].0, k) {
        Some(shown(fs[0].1))
    } else if clash(fs[0].1, k) {
        if fs.len() == 1 {
            None
        } else {
            Some(shown(fs[1].1))
        }
    } else {
        found(fs.skip(1), k)
    }
}

/// A value is taken for the name.
pub open spec fn any_clash(fs: Seq<(Seq<char>, Seq<char>)>, k: Seq<char>) -> bool
    decreases fs.len(),
{
    fs.len() > 0 && (clash(fs[0].1, k) || any_clash(fs.skip(1), k))
}

/// A value is taken for the name, and one behind it holds an opening brace.
pub open spec fn crossed(fs: Seq<(Seq<char>, Seq<char>)>, k: Seq<char>) -> bool
    decreases fs.len(),
{
    fs.len() > 0 && (if clash(fs[0].1, k) {
        braces_in(fs.skip(1))
    } else {
        crossed(fs.skip(1), k)
    })
}

/// A value holds an opening brace.
pub open spec fn braces_in(fs: Seq<(Seq<char>, Seq<char>)>) -> bool {
    exists|i: int| 0 <= i < fs.len() && !lacks(#[trigger] fs[i].1, '{')
}

/// The names of fields are names.
pub open spec fn named(fs: Seq<(Seq<char>, Seq<char>)>) -> bool {
    forall|i: int| 0 <= i < fs.len() ==> plain(#[trigger] fs[i].0)
}

/// No field goes by the name.
pub open spec fn without_name(fs: Seq<(Seq<char>, Seq<char>)>, k: Seq<char>) -> bool {
    forall|i: int| 0 <= i < fs.len() ==> !clash(#[trigger] fs[i].0, k)
}

/// What separates fields.
pub open spec fn separates(sep: Seq<char>) -> bool {
    bare(sep) && lacks(sep, ':') && sep.len() > 0 && sep[0] == ','
}

/// What follows the last field.
pub open spec fn ends(rest: Seq<char>) -> bool {
    lacks(rest, '"') && lacks(rest, ':') && apart(rest)
}

/// A text that goes on without the name and without a string.
pub open spec fn closes(rest: Seq<char>, k: Seq<char>) -> bool {
    apart(rest) && after_key(rest, k) is None && string_at(rest) is None
}

proof fn lemma_ends_closes(rest: Seq<char>, k: Seq<char>)
    requires
        ends(rest),
    ensures
        closes(rest, k),
{
    lemma_key_end(rest, k);
    lemma_string_none(rest);
}

proof fn lemma_plain_quo(n: Seq<char>)
    requires
        plain(n),
    ensures
        lacks(quo(n), ':'),
        lacks(quo(n), '{'),
{
    lemma_plain_escaped(n);
    let q = quo(n);
    assert forall|i: int| 0 <= i < q.len() implies #[trigger] q[i] != ':' && q[i] != '{' by {
        if 0 < i < q.len() - 1 {
            assert(q[i] == n[i - 1]);
            assert(name_char(n[i - 1]));
        }
    }
}

proof fn lemma_lacks_join(a: Seq<char>, b: Seq<char>, c: char)
    requires
        lacks(a, c),
        lacks(b, c),
    ensures
        lacks(a + b, c),
{
}

proof fn lemma_escaped_brace(v: Seq<char>)
    requires
        lacks(v, '{'),
    ensures
        lacks(escaped(v), '{'),
    decreases v.len(),
{
    if v.len() > 0 {
        lemma_escaped_brace(v.drop_last());
        lemma_lacks_join(escaped(v.drop_last()), escape_char(v.last()), '{');
    }
}

/// What follows the value of the first field.
spec fn tail_of(fs: Seq<(Seq<char>, Seq<char>)>, sep: Seq<char>, rest: Seq<char>) -> Seq<char> {
    if fs.len() == 1 {
        rest
    } else {
        sep + (fields_text(fs.skip(1), sep) + rest)
    }
}

proof fn lemma_fields_unfold(fs: Seq<(Seq<char>, Seq<char>)>, sep: Seq<char>, rest: Seq<char>)
    requires
        fs.len() > 0,
    ensures
        fields_text(fs, sep) + rest == quo(fs[0].0) + (": "@ + (quo(fs[0].1) + tail_of(
            fs,
            sep,
            rest,
        ))),
{
    assert(fields_text(fs, sep) + rest =~= quo(fs[0].0) + (": "@ + (quo(fs[0].1) + tail_of(
        fs,
        sep,
        rest,
    ))));
}

proof fn lemma_colon()
    ensures
        ": "@ == seq![':', ' '],
        bare(": "@),
        apart(": "@),
{
    reveal_strlit(": ");
    assert(": "@ =~= seq![':', ' ']);
}

proof fn lemma_key_end(rest: Seq<char>, k: Seq<char>)
    requires
        lacks(rest, '"'),
    ensures
        after_key(rest, k) is None,
{
    let none = Seq::<char>::empty();
    lemma_key_gap(rest, none, k);
    assert(rest + none =~= rest);
    lemma_marker(k);
    assert(marker(k).len() > 0);
}

/// The name is looked for in the first field, and behind it.
proof fn lemma_key_field(
    fs: Seq<(Seq<char>, Seq<char>)>,
    sep: Seq<char>,
    rest: Seq<char>,
    k: Seq<char>,
)
    requires
        fs.len() > 0,
        plain(k),
        k.len() > 0,
        separates(sep),
        apart(rest),
    ensures
        after_key(fields_text(fs, sep) + rest, k) == (if clash(fs[0].0, k) {
            Some(": "@ + (quo(fs[0].1) + tail_of(fs, sep, rest)))
        } else if clash(fs[0].1, k) {
            Some(tail_of(fs, sep, rest))
        } else if fs.len() == 1 {
            after_key(rest, k)
        } else {
            after_key(fields_text(fs.skip(1), sep) + rest, k)
        }),
{
    lemma_colon();
    lemma_fields_unfold(fs, sep, rest);
    let tail = tail_of(fs, sep, rest);
    let value = quo(fs[0].1) + tail;
    assert(apart(": "@ + value));
    lemma_key_quo(fs[0].0, ": "@ + value, k);
    lemma_key_gap(": "@, value, k);
    assert(apart(tail));
    lemma_key_quo(fs[0].1, tail, k);
    if fs.len() > 1 {
        lemma_key_gap(sep, fields_text(fs.skip(1), sep) + rest, k);
    }
}

proof fn lemma_string_fields(
    fs: Seq<(Seq<char>, Seq<char>)>,
    sep: Seq<char>,
    rest: Seq<char>,
    k: Seq<char>,
)
    requires
        named(fs),
        plain(k),
        k.len() > 0,
        separates(sep),
        closes(rest, k),
    ensures
        string_value(fields_text(fs, sep) + rest, k) == found(fs, k),
    decreases fs.len(),
{
    let s = fields_text(fs, sep) + rest;
    if fs.len() == 0 {
        assert(s =~= rest);
    } else {
        lemma_key_field(fs, sep, rest, k);
        let tail = tail_of(fs, sep, rest);
        lemma_string_here(fs[0].1, tail);
        let more = fs.skip(1);
        if fs.len() == 1 {
            assert(found(more, k) is None);
        } else {
            assert(named(more)) by {
                assert forall|i: int| 0 <= i < more.len() implies plain(#[trigger] more[i].0) by {
                    assert(more[i] == fs[i + 1]);
                }
            }
            lemma_string_fields(more, sep, rest, k);
            lemma_string_gap(sep, fields_text(more, sep) + rest);
            lemma_fields_unfold(more, sep, rest);
            assert(more[0] == fs[1]);
            let after = ": "@ + (quo(fs[1].1) + tail_of(more, sep, rest));
            lemma_plain_quo(more[0].0);
            lemma_string_gap(quo(more[0].0), after);
            lemma_string_here(fs[1].1, tail_of(more, sep, rest));
        }
    }
}

proof fn lemma_bool_fields(
    fs: Seq<(Seq<char>, Seq<char>)>,
    sep: Seq<char>,
    rest: Seq<char>,
    k: Seq<char>,
)
    requires
        without_name(fs, k),
        plain(k),
        k.len() > 0,
        separates(sep),
        ends(rest),
    ensures
        json::bool_value(fields_text(fs, sep) + rest, k) is None,
    decreases fs.len(),
{
    let s = fields_text(fs, sep) + rest;
    reveal_strlit(":");
    assert(":"@ =~= seq![':']);
    if fs.len() == 0 {
        assert(s =~= rest);
        lemma_key_end(rest, k);
    } else {
        lemma_key_field(fs, sep, rest, k);
        let tail = tail_of(fs, sep, rest);
        let more = fs.skip(1);
        assert(!clash(fs[0].0, k));
        if fs.len() == 1 {
            lemma_key_end(rest, k);
            chars::lemma_drop_leading(rest, CharSet::White);
            let t = chars::trim_start(rest);
            if chars::starts_with(t, ":"@) {
                assert(t.take(1)[0] == ':');
                assert(rest.contains(':'));
            }
        } else {
            assert(without_name(more, k)) by {
                assert forall|i: int| 0 <= i < more.len() implies !clash(
                    #[trigger] more[i].0,
                    k,
                ) by {
                    assert(more[i] == fs[i + 1]);
                }
            }
            lemma_bool_fields(more, sep, rest, k);
            assert(tail[0] == ',');
            assert(chars::trim_start(tail) == tail);
            if chars::starts_with(tail, ":"@) {
                assert(tail.take(1)[0] == ':');
            }
        }
    }
}

proof fn lemma_block_fields(fs: Seq<(Seq<char>, Seq<char>)>, sep: Seq<char>, rest: Seq<char>)
    requires
        named(fs),
        !braces_in(fs),
        separates(sep),
    ensures
        block_at(fields_text(fs, sep) + rest) == block_at(rest),
    decreases fs.len(),
{
    let s = fields_text(fs, sep) + rest;
    if fs.len() == 0 {
        assert(s =~= rest);
    } else {
        lemma_fields_unfold(fs, sep, rest);
        lemma_colon();
        let tail = tail_of(fs, sep, rest);
        lemma_plain_quo(fs[0].0);
        assert(lacks(fs[0].1, '{'));
        lemma_escaped_brace(fs[0].1);
        assert(lacks(quo(fs[0].1), '{'));
        lemma_block_gap(quo(fs[0].0), ": "@ + (quo(fs[0].1) + tail));
        lemma_block_gap(": "@, quo(fs[0].1) + tail);
        lemma_block_gap(quo(fs[0].1), tail);
        let more = fs.skip(1);
        if fs.len() > 1 {
            assert forall|i: int| 0 <= i < more.len() implies plain(#[trigger] more[i].0) by {
                assert(more[i] == fs[i + 1]);
            }
            assert(!braces_in(more)) by {
                assert forall|i: int| 0 <= i < more.len() implies lacks(#[trigger] more[i].1, '{') by {
                    assert(more[i] == fs[i + 1]);
                    assert(lacks(fs[i + 1].1, '{'));
                }
            }
            lemma_block_gap(sep, fields_text(more, sep) + rest);
            lemma_block_fields(more, sep, rest);
        }
    }
}

/// The search for a block past fields that do not go by its name.
proof fn lemma_object_fields(
    fs: Seq<(Seq<char>, Seq<char>)>,
    sep: Seq<char>,
    rest: Seq<char>,
    k: Seq<char>,
)
    requires
        named(fs),
        without_name(fs, k),
        !crossed(fs, k),
        plain(k),
        k.len() > 0,
        separates(sep),
        apart(rest),
    ensures
        object_value(fields_text(fs, sep) + rest, k) == (if any_clash(fs, k) {
            block_at(rest)
        } else {
            object_value(rest, k)
        }),
    decreases fs.len(),
{
    let s = fields_text(fs, sep) + rest;
    lemma_object(s, k);
    lemma_object(rest, k);
    if fs.len() == 0 {
        assert(s =~= rest);
    } else {
        lemma_key_field(fs, sep, rest, k);
        let more = fs.skip(1);
        assert(!clash(fs[0].0, k));
        assert(named(more) && without_name(more, k)) by {
            assert forall|i: int| 0 <= i < more.len() implies plain(#[trigger] more[i].0)
                && !clash(more[i].0, k) by {
                assert(more[i] == fs[i + 1]);
            }
        }
        if clash(fs[0].1, k) {
            if fs.len() > 1 {
                lemma_block_gap(sep, fields_text(more, sep) + rest);
                lemma_block_fields(more, sep, rest);
            }
        } else {
            if fs.len() > 1 {
                lemma_object_fields(more, sep, rest, k);
                lemma_object(fields_text(more, sep) + rest, k);
            } else {
                assert(!any_clash(more, k));
            }
        }
    }
}

proof fn lemma_neutral_fields(fs: Seq<(Seq<char>, Seq<char>)>, sep: Seq<char>)
    requires
        bare(sep),
    ensures
        neutral(fields_text(fs, sep)),
    decreases fs.len(),
{
    if fs.len() == 0 {
        lemma_neutral_gap(seq![]);
    } else {
        lemma_colon();
        let last = if fs.len() == 1 {
            seq![]
        } else {
            sep + fields_text(fs.skip(1), sep)
        };
        if fs.len() == 1 {
            lemma_neutral_gap(last);
        } else {
            lemma_neutral_fields(fs.skip(1), sep);
            lemma_neutral_gap(sep);
            lemma_neutral_join(sep, fields_text(fs.skip(1), sep));
        }
        lemma_neutral_quo(fs[0].0);
        lemma_neutral_quo(fs[0].1);
        lemma_neutral_gap(": "@);
        lemma_neutral_join(quo(fs[0].1), last);
        lemma_neutral_join(": "@, quo(fs[0].1) + last);
        lemma_neutral_join(quo(fs[0].0), ": "@ + (quo(fs[0].1) + last));
    }
}

// ---------------------------------------------------------------------------
// The names
// ---------------------------------------------------------------------------

/// A name is taken for no other one.
proof fn lemma_plain_clash(n: Seq<char>, k: Seq<char>)
    requires
        plain(n),
    ensures
        clash(n, k) == (n == k),
{
    if ends_quoted(n, k) {
        let i = n.len() - k.len() - 1;
        assert(n.skip(i)[0] == (seq!['"'] + k)[0]);
        assert(name_char(n[i]));
    }
}

/// The names of the file are names.
proof fn lemma_names()
    ensures
        plain("agents"@),
        plain("primary"@),
        plain("advisor"@),
        plain("provider"@),
        plain("url"@),
        plain("model"@),
        plain("api_key"@),
        plain("thinking"@),
        plain("advisor_mode"@),
        plain("mode"@),
        plain("routing"@),
        plain("minihow"@),
        plain("miniwhy"@),
        plain("miniwhat"@),
        plain("telegram"@),
        plain("bot_token"@),
        plain("token"@),
        plain("allowed_chats"@),
        plain("training"@),
        plain("trial"@),
        plain("work"@),
{
    reveal_strlit("agents");
    reveal_strlit("primary");
    reveal_strlit("advisor");
    reveal_strlit("provider");
    reveal_strlit("url");
    reveal_strlit("model");
    reveal_strlit("api_key");
    reveal_strlit("thinking");
    reveal_strlit("advisor_mode");
    reveal_strlit("mode");
    reveal_strlit("routing");
    reveal_strlit("minihow");
    reveal_strlit("miniwhy");
    reveal_strlit("miniwhat");
    reveal_strlit("telegram");
    reveal_strlit("bot_token");
    reveal_strlit("token");
    reveal_strlit("allowed_chats");
    reveal_strlit("training");
    reveal_strlit("trial");
    reveal_strlit("work");
}

/// The names of the file differ.
proof fn lemma_names_differ()
    ensures
        "agents"@.len() == 6,
        "primary"@.len() == 7,
        "advisor"@.len() == 7,
        "provider"@.len() == 8,
        "url"@.len() == 3,
        "model"@.len() == 5,
        "api_key"@.len() == 7,
        "thinking"@.len() == 8,
        "advisor_mode"@.len() == 12,
        "mode"@.len() == 4,
        "routing"@.len() == 7,
        "minihow"@.len() == 7,
        "miniwhy"@.len() == 7,
        "miniwhat"@.len() == 8,
        "telegram"@.len() == 8,
        "bot_token"@.len() == 9,
        "token"@.len() == 5,
        "allowed_chats"@.len() == 13,
        "training"@.len() == 8,
        "trial"@.len() == 5,
        "work"@.len() == 4,
        "agents"@[0] == 'a',
        "primary"@[0] == 'p',
        "advisor"@[0] == 'a',
        "provider"@[0] == 'p',
        "url"@[0] == 'u',
        "model"@[0] == 'm',
        "api_key"@[0] == 'a',
        "thinking"@[0] == 't',
        "advisor_mode"@[0] == 'a',
        "mode"@[0] == 'm',
        "routing"@[0] == 'r',
        "minihow"@[0] == 'm',
        "miniwhy"@[0] == 'm',
        "miniwhat"@[0] == 'm',
        "telegram"@[0] == 't',
        "bot_token"@[0] == 'b',
        "token"@[0] == 't',
        "allowed_chats"@[0] == 'a',
        "training"@[0] == 't',
        "trial"@[0] == 't',
        "work"@[0] == 'w',
        "minihow"@[4] == 'h',
        "miniwhy"@[4] == 'w',
        "telegram"@[1] == 'e',
        "training"@[1] == 'r',
        "thinking"@[1] == 'h',
        "token"@[1] == 'o',
        "trial"@[1] == 'r',
        "advisor"@[1] == 'd',
        "api_key"@[1] == 'p',
{
    reveal_strlit("agents");
    reveal_strlit("primary");
    reveal_strlit("advisor");
    reveal_strlit("provider");
    reveal_strlit("url");
    reveal_strlit("model");
    reveal_strlit("api_key");
    reveal_strlit("thinking");
    reveal_strlit("advisor_mode");
    reveal_strlit("mode");
    reveal_strlit("routing");
    reveal_strlit("minihow");
    reveal_strlit("miniwhy");
    reveal_strlit("miniwhat");
    reveal_strlit("telegram");
    reveal_strlit("bot_token");
    reveal_strlit("token");
    reveal_strlit("allowed_chats");
    reveal_strlit("training");
    reveal_strlit("trial");
    reveal_strlit("work");
}

// ---------------------------------------------------------------------------
// The texts that are written
// ---------------------------------------------------------------------------

proof fn lemma_field(name: Seq<char>, v: Seq<char>)
    requires
        plain(name),
    ensures
        field(name, v) == quo(name) + (": "@ + quo(v)),
{
    reveal_strlit("\"");
    reveal_strlit("\": \"");
    lemma_colon();
    lemma_plain_escaped(name);
    assert("\""@ =~= seq!['"']);
    assert("\": \""@ =~= seq!['"'] + ": "@ + seq!['"']);
    assert(field(name, v) =~= quo(name) + (": "@ + quo(v)));
}

pub proof fn lemma_join_left(parts: Seq<Seq<char>>, sep: Seq<char>)
    requires
        parts.len() > 1,
    ensures
        chars::join(parts, sep) == parts[0] + (sep + chars::join(parts.skip(1), sep)),
    decreases parts.len(),
{
    let init = parts.drop_last();
    if init.len() == 1 {
        assert(parts.skip(1) =~= seq![parts[1]]);
        assert(chars::join(init, sep) == init[0]);
    } else {
        lemma_join_left(init, sep);
        assert(init.skip(1) =~= parts.skip(1).drop_last());
        assert(chars::join(parts, sep) =~= parts[0] + (sep + chars::join(parts.skip(1), sep)));
    }
}

/// Lines of fields, one after the other.
proof fn lemma_lines(
    fs: Seq<(Seq<char>, Seq<char>)>,
    lines: Seq<Seq<char>>,
    indent: Seq<char>,
    sep: Seq<char>,
)
    requires
        fs.len() > 0,
        lines.len() == fs.len(),
        named(fs),
        forall|i: int|
            0 <= i < fs.len() ==> #[trigger] lines[i] == indent + field(fs[i].0, fs[i].1),
    ensures
        chars::join(lines, sep) == indent + fields_text(fs, sep + indent),
    decreases fs.len(),
{
    assert(plain(fs[0].0));
    lemma_field(fs[0].0, fs[0].1);
    assert(lines[0] == indent + field(fs[0].0, fs[0].1));
    if fs.len() == 1 {
        assert(lines[0] =~= indent + fields_text(fs, sep + indent));
    } else {
        let more = fs.skip(1);
        let rest = lines.skip(1);
        assert forall|i: int| 0 <= i < more.len() implies plain(#[trigger] more[i].0) by {
            assert(more[i] == fs[i + 1]);
        }
        assert forall|i: int| 0 <= i < more.len() implies #[trigger] rest[i] == indent + field(
            more[i].0,
            more[i].1,
        ) by {
            assert(rest[i] == lines[i + 1]);
        }
        lemma_lines(more, rest, indent, sep);
        lemma_join_left(lines, sep);
        assert(chars::join(lines, sep) =~= indent + fields_text(fs, sep + indent));
    }
}

/// The fields of a model.
pub open spec fn llm_pairs(m: LlmModel) -> Seq<(Seq<char>, Seq<char>)> {
    let three = seq![
        ("provider"@, m.provider),
        ("url"@, m.url),
        ("model"@, m.model),
    ];
    match m.api_key {
        Some(key) => if key.len() > 0 {
            three.push(("api_key"@, key))
        } else {
            three
        },
        None => three,
    }
}

/// What follows the texts of a model: that it thinks, where it does.
pub open spec fn llm_tail(m: LlmModel) -> Seq<char> {
    if m.thinking {
        ",\n      "@ + (quo("thinking"@) + (": true"@ + "\n    "@))
    } else {
        "\n    "@
    }
}

/// What a model's block holds.
pub open spec fn llm_inner(m: LlmModel) -> Seq<char> {
    "\n      "@ + (fields_text(llm_pairs(m), ",\n      "@) + llm_tail(m))
}

/// A block under its name.
pub open spec fn part(name: Seq<char>, inner: Seq<char>) -> Seq<char> {
    quo(name) + (": "@ + braced(inner))
}

proof fn lemma_spaces()
    ensures
        separates(",\n      "@),
        separates(",\n    "@),
        separates(",\n  "@),
        separates(",\n"@),
        ",\n      "@ == ",\n"@ + "      "@,
        "\n      "@ == "\n"@ + "      "@,
        ends("\n      "@),
        ends("\n    "@),
        ends("\n  "@),
        ends("\n"@),
        bare("\n      "@),
        bare("\n    "@),
        bare("\n  "@),
        bare("\n"@),
        bare("    "@),
        bare("  "@),
        "\n    }"@ == "\n    "@ + seq!['}'],
        "{\n"@ == seq!['{'] + "\n"@,
{
    reveal_strlit(",\n      ");
    reveal_strlit(",\n    ");
    reveal_strlit(",\n  ");
    reveal_strlit(",\n");
    reveal_strlit("      ");
    reveal_strlit("    ");
    reveal_strlit("  ");
    reveal_strlit("\n      ");
    reveal_strlit("\n    ");
    reveal_strlit("\n  ");
    reveal_strlit("\n");
    reveal_strlit("\n    }");
    reveal_strlit("{\n");
    assert(",\n      "@ =~= ",\n"@ + "      "@);
    assert("\n      "@ =~= "\n"@ + "      "@);
    assert("\n    }"@ =~= "\n    "@ + seq!['}']);
    assert("{\n"@ =~= seq!['{'] + "\n"@);
}

proof fn lemma_pairs_named(m: LlmModel)
    ensures
        named(llm_pairs(m)),
        llm_pairs(m).len() >= 3,
{
    lemma_names();
}

proof fn lemma_thinking_literals()
    ensures
        "      \"thinking\": true"@ == "      "@ + (quo("thinking"@) + ": true"@),
        ": true"@ == seq![':'] + (seq![' '] + "true"@),
        bare(": true"@),
        "true"@.len() == 4,
        "true"@[0] == 't',
{
    lemma_names();
    lemma_plain_escaped("thinking"@);
    reveal_strlit("      \"thinking\": true");
    reveal_strlit("      ");
    reveal_strlit("thinking");
    reveal_strlit(": true");
    reveal_strlit("true");
    assert("      \"thinking\": true"@ =~= "      "@ + (quo("thinking"@) + ": true"@));
    assert(": true"@ =~= seq![':'] + (seq![' '] + "true"@));
}

/// The lines of a model's block as one text.
proof fn lemma_llm_lines(m: LlmModel)
    ensures
        chars::join(llm_fields(m), ",\n"@) + "\n    "@ == "      "@ + (fields_text(
            llm_pairs(m),
            ",\n      "@,
        ) + llm_tail(m)),
{
    let fs = llm_pairs(m);
    let texts = llm_texts(m);
    lemma_pairs_named(m);
    lemma_spaces();
    lemma_lines(fs, texts, "      "@, ",\n"@);
    let body = fields_text(fs, ",\n      "@);
    if m.thinking {
        let x = "      \"thinking\": true"@;
        lemma_thinking_literals();
        assert(texts.push(x).drop_last() =~= texts);
        assert(chars::join(llm_fields(m), ",\n"@) == ("      "@ + body) + ",\n"@ + x);
        assert(("      "@ + body) + ",\n"@ + x + "\n    "@ =~= "      "@ + (body + llm_tail(m)));
    } else {
        assert(("      "@ + body) + "\n    "@ =~= "      "@ + (body + llm_tail(m)));
    }
}

proof fn lemma_block_regroup(
    indent: Seq<char>,
    name: Seq<char>,
    colon: Seq<char>,
    line: Seq<char>,
    body: Seq<char>,
)
    ensures
        (indent + seq!['"']) + name + (seq!['"'] + (colon + (seq!['{'] + line))) + (body
            + seq!['}']) == indent + ((seq!['"'] + name + seq!['"']) + (colon + (seq!['{'] + (line
            + body) + seq!['}']))),
{
    assert((indent + seq!['"']) + name + (seq!['"'] + (colon + (seq!['{'] + line))) + (body
        + seq!['}']) =~= indent + ((seq!['"'] + name + seq!['"']) + (colon + (seq!['{'] + (line
        + body) + seq!['}']))));
}

proof fn lemma_llm_text(name: Seq<char>, m: LlmModel)
    requires
        plain(name),
    ensures
        llm_block(name, m) == "    "@ + part(name, llm_inner(m)),
{
    lemma_spaces();
    lemma_colon();
    lemma_llm_lines(m);
    lemma_plain_escaped(name);
    reveal_strlit("    \"");
    reveal_strlit("    ");
    reveal_strlit("\": {\n");
    reveal_strlit("\n");
    assert("    \""@ =~= "    "@ + seq!['"']);
    assert("\": {\n"@ =~= seq!['"'] + (": "@ + (seq!['{'] + "\n"@)));
    let lines = chars::join(llm_fields(m), ",\n"@);
    let rest = fields_text(llm_pairs(m), ",\n      "@) + llm_tail(m);
    let body = "      "@ + rest;
    lemma_block_regroup("    "@, name, ": "@, "\n"@, body);
    let head = "    \""@ + name + "\": {\n"@;
    assert(head + lines + ("\n    "@ + seq!['}']) =~= head + ((lines + "\n    "@) + seq!['}']));
    assert("\n"@ + body =~= llm_inner(m));
}

/// What follows the texts of a model holds neither another name nor a string.
proof fn lemma_llm_tail(m: LlmModel, k: Seq<char>)
    requires
        plain(k),
        k.len() > 0,
        k != "thinking"@,
    ensures
        closes(llm_tail(m) + seq!['}'], k),
        lacks(llm_tail(m), '{'),
        apart(llm_tail(m)),
{
    let rest = llm_tail(m) + seq!['}'];
    lemma_spaces();
    lemma_names();
    if m.thinking {
        lemma_thinking_literals();
        lemma_plain_quo("thinking"@);
        let end = ": true"@ + ("\n    "@ + seq!['}']);
        assert(rest =~= ",\n      "@ + (quo("thinking"@) + end));
        lemma_key_gap(",\n      "@, quo("thinking"@) + end, k);
        assert(apart(end));
        lemma_plain_clash("thinking"@, k);
        lemma_key_quo("thinking"@, end, k);
        lemma_key_end(end, k);
        lemma_string_gap(",\n      "@, quo("thinking"@) + end);
        lemma_string_gap(quo("thinking"@), end);
        lemma_true_behind(end);
    } else {
        assert(ends(rest));
        lemma_ends_closes(rest, k);
    }
}

/// Behind the colon stands no string but `true`.
proof fn lemma_true_behind(end: Seq<char>)
    requires
        end == ": true"@ + ("\n    "@ + seq!['}']),
    ensures
        string_at(end) is None,
        chars::after_prefix(chars::trim_start(end), ":"@) matches Some(value)
            && chars::starts_with(chars::trim_start(value), "true"@),
{
    lemma_thinking_literals();
    reveal_strlit(":");
    assert(":"@ =~= seq![':']);
    let none = Seq::<char>::empty();
    let value = seq![' '] + ("true"@ + ("\n    "@ + seq!['}']));
    assert(end =~= none + (seq![':'] + value));
    lemma_around_char(none, ':', value);
    assert(value[0] == ' ' && value[1] == 't');
    chars::lemma_drop_leading_is(value, CharSet::White, 1);
    assert(value.skip(1) =~= "true"@ + ("\n    "@ + seq!['}']));
    assert(value.skip(1).take(4) =~= "true"@);
    assert(value.skip(1)[0] == 't');
    assert(end[0] == ':');
    assert(chars::trim_start(end) == end);
    assert(end.take(1) =~= seq![':']);
    assert(end.skip(1) =~= value);
}

proof fn lemma_string_gap_value(g: Seq<char>, rest: Seq<char>, k: Seq<char>)
    requires
        lacks(g, '"'),
    ensures
        string_value(g + rest, k) == string_value(rest, k),
        json::bool_value(g + rest, k) == json::bool_value(rest, k),
{
    lemma_key_gap(g, rest, k);
}

/// A model's settings as they are read back.
pub open spec fn llm_shown(m: LlmModel) -> LlmModel {
    LlmModel {
        provider: shown(m.provider),
        url: shown(m.url),
        model: shown(m.model),
        api_key: match m.api_key {
            Some(key) => if key.len() > 0 {
                Some(shown(key))
            } else {
                None
            },
            None => None,
        },
        thinking: m.thinking,
    }
}

/// No setting of a model is taken for the name of one that is read behind it,
/// unless that one follows at once.
pub open spec fn llm_clear(m: LlmModel) -> bool {
    &&& !clash(m.provider, "model"@)
    &&& !clash(m.provider, "api_key"@)
    &&& !clash(m.url, "api_key"@)
    &&& m.thinking ==> !any_clash(llm_pairs(m), "thinking"@)
}

/// The text of a model's block from its first field on.
proof fn lemma_llm_split(m: LlmModel)
    ensures
        braced(llm_inner(m)) == (seq!['{'] + "\n      "@) + (fields_text(
            llm_pairs(m),
            ",\n      "@,
        ) + (llm_tail(m) + seq!['}'])),
        lacks(seq!['{'] + "\n      "@, '"'),
{
    lemma_spaces();
    assert(braced(llm_inner(m)) =~= (seq!['{'] + "\n      "@) + (fields_text(
        llm_pairs(m),
        ",\n      "@,
    ) + (llm_tail(m) + seq!['}'])));
}

/// Whether a model thinks is read back.
proof fn lemma_thinking_read(m: LlmModel)
    requires
        llm_clear(m),
    ensures
        (json::bool_value(braced(llm_inner(m)), "thinking"@) == Some(true)) == m.thinking,
{
    let fs = llm_pairs(m);
    let sep = ",\n      "@;
    let rest = llm_tail(m) + seq!['}'];
    let head = seq!['{'] + "\n      "@;
    let tail = fields_text(fs, sep) + rest;
    let k = "thinking"@;
    lemma_llm_split(m);
    lemma_spaces();
    lemma_pairs_named(m);
    lemma_names();
    lemma_names_differ();
    lemma_string_gap_value(head, tail, k);
    assert forall|i: int| 0 <= i < fs.len() implies !clash(#[trigger] fs[i].0, k) by {
        lemma_plain_clash(fs[i].0, k);
    }
    if m.thinking {
        let end = ": true"@ + ("\n    "@ + seq!['}']);
        lemma_thinking_literals();
        assert(rest =~= sep + (quo(k) + end));
        assert(apart(rest));
        lemma_key_fields(fs, sep, rest, k);
        lemma_key_gap(sep, quo(k) + end, k);
        assert(apart(end));
        lemma_key_quo(k, end, k);
        lemma_true_behind(end);
    } else {
        assert(ends(rest));
        lemma_bool_fields(fs, sep, rest, k);
    }
}

proof fn lemma_llm_read(m: LlmModel)
    requires
        llm_clear(m),
    ensures
        llm_in(braced(llm_inner(m))) == Some(llm_shown(m)),
{
    let fs = llm_pairs(m);
    let sep = ",\n      "@;
    let rest = llm_tail(m) + seq!['}'];
    let head = seq!['{'] + "\n      "@;
    let tail = fields_text(fs, sep) + rest;
    lemma_llm_split(m);
    lemma_spaces();
    lemma_pairs_named(m);
    lemma_names();
    lemma_names_differ();
    lemma_string_gap_value(head, tail, "provider"@);
    lemma_string_gap_value(head, tail, "url"@);
    lemma_string_gap_value(head, tail, "model"@);
    lemma_string_gap_value(head, tail, "api_key"@);
    lemma_llm_tail(m, "provider"@);
    lemma_llm_tail(m, "url"@);
    lemma_llm_tail(m, "model"@);
    lemma_llm_tail(m, "api_key"@);
    lemma_string_fields(fs, sep, rest, "provider"@);
    lemma_string_fields(fs, sep, rest, "url"@);
    lemma_string_fields(fs, sep, rest, "model"@);
    lemma_string_fields(fs, sep, rest, "api_key"@);
    lemma_thinking_read(m);
    lemma_found(m);
}

proof fn lemma_found(m: LlmModel)
    requires
        llm_clear(m),
    ensures
        found(llm_pairs(m), "provider"@) == Some(shown(m.provider)),
        found(llm_pairs(m), "url"@) == Some(shown(m.url)),
        found(llm_pairs(m), "model"@) == Some(shown(m.model)),
        found(llm_pairs(m), "api_key"@) == llm_shown(m).api_key,
{
    let fs = llm_pairs(m);
    let (a, b, c, d) = ("provider"@, "url"@, "model"@, "api_key"@);
    lemma_names();
    lemma_names_differ();
    lemma_plain_clash(a, b);
    lemma_plain_clash(a, c);
    lemma_plain_clash(a, d);
    lemma_plain_clash(b, c);
    lemma_plain_clash(b, d);
    lemma_plain_clash(c, d);
    let f1 = fs.skip(1);
    let f2 = f1.skip(1);
    let f3 = f2.skip(1);
    assert(f1[0] == fs[1] && f1[1] == fs[2] && f2[0] == fs[2]);
    if fs.len() == 4 {
        assert(f2[1] == fs[3] && f3[0] == fs[3]);
    }
    assert(found(fs, b) == (if clash(fs[0].1, b) {
        Some(shown(fs[1].1))
    } else {
        found(f1, b)
    }));
    assert(found(fs, c) == found(f1, c));
    assert(found(f1, c) == (if clash(f1[0].1, c) {
        Some(shown(f1[1].1))
    } else {
        found(f2, c)
    }));
    assert(found(fs, d) == found(f1, d));
    assert(found(f1, d) == found(f2, d));
    assert(found(f2, d) == (if clash(f2[0].1, d) {
        if f2.len() == 1 {
            None
        } else {
            Some(shown(f2[1].1))
        }
    } else {
        found(f3, d)
    }));
}

// ---------------------------------------------------------------------------
// Mode and routing
// ---------------------------------------------------------------------------

/// The field of a class's rule, where there is one.
pub open spec fn rule_pairs(
    class: MessageClass,
    rule: Option<AgentChoice>,
) -> Seq<(Seq<char>, Seq<char>)> {
    match rule {
        Some(choice) => seq![(class.name(), choice.name())],
        None => seq![],
    }
}

/// The fields of the routing rules.
pub open spec fn routing_pairs(r: Routing) -> Seq<(Seq<char>, Seq<char>)> {
    rule_pairs(MessageClass::MiniHow, r.minihow) + (rule_pairs(MessageClass::MiniWhy, r.miniwhy)
        + rule_pairs(MessageClass::MiniWhat, r.miniwhat))
}

/// What the routing block holds.
pub open spec fn routing_inner(r: Routing) -> Seq<char> {
    "\n      "@ + (fields_text(routing_pairs(r), ",\n      "@) + "\n    "@)
}

/// What follows the mode.
pub open spec fn mode_tail(r: Routing) -> Seq<char> {
    if r == Routing::none() {
        "\n  "@
    } else {
        ",\n    "@ + (part("routing"@, routing_inner(r)) + "\n  "@)
    }
}

/// The field of the mode.
pub open spec fn mode_pairs(m: AdvisorMode) -> Seq<(Seq<char>, Seq<char>)> {
    seq![("mode"@, m.name())]
}

/// What the mode block holds.
pub open spec fn mode_inner(a: AdvisorModel) -> Seq<char> {
    "\n    "@ + (fields_text(mode_pairs(a.mode), ",\n    "@) + mode_tail(a.routing))
}

proof fn lemma_labels(m: AdvisorMode, c: AgentChoice, class: MessageClass)
    ensures
        plain(m.name()),
        plain(c.name()),
        plain(class.name()),
        shown(m.name()) == m.name(),
        shown(c.name()) == c.name(),
{
    lemma_names();
    lemma_plain_shown(m.name());
    lemma_plain_shown(c.name());
}

proof fn lemma_plain_shown(k: Seq<char>)
    requires
        plain(k),
    ensures
        shown(k) == k,
{
    assert forall|i: int| 0 <= i < k.len() implies json::shown_char(#[trigger] k[i]) == k[i] by {
        assert(name_char(k[i]));
    }
    assert(shown(k) =~= k);
}

proof fn lemma_one_field(name: Seq<char>, v: Seq<char>, sep: Seq<char>)
    requires
        plain(name),
    ensures
        fields_text(seq![(name, v)], sep) == field(name, v),
{
    lemma_field(name, v);
    assert(fields_text(seq![(name, v)], sep) =~= quo(name) + (": "@ + quo(v)));
}

proof fn lemma_routing_named(r: Routing)
    ensures
        named(routing_pairs(r)),
        r != Routing::none() ==> routing_pairs(r).len() > 0,
        routing_lines(r).len() == routing_pairs(r).len(),
        forall|i: int|
            0 <= i < routing_pairs(r).len() ==> #[trigger] routing_lines(r)[i] == "      "@ + field(
                routing_pairs(r)[i].0,
                routing_pairs(r)[i].1,
            ),
{
    lemma_names();
    let fs = routing_pairs(r);
    assert(fs =~= rule_pairs(MessageClass::MiniHow, r.minihow) + rule_pairs(
        MessageClass::MiniWhy,
        r.miniwhy,
    ) + rule_pairs(MessageClass::MiniWhat, r.miniwhat));
    assert forall|i: int| 0 <= i < fs.len() implies plain(#[trigger] fs[i].0) by {}
}

proof fn lemma_mode_literals()
    ensures
        "  \"advisor_mode\": {\n    "@ == "  "@ + (quo("advisor_mode"@) + (": "@ + (seq!['{']
            + "\n    "@))),
        "  }"@ == "  "@ + seq!['}'],
        "\n  "@ == "\n"@ + "  "@,
{
    lemma_names();
    lemma_colon();
    lemma_plain_escaped("advisor_mode"@);
    reveal_strlit("  \"advisor_mode\": {\n    ");
    reveal_strlit("advisor_mode");
    reveal_strlit("\n    ");
    reveal_strlit("  ");
    reveal_strlit("  }");
    reveal_strlit("\n");
    reveal_strlit("\n  ");
    assert("  \"advisor_mode\": {\n    "@ =~= "  "@ + (quo("advisor_mode"@) + (": "@ + (seq!['{']
        + "\n    "@))));
    assert("  }"@ =~= "  "@ + seq!['}']);
    assert("\n  "@ =~= "\n"@ + "  "@);
}

proof fn lemma_routing_literals()
    ensures
        ",\n    \"routing\": {\n"@ == ",\n    "@ + (quo("routing"@) + (": "@ + (seq!['{'] + "\n"@))),
        "\n    }\n"@ == "\n    "@ + (seq!['}'] + "\n"@),
{
    lemma_names();
    lemma_colon();
    lemma_plain_escaped("routing"@);
    reveal_strlit(",\n    \"routing\": {\n");
    reveal_strlit(",\n    ");
    reveal_strlit("routing");
    reveal_strlit("\n    }\n");
    reveal_strlit("\n    ");
    reveal_strlit("\n");
    assert(",\n    \"routing\": {\n"@ =~= ",\n    "@ + (quo("routing"@) + (": "@ + (seq!['{']
        + "\n"@))));
    assert("\n    }\n"@ =~= "\n    "@ + (seq!['}'] + "\n"@));
}

proof fn lemma_routing_text(r: Routing)
    requires
        r != Routing::none(),
    ensures
        ",\n    \"routing\": {\n"@ + chars::join(routing_lines(r), ",\n"@) + "\n    }\n"@ == ",\n    "@
            + (part("routing"@, routing_inner(r)) + "\n"@),
{
    let fs = routing_pairs(r);
    lemma_spaces();
    lemma_routing_named(r);
    lemma_routing_literals();
    lemma_lines(fs, routing_lines(r), "      "@, ",\n"@);
    let x = fields_text(fs, ",\n      "@);
    assert(",\n    \"routing\": {\n"@ + ("      "@ + x) + "\n    }\n"@ =~= ",\n    "@ + (part(
        "routing"@,
        routing_inner(r),
    ) + "\n"@));
}

/// A section's head, what it holds and its end, grouped anew.
proof fn lemma_regroup(
    indent: Seq<char>,
    name: Seq<char>,
    colon: Seq<char>,
    start: Seq<char>,
    body: Seq<char>,
    tail: Seq<char>,
    last: Seq<char>,
)
    ensures
        (indent + (name + (colon + (seq!['{'] + start)))) + body + tail + (last + seq!['}'])
            == indent + (name + (colon + (seq!['{'] + (start + (body + (tail + last)))
            + seq!['}']))),
{
    assert((indent + (name + (colon + (seq!['{'] + start)))) + body + tail + (last + seq!['}'])
        =~= indent + (name + (colon + (seq!['{'] + (start + (body + (tail + last)))
        + seq!['}']))));
}

proof fn lemma_mode_field(m: AdvisorMode)
    ensures
        fields_text(mode_pairs(m), ",\n    "@) == field("mode"@, m.name()),
{
    lemma_names();
    lemma_one_field("mode"@, m.name(), ",\n    "@);
}

proof fn lemma_mode_text(a: AdvisorModel)
    ensures
        mode_section(a) == "  "@ + part("advisor_mode"@, mode_inner(a)),
{
    lemma_mode_literals();
    lemma_mode_field(a.mode);
    let f = field("mode"@, a.mode.name());
    let name = quo("advisor_mode"@);
    if a.routing == Routing::none() {
        lemma_regroup("  "@, name, ": "@, "\n    "@, f, "\n"@, "  "@);
    } else {
        lemma_routing_text(a.routing);
        let r = ",\n    "@ + (part("routing"@, routing_inner(a.routing)) + "\n"@);
        lemma_regroup("  "@, name, ": "@, "\n    "@, f, r, "  "@);
        assert(r + "  "@ =~= mode_tail(a.routing));
    }
}

proof fn lemma_mode_apart(r: Routing)
    ensures
        apart(mode_tail(r) + seq!['}']),
        neutral(mode_tail(r)),
        neutral(routing_inner(r)),
{
    lemma_spaces();
    lemma_colon();
    let fs = routing_pairs(r);
    lemma_neutral_fields(fs, ",\n      "@);
    lemma_neutral_gap("\n      "@);
    lemma_neutral_gap("\n    "@);
    lemma_neutral_gap("\n  "@);
    lemma_neutral_gap(",\n    "@);
    lemma_neutral_gap(": "@);
    lemma_neutral_join(fields_text(fs, ",\n      "@), "\n    "@);
    lemma_neutral_join("\n      "@, fields_text(fs, ",\n      "@) + "\n    "@);
    lemma_neutral_braced(routing_inner(r));
    lemma_neutral_quo("routing"@);
    lemma_neutral_join(": "@, braced(routing_inner(r)));
    lemma_neutral_join(quo("routing"@), ": "@ + braced(routing_inner(r)));
    lemma_neutral_join(part("routing"@, routing_inner(r)), "\n  "@);
    lemma_neutral_join(",\n    "@, part("routing"@, routing_inner(r)) + "\n  "@);
}

/// The text of a mode block from its first field on.
proof fn lemma_mode_split(a: AdvisorModel)
    ensures
        braced(mode_inner(a)) == (seq!['{'] + "\n    "@) + (fields_text(
            mode_pairs(a.mode),
            ",\n    "@,
        ) + (mode_tail(a.routing) + seq!['}'])),
        lacks(seq!['{'] + "\n    "@, '"'),
        neutral(mode_inner(a)),
{
    lemma_spaces();
    lemma_mode_apart(a.routing);
    lemma_neutral_gap("\n    "@);
    lemma_neutral_fields(mode_pairs(a.mode), ",\n    "@);
    lemma_neutral_join(fields_text(mode_pairs(a.mode), ",\n    "@), mode_tail(a.routing));
    lemma_neutral_join(
        "\n    "@,
        fields_text(mode_pairs(a.mode), ",\n    "@) + mode_tail(a.routing),
    );
    assert(braced(mode_inner(a)) =~= (seq!['{'] + "\n    "@) + (fields_text(
        mode_pairs(a.mode),
        ",\n    "@,
    ) + (mode_tail(a.routing) + seq!['}'])));
}

proof fn lemma_found_rule(
    class: MessageClass,
    rule: Option<AgentChoice>,
    rest: Seq<(Seq<char>, Seq<char>)>,
    k: MessageClass,
)
    ensures
        found(rule_pairs(class, rule) + rest, k.name()) == (if rule is Some && class == k {
            Some(rule->0.name())
        } else {
            found(rest, k.name())
        }),
{
    let fs = rule_pairs(class, rule) + rest;
    match rule {
        Some(choice) => {
            lemma_labels(AdvisorMode::Trial, choice, class);
            lemma_names_differ();
            lemma_plain_clash(class.name(), k.name());
            lemma_plain_clash(choice.name(), k.name());
            assert(fs[0] == (class.name(), choice.name()));
            assert(fs.skip(1) =~= rest);
        },
        None => {
            assert(fs =~= rest);
        },
    }
}

proof fn lemma_rule_read(r: Routing, class: MessageClass)
    requires
        r != Routing::none(),
    ensures
        rule_in(braced(routing_inner(r)), class) == r.rule(class),
{
    let fs = routing_pairs(r);
    let k = class.name();
    let sep = ",\n      "@;
    let head = seq!['{'] + "\n      "@;
    let rest = "\n    "@ + seq!['}'];
    lemma_spaces();
    lemma_routing_named(r);
    lemma_names();
    lemma_names_differ();
    let none = Seq::<(Seq<char>, Seq<char>)>::empty();
    let f3 = rule_pairs(MessageClass::MiniWhat, r.miniwhat);
    let f2 = rule_pairs(MessageClass::MiniWhy, r.miniwhy);
    assert(f3 + none =~= f3);
    lemma_found_rule(MessageClass::MiniWhat, r.miniwhat, none, class);
    lemma_found_rule(MessageClass::MiniWhy, r.miniwhy, f3, class);
    lemma_found_rule(MessageClass::MiniHow, r.minihow, f2 + f3, class);
    assert(braced(routing_inner(r)) =~= head + (fields_text(fs, sep) + rest));
    lemma_string_gap_value(head, fields_text(fs, sep) + rest, k);
    lemma_ends_closes(rest, k);
    lemma_string_fields(fs, sep, rest, k);
    match r.rule(class) {
        Some(choice) => {
            law_choice_labels(choice);
        },
        None => {},
    }
}

proof fn lemma_mode_read(a: AdvisorModel)
    ensures
        mode_in(braced(mode_inner(a))) == a.mode,
        routing_in(braced(mode_inner(a))) == a.routing,
{
    let fs = mode_pairs(a.mode);
    let sep = ",\n    "@;
    let head = seq!['{'] + "\n    "@;
    let rest = mode_tail(a.routing) + seq!['}'];
    let tail = fields_text(fs, sep) + rest;
    lemma_names();
    lemma_names_differ();
    lemma_colon();
    lemma_spaces();
    lemma_mode_split(a);
    lemma_mode_apart(a.routing);
    lemma_labels(a.mode, AgentChoice::Primary, MessageClass::MiniHow);
    lemma_string_gap_value(head, tail, "mode"@);
    lemma_key_field(fs, sep, rest, "mode"@);
    lemma_string_here(a.mode.name(), rest);
    law_mode_labels(a.mode);
    let k = "routing"@;
    lemma_plain_clash("mode"@, k);
    lemma_plain_clash(a.mode.name(), k);
    lemma_object_gap(head, tail, k);
    assert(fs.skip(1) =~= seq![]);
    assert(!any_clash(fs.skip(1), k));
    assert(!crossed(fs.skip(1), k));
    lemma_object_fields(fs, sep, rest, k);
    if a.routing == Routing::none() {
        lemma_key_end(rest, k);
        lemma_object(rest, k);
    } else {
        let inner = routing_inner(a.routing);
        let end = "\n  "@ + seq!['}'];
        assert(rest =~= ",\n    "@ + (quo(k) + (": "@ + (braced(inner) + end))));
        lemma_object_gap(",\n    "@, quo(k) + (": "@ + (braced(inner) + end)), k);
        assert(apart(": "@ + (braced(inner) + end)));
        lemma_object_quo(k, ": "@ + (braced(inner) + end), k);
        lemma_block_here(": "@, inner, end);
        lemma_rule_read(a.routing, MessageClass::MiniHow);
        lemma_rule_read(a.routing, MessageClass::MiniWhy);
        lemma_rule_read(a.routing, MessageClass::MiniWhat);
    }
}

// ---------------------------------------------------------------------------
// Telegram
// ---------------------------------------------------------------------------

/// The chats as they are written.
pub open spec fn chats_text(chats: Set<i64>) -> Seq<char> {
    chars::join(number_texts(order::listed(chats)), ", "@)
}

/// The field of the token.
pub open spec fn token_pairs(token: Seq<char>) -> Seq<(Seq<char>, Seq<char>)> {
    seq![("bot_token"@, token)]
}

/// What follows the name of the chats.
pub open spec fn chats_tail(chats: Set<i64>) -> Seq<char> {
    ": ["@ + (chats_text(chats) + "]\n  "@)
}

/// What the Telegram block holds.
pub open spec fn telegram_inner(t: TelegramModel) -> Seq<char> {
    "\n    "@ + (fields_text(token_pairs(t.token), ",\n    "@) + (",\n    "@ + (quo(
        "allowed_chats"@,
    ) + chats_tail(t.allowed_chats))))
}

proof fn lemma_telegram_literals()
    ensures
        "  \"telegram\": {\n    "@ == "  "@ + (quo("telegram"@) + (": "@ + (seq!['{'] + "\n    "@))),
        ",\n    \"allowed_chats\": ["@ == ",\n    "@ + (quo("allowed_chats"@) + ": ["@),
        "]\n  }"@ == "]\n  "@ + seq!['}'],
        ": ["@ == seq![':', ' ', '['],
        "]\n  "@ == seq![']', '\n', ' ', ' '],
{
    lemma_names();
    lemma_colon();
    lemma_plain_escaped("telegram"@);
    lemma_plain_escaped("allowed_chats"@);
    reveal_strlit("  \"telegram\": {\n    ");
    reveal_strlit("telegram");
    reveal_strlit("\n    ");
    reveal_strlit("  ");
    reveal_strlit(",\n    \"allowed_chats\": [");
    reveal_strlit("allowed_chats");
    reveal_strlit(",\n    ");
    reveal_strlit(": [");
    reveal_strlit("]\n  }");
    reveal_strlit("]\n  ");
    assert("  \"telegram\": {\n    "@ =~= "  "@ + (quo("telegram"@) + (": "@ + (seq!['{']
        + "\n    "@))));
    assert(",\n    \"allowed_chats\": ["@ =~= ",\n    "@ + (quo("allowed_chats"@) + ": ["@));
    assert("]\n  }"@ =~= "]\n  "@ + seq!['}']);
    assert(": ["@ =~= seq![':', ' ', '[']);
    assert("]\n  "@ =~= seq![']', '\n', ' ', ' ']);
}

proof fn lemma_token_field(token: Seq<char>)
    ensures
        fields_text(token_pairs(token), ",\n    "@) == field("bot_token"@, token),
{
    lemma_names();
    lemma_one_field("bot_token"@, token, ",\n    "@);
}

proof fn lemma_telegram_text(t: TelegramModel)
    ensures
        telegram_section(t) == "  "@ + part("telegram"@, telegram_inner(t)),
{
    lemma_telegram_literals();
    lemma_token_field(t.token);
    let f = field("bot_token"@, t.token);
    let name = quo("telegram"@);
    let x = chats_text(t.allowed_chats);
    let tail = (",\n    "@ + (quo("allowed_chats"@) + ": ["@)) + x;
    let last = "]\n  "@;
    lemma_regroup("  "@, name, ": "@, "\n    "@, f, tail, last);
    assert(tail + last =~= ",\n    "@ + (quo("allowed_chats"@) + chats_tail(t.allowed_chats)));
    assert(telegram_section(t) =~= ("  "@ + (name + (": "@ + (seq!['{'] + "\n    "@)))) + f + tail
        + (last + seq!['}']));
}

/// The characters of a list of numbers.
proof fn lemma_chats_chars(order: Seq<i64>)
    ensures
        forall|i: int|
            0 <= i < chars::join(number_texts(order), ", "@).len() ==> ({
                let c = #[trigger] chars::join(number_texts(order), ", "@)[i];
                c == '-' || '0' <= c <= '9' || c == ',' || c == ' '
            }),
    decreases order.len(),
{
    let parts = number_texts(order);
    let all = chars::join(parts, ", "@);
    reveal_strlit(", ");
    if order.len() > 0 {
        numbers::lemma_signed_chars(order.last() as int);
        if order.len() > 1 {
            lemma_chats_chars(order.drop_last());
            assert(parts.drop_last() =~= number_texts(order.drop_last()));
            let before = chars::join(parts.drop_last(), ", "@);
            assert forall|i: int| 0 <= i < all.len() implies ({
                let c = #[trigger] all[i];
                c == '-' || '0' <= c <= '9' || c == ',' || c == ' '
            }) by {
                if i < before.len() {
                    assert(all[i] == before[i]);
                } else if i >= before.len() + 2 {
                    assert(all[i] == parts.last()[i - before.len() - 2]);
                }
            }
        }
    }
}

proof fn lemma_numbers_join(a: Seq<Seq<char>>, b: Seq<Seq<char>>)
    ensures
        json::numbers_in(a + b) == json::numbers_in(a).union(json::numbers_in(b)),
    decreases b.len(),
{
    if b.len() == 0 {
        assert(a + b =~= a);
        assert(json::numbers_in(a).union(json::numbers_in(b)) =~= json::numbers_in(a));
    } else {
        assert((a + b).drop_last() =~= a + b.drop_last());
        lemma_numbers_join(a, b.drop_last());
        assert(json::numbers_in(a + b) =~= json::numbers_in(a).union(json::numbers_in(b)));
    }
}

proof fn lemma_number_piece(n: i64, lead: Seq<char>)
    requires
        lead.len() <= 1,
        lead.len() == 1 ==> lead[0] == ' ',
    ensures
        chars::trim(lead + numbers::signed(n as int)) == numbers::signed(n as int),
        json::numbers_in(seq![lead + numbers::signed(n as int)]) == set![n],
        lacks(lead + numbers::signed(n as int), ','),
{
    let w = numbers::signed(n as int);
    let s = lead + w;
    numbers::lemma_signed_chars(n as int);
    assert(w[0] == '-' || '0' <= w[0] <= '9');
    assert(w.last() == '-' || '0' <= w.last() <= '9');
    if lead.len() == 1 {
        assert(s.skip(1) =~= w);
        assert(s[0] == ' ');
    } else {
        assert(s =~= w);
    }
    assert(chars::trim_start(w) == w);
    assert(chars::trim_start(s) == w);
    assert(chars::trim_end(w) == w);
    numbers::law_signed_round_trip(n as int);
    let parts = seq![s];
    assert(parts.drop_last() =~= seq![]);
    assert(json::numbers_in(parts.drop_last()) =~= Set::empty());
    assert(json::numbers_in(parts) =~= set![n]);
    assert forall|i: int| 0 <= i < s.len() implies #[trigger] s[i] != ',' by {
        if i >= lead.len() {
            assert(s[i] == w[i - lead.len()]);
        }
    }
}

proof fn lemma_chats_back(order: Seq<i64>, lead: Seq<char>)
    requires
        lead.len() <= 1,
        lead.len() == 1 ==> lead[0] == ' ',
    ensures
        json::number_list(lead + chars::join(number_texts(order), ", "@)) == order.to_set(),
    decreases order.len(),
{
    let set = CharSet::Only(',');
    let parts = number_texts(order);
    let s = lead + chars::join(parts, ", "@);
    reveal_strlit(", ");
    if order.len() == 0 {
        assert(s =~= lead);
        chars::lemma_until_is(s, set, s.len() as int);
        assert(chars::pieces(s, set) =~= seq![s]);
        let one = seq![s];
        assert(one.drop_last() =~= seq![]);
        assert(chars::trim(s) =~= seq![]) by {
            chars::lemma_drop_leading_is(s, CharSet::White, s.len() as int);
        }
        assert(order.to_set() =~= Set::empty());
        assert(numbers::signed_value(Seq::<char>::empty()) is None);
        assert(json::numbers_in(one.drop_last()) =~= Set::empty());
        assert(json::numbers_in(one) == Set::<i64>::empty());
    } else {
        let n = order[0];
        let first = lead + numbers::signed(n as int);
        lemma_number_piece(n, lead);
        assert(parts[0] == numbers::signed(n as int));
        if order.len() == 1 {
            assert(s =~= first);
            assert forall|j: int| 0 <= j < s.len() implies !set.has(#[trigger] s[j]) by {}
            chars::lemma_until_is(s, set, s.len() as int);
            assert(order.to_set() =~= set![n]) by {
                assert(order[0] == n);
            }
        } else {
            let more = order.skip(1);
            assert(parts.skip(1) =~= number_texts(more));
            lemma_join_left(parts, ", "@);
            let tail = seq![' '] + chars::join(number_texts(more), ", "@);
            assert(s =~= first + (seq![','] + tail));
            let k = first.len() as int;
            assert forall|j: int| 0 <= j < k implies !set.has(#[trigger] s[j]) by {
                assert(s[j] == first[j]);
            }
            assert(s[k] == ',');
            chars::lemma_until_is(s, set, k);
            assert(s.take(k) =~= first);
            assert(s.skip(k + 1) =~= tail);
            lemma_chats_back(more, seq![' ']);
            assert(chars::pieces(s, set) == seq![first] + chars::pieces(tail, set));
            lemma_numbers_join(seq![first], chars::pieces(tail, set));
            assert(order.to_set() =~= set![n].union(more.to_set())) by {
                assert forall|v: i64| #[trigger] order.to_set().contains(v) == set![n].union(
                    more.to_set(),
                ).contains(v) by {
                    if order.contains(v) {
                        let i = order.index_of(v);
                        if i > 0 {
                            assert(more[i - 1] == v);
                        }
                    }
                    if more.contains(v) {
                        let i = more.index_of(v);
                        assert(order[i + 1] == v);
                    }
                    assert(order[0] == n);
                }
            }
        }
    }
}

/// The text of a Telegram block from its first field on.
proof fn lemma_telegram_split(t: TelegramModel)
    ensures
        braced(telegram_inner(t)) == (seq!['{'] + "\n    "@) + (fields_text(
            token_pairs(t.token),
            ",\n    "@,
        ) + (",\n    "@ + (quo("allowed_chats"@) + (chats_tail(t.allowed_chats) + seq!['}'])))),
        lacks(seq!['{'] + "\n    "@, '"'),
        bare(chats_tail(t.allowed_chats)),
        neutral(telegram_inner(t)),
{
    lemma_spaces();
    lemma_telegram_literals();
    let fs = token_pairs(t.token);
    let tail = chats_tail(t.allowed_chats);
    let x = chats_text(t.allowed_chats);
    lemma_chats_chars(order::listed(t.allowed_chats));
    assert forall|i: int| 0 <= i < x.len() implies #[trigger] x[i] != '"' && x[i] != '{' && x[i]
        != '}' by {}
    assert(bare(tail));
    lemma_neutral_gap("\n    "@);
    lemma_neutral_gap(",\n    "@);
    lemma_neutral_gap(tail);
    lemma_neutral_quo("allowed_chats"@);
    lemma_neutral_fields(fs, ",\n    "@);
    let a = quo("allowed_chats"@) + tail;
    lemma_neutral_join(quo("allowed_chats"@), tail);
    lemma_neutral_join(",\n    "@, a);
    lemma_neutral_join(fields_text(fs, ",\n    "@), ",\n    "@ + a);
    lemma_neutral_join("\n    "@, fields_text(fs, ",\n    "@) + (",\n    "@ + a));
    assert(braced(telegram_inner(t)) =~= (seq!['{'] + "\n    "@) + (fields_text(fs, ",\n    "@) + (
    ",\n    "@ + (quo("allowed_chats"@) + (tail + seq!['}'])))));
}

/// The Telegram settings in a block.
pub open spec fn bot_in(block: Seq<char>) -> Option<TelegramModel> {
    let token = match string_value(block, "bot_token"@) {
        Some(t) => Some(t),
        None => string_value(block, "token"@),
    };
    match token {
        Some(token) => Some(
            TelegramModel { token, allowed_chats: json::array_value(block, "allowed_chats"@) },
        ),
        None => None,
    }
}

/// What follows the next colon.
spec fn colon_at(s: Seq<char>) -> Option<Seq<char>> {
    match chars::around(s, ":"@) {
        Some((_, value)) => Some(value),
        None => None,
    }
}

proof fn lemma_colon_gap(g: Seq<char>, rest: Seq<char>)
    requires
        lacks(g, ':'),
    ensures
        colon_at(g + rest) == colon_at(rest),
{
    reveal_strlit(":");
    assert(":"@ =~= seq![':']);
    lemma_find_char(g, rest, ':');
    match chars::find(rest, seq![':']) {
        Some(i) => {
            chars::lemma_find(rest, seq![':']);
            assert((g + rest).skip((g.len() + i + 1) as int) =~= rest.skip((i + 1) as int));
        },
        None => {},
    }
}

/// What stands before and behind a single character.
proof fn lemma_around_char(g: Seq<char>, c: char, rest: Seq<char>)
    requires
        lacks(g, c),
    ensures
        chars::around(g + (seq![c] + rest), seq![c]) == Some((g, rest)),
{
    let s = seq![c] + rest;
    lemma_find_char(g, s, c);
    assert(s.take(1) =~= seq![c]);
    assert(chars::find(s, seq![c]) == Some(0nat));
    assert((g + s).take(g.len() as int) =~= g);
    assert((g + s).skip(g.len() as int + 1) =~= rest);
}

/// The numbers behind the name of the chats.
proof fn lemma_chats_read(chats: Set<i64>, end: Seq<char>)
    requires
        chats.finite(),
    ensures
        match colon_at(chats_tail(chats) + end) {
            Some(value) => match chars::around(value, "["@) {
                Some((_, list)) => match chars::around(list, "]"@) {
                    Some((inner, _)) => json::number_list(inner) == chats,
                    None => false,
                },
                None => false,
            },
            None => false,
        },
        string_at(chats_tail(chats) + end) is None,
{
    lemma_telegram_literals();
    let x = chats_text(chats);
    let order = order::listed(chats);
    order::lemma_listed_lists(chats);
    lemma_chats_chars(order);
    let none = Seq::<char>::empty();
    reveal_strlit(":");
    reveal_strlit("[");
    reveal_strlit("]");
    assert(":"@ =~= seq![':']);
    assert("["@ =~= seq!['[']);
    assert("]"@ =~= seq![']']);
    let s = chats_tail(chats) + end;
    let behind = seq!['\n', ' ', ' '] + end;
    let list = x + (seq![']'] + behind);
    let value = seq![' '] + (seq!['['] + list);
    assert(s =~= none + (seq![':'] + value));
    lemma_around_char(none, ':', value);
    lemma_around_char(seq![' '], '[', list);
    assert forall|i: int| 0 <= i < x.len() implies #[trigger] x[i] != ']' by {}
    lemma_around_char(x, ']', behind);
    lemma_chats_back(order, none);
    assert(none + x =~= x);
    assert(value[0] == ' ' && value[1] == '[');
    chars::lemma_drop_leading_is(value, CharSet::White, 1);
    assert(value.skip(1)[0] == '[');
}

proof fn lemma_telegram_read(t: TelegramModel)
    requires
        t.allowed_chats.finite(),
    ensures
        bot_in(braced(telegram_inner(t))) == Some(
            TelegramModel { token: shown(t.token), allowed_chats: t.allowed_chats },
        ),
{
    let fs = token_pairs(t.token);
    let sep = ",\n    "@;
    let head = seq!['{'] + "\n    "@;
    let k = "allowed_chats"@;
    let end = chats_tail(t.allowed_chats) + seq!['}'];
    let rest = sep + (quo(k) + end);
    let tail = fields_text(fs, sep) + rest;
    lemma_names();
    lemma_names_differ();
    lemma_spaces();
    lemma_telegram_split(t);
    lemma_telegram_literals();
    assert(apart(rest));
    assert(apart(end));
    lemma_string_gap_value(head, tail, "bot_token"@);
    lemma_key_field(fs, sep, rest, "bot_token"@);
    lemma_string_here(t.token, rest);
    lemma_key_gap(head, tail, k);
    lemma_plain_clash("bot_token"@, k);
    lemma_key_field(fs, sep, rest, k);
    lemma_key_gap(sep, quo(k) + end, k);
    lemma_key_quo(k, end, k);
    lemma_plain_quo(k);
    lemma_colon_gap(sep, quo(k) + end);
    lemma_colon_gap(quo(k), end);
    lemma_chats_read(t.allowed_chats, seq!['}']);
    assert(json::after_colon(braced(telegram_inner(t)), k) == colon_at(end));
}

/// A name that no field has and no value is taken for is not found.
proof fn lemma_key_fields(
    fs: Seq<(Seq<char>, Seq<char>)>,
    sep: Seq<char>,
    rest: Seq<char>,
    k: Seq<char>,
)
    requires
        without_name(fs, k),
        !any_clash(fs, k),
        plain(k),
        k.len() > 0,
        separates(sep),
        apart(rest),
    ensures
        after_key(fields_text(fs, sep) + rest, k) == after_key(rest, k),
    decreases fs.len(),
{
    if fs.len() == 0 {
        assert(fields_text(fs, sep) + rest =~= rest);
    } else {
        lemma_key_field(fs, sep, rest, k);
        assert(!clash(fs[0].0, k));
        if fs.len() > 1 {
            let more = fs.skip(1);
            assert forall|i: int| 0 <= i < more.len() implies !clash(#[trigger] more[i].0, k) by {
                assert(more[i] == fs[i + 1]);
            }
            lemma_key_fields(more, sep, rest, k);
        }
    }
}

/// The names that are looked for in other blocks than the mode's.
pub open spec fn foreign_name(k: Seq<char>) -> bool {
    k == "provider"@ || k == "bot_token"@ || k == "token"@ || k == "telegram"@
}

proof fn lemma_foreign(k: Seq<char>, m: AdvisorMode, c: AgentChoice, class: MessageClass)
    requires
        foreign_name(k),
    ensures
        plain(k),
        k.len() > 0,
        !clash("mode"@, k),
        !clash("routing"@, k),
        !clash(m.name(), k),
        !clash(c.name(), k),
        !clash(class.name(), k),
{
    lemma_names();
    lemma_names_differ();
    lemma_plain_clash("mode"@, k);
    lemma_plain_clash("routing"@, k);
    lemma_plain_clash(m.name(), k);
    lemma_plain_clash(c.name(), k);
    lemma_plain_clash(class.name(), k);
}

proof fn lemma_routing_clash(r: Routing, k: Seq<char>)
    requires
        foreign_name(k),
    ensures
        without_name(routing_pairs(r), k),
        !any_clash(routing_pairs(r), k),
        !crossed(routing_pairs(r), k),
{
    let fs = routing_pairs(r);
    assert forall|i: int| 0 <= i < fs.len() implies !clash(#[trigger] fs[i].0, k) && !clash(
        fs[i].1,
        k,
    ) by {
        lemma_foreign(k, AdvisorMode::Trial, AgentChoice::Primary, MessageClass::MiniHow);
        lemma_foreign(k, AdvisorMode::Trial, AgentChoice::Advisor, MessageClass::MiniWhy);
        lemma_foreign(k, AdvisorMode::Trial, AgentChoice::Advisor, MessageClass::MiniWhat);
    }
    assert forall|i: int| 0 <= i < fs.len() implies !clash(#[trigger] fs[i].1, k) by {
        assert(!clash(fs[i].0, k));
    }
    lemma_no_clash(fs, k);
}

proof fn lemma_no_clash(fs: Seq<(Seq<char>, Seq<char>)>, k: Seq<char>)
    requires
        forall|i: int| 0 <= i < fs.len() ==> !clash(#[trigger] fs[i].1, k),
    ensures
        !any_clash(fs, k),
        !crossed(fs, k),
    decreases fs.len(),
{
    if fs.len() > 0 {
        let more = fs.skip(1);
        assert(!clash(fs[0].1, k));
        assert forall|i: int| 0 <= i < more.len() implies !clash(#[trigger] more[i].1, k) by {
            assert(more[i] == fs[i + 1]);
        }
        lemma_no_clash(more, k);
    }
}

/// The text of a mode block past its routing.
proof fn lemma_mode_tail(r: Routing, rest: Seq<char>)
    requires
        r != Routing::none(),
    ensures
        mode_tail(r) + (seq!['}'] + rest) == ",\n    "@ + (quo("routing"@) + ((": "@ + (seq!['{']
            + "\n      "@)) + (fields_text(routing_pairs(r), ",\n      "@) + (("\n    "@ + (seq!['}']
            + ("\n  "@ + seq!['}']))) + rest)))),
{
    assert(mode_tail(r) + (seq!['}'] + rest) =~= ",\n    "@ + (quo("routing"@) + ((": "@ + (seq!['{']
        + "\n      "@)) + (fields_text(routing_pairs(r), ",\n      "@) + (("\n    "@ + (seq!['}'] + (
    "\n  "@ + seq!['}']))) + rest)))));
}

proof fn lemma_mode_no_key(a: AdvisorModel, k: Seq<char>)
    requires
        foreign_name(k),
    ensures
        after_key(braced(mode_inner(a)), k) is None,
{
    let fs = mode_pairs(a.mode);
    let sep = ",\n    "@;
    let head = seq!['{'] + "\n    "@;
    let rest = mode_tail(a.routing) + seq!['}'];
    let tail = fields_text(fs, sep) + rest;
    lemma_foreign(k, a.mode, AgentChoice::Primary, MessageClass::MiniHow);
    lemma_spaces();
    lemma_colon();
    lemma_mode_split(a);
    lemma_mode_apart(a.routing);
    lemma_key_gap(head, tail, k);
    lemma_key_field(fs, sep, rest, k);
    if a.routing == Routing::none() {
        lemma_key_end(rest, k);
    } else {
        let none = Seq::<char>::empty();
        lemma_mode_tail(a.routing, none);
        assert(seq!['}'] + none =~= seq!['}']);
        let rs = routing_pairs(a.routing);
        let end = ("\n    "@ + (seq!['}'] + ("\n  "@ + seq!['}']))) + none;
        let open = ": "@ + (seq!['{'] + "\n      "@);
        let inner = fields_text(rs, ",\n      "@) + end;
        lemma_key_gap(",\n    "@, quo("routing"@) + (open + inner), k);
        assert(apart(open + inner));
        lemma_key_quo("routing"@, open + inner, k);
        assert(lacks(open, '"'));
        lemma_key_gap(open, inner, k);
        lemma_routing_clash(a.routing, k);
        assert(apart(end));
        lemma_key_fields(rs, ",\n      "@, end, k);
        assert(lacks(end, '"'));
        lemma_key_end(end, k);
    }
}

proof fn lemma_mode_other(a: AdvisorModel)
    ensures
        llm_in(braced(mode_inner(a))) is None,
        bot_in(braced(mode_inner(a))) is None,
{
    lemma_mode_no_key(a, "provider"@);
    lemma_mode_no_key(a, "bot_token"@);
    lemma_mode_no_key(a, "token"@);
}

proof fn lemma_telegram_other(t: TelegramModel)
    requires
        t.allowed_chats.finite(),
    ensures
        llm_in(braced(telegram_inner(t))) is None,
{
    let fs = token_pairs(t.token);
    let sep = ",\n    "@;
    let head = seq!['{'] + "\n    "@;
    let k = "provider"@;
    let name = "allowed_chats"@;
    let end = chats_tail(t.allowed_chats) + seq!['}'];
    let rest = sep + (quo(name) + end);
    let tail = fields_text(fs, sep) + rest;
    lemma_names();
    lemma_names_differ();
    lemma_spaces();
    lemma_telegram_split(t);
    lemma_telegram_literals();
    assert(apart(rest));
    assert(apart(end));
    lemma_key_gap(head, tail, k);
    lemma_plain_clash("bot_token"@, k);
    lemma_plain_clash(name, k);
    lemma_key_field(fs, sep, rest, k);
    lemma_key_gap(sep, quo(name) + end, k);
    lemma_key_quo(name, end, k);
    lemma_key_end(end, k);
    lemma_plain_quo(name);
    lemma_string_gap(sep, quo(name) + end);
    lemma_string_gap(quo(name), end);
    lemma_chats_read(t.allowed_chats, seq!['}']);
}

proof fn lemma_found_none(fs: Seq<(Seq<char>, Seq<char>)>, k: Seq<char>)
    requires
        without_name(fs, k),
        !any_clash(fs, k),
    ensures
        found(fs, k) is None,
    decreases fs.len(),
{
    if fs.len() > 0 {
        let more = fs.skip(1);
        assert(!clash(fs[0].0, k));
        assert forall|i: int| 0 <= i < more.len() implies !clash(#[trigger] more[i].0, k) by {
            assert(more[i] == fs[i + 1]);
        }
        lemma_found_none(more, k);
    }
}

/// The names of blocks and of their fields other than a model's.
pub open spec fn no_llm_name(k: Seq<char>) -> bool {
    &&& plain(k)
    &&& k.len() > 0
    &&& k != "provider"@
    &&& k != "url"@
    &&& k != "model"@
    &&& k != "api_key"@
}

proof fn lemma_pairs_without(m: LlmModel, k: Seq<char>)
    requires
        no_llm_name(k),
    ensures
        without_name(llm_pairs(m), k),
{
    let fs = llm_pairs(m);
    lemma_names();
    assert forall|i: int| 0 <= i < fs.len() implies !clash(#[trigger] fs[i].0, k) by {
        lemma_plain_clash(fs[i].0, k);
    }
}

proof fn lemma_llm_other(m: LlmModel)
    requires
        !any_clash(llm_pairs(m), "bot_token"@),
        !any_clash(llm_pairs(m), "token"@),
    ensures
        bot_in(braced(llm_inner(m))) is None,
{
    let fs = llm_pairs(m);
    let sep = ",\n      "@;
    let rest = llm_tail(m) + seq!['}'];
    let head = seq!['{'] + "\n      "@;
    let tail = fields_text(fs, sep) + rest;
    lemma_names();
    lemma_names_differ();
    lemma_spaces();
    lemma_llm_split(m);
    lemma_pairs_named(m);
    lemma_pairs_without(m, "bot_token"@);
    lemma_pairs_without(m, "token"@);
    lemma_string_gap_value(head, tail, "bot_token"@);
    lemma_string_gap_value(head, tail, "token"@);
    lemma_llm_tail(m, "bot_token"@);
    lemma_llm_tail(m, "token"@);
    lemma_string_fields(fs, sep, rest, "bot_token"@);
    lemma_string_fields(fs, sep, rest, "token"@);
    lemma_found_none(fs, "bot_token"@);
    lemma_found_none(fs, "token"@);
}

// ---------------------------------------------------------------------------
// The file
// ---------------------------------------------------------------------------

/// The end of the file.
spec fn end_text() -> Seq<char> {
    "\n}\n"@
}

/// The file behind the mode.
spec fn after_mode(c: FileModel) -> Seq<char> {
    match c.telegram {
        Some(t) => ",\n  "@ + (part("telegram"@, telegram_inner(t)) + end_text()),
        None => end_text(),
    }
}

/// The file behind the models.
spec fn after_models(c: FileModel) -> Seq<char> {
    "\n  }"@ + (match c.advisor {
        Some(a) => ",\n  "@ + (part("advisor_mode"@, mode_inner(a)) + after_mode(c)),
        None => after_mode(c),
    })
}

/// The file from the advisor's model on.
spec fn from_advisor(c: FileModel) -> Seq<char> {
    match c.advisor {
        Some(a) => part("advisor"@, llm_inner(a.agent)) + after_models(c),
        None => after_models(c),
    }
}

/// The file from the models on.
spec fn from_models(c: FileModel) -> Seq<char> {
    match c.primary_agent {
        Some(p) => part("primary"@, llm_inner(p)) + (match c.advisor {
            Some(a) => ",\n    "@ + from_advisor(c),
            None => from_advisor(c),
        }),
        None => from_advisor(c),
    }
}

/// The file by its parts.
spec fn file_text(c: FileModel) -> Seq<char> {
    if c.primary_agent is Some || c.advisor is Some {
        "{\n  "@ + (quo("agents"@) + (": {\n    "@ + from_models(c)))
    } else {
        match c.telegram {
            Some(t) => "{\n  "@ + (part("telegram"@, telegram_inner(t)) + end_text()),
            None => "{"@ + end_text(),
        }
    }
}

proof fn lemma_file_literals()
    ensures
        "  \"agents\": {\n"@ == "  "@ + (quo("agents"@) + (": {"@ + "\n"@)),
        ": {\n    "@ == ": {"@ + ("\n"@ + "    "@),
        "\n  }"@ == "\n"@ + ("  "@ + seq!['}']),
        "{\n  "@ == "{"@ + ("\n"@ + "  "@),
        "{\n"@ == "{"@ + "\n"@,
        ",\n    "@ == ",\n"@ + "    "@,
        ",\n  "@ == ",\n"@ + "  "@,
        end_text() == "\n"@ + "}\n"@,
        ""@ == Seq::<char>::empty(),
{
    lemma_names();
    lemma_plain_escaped("agents"@);
    reveal_strlit("  \"agents\": {\n");
    reveal_strlit("agents");
    reveal_strlit("  ");
    reveal_strlit("    ");
    reveal_strlit(": {");
    reveal_strlit(": {\n    ");
    reveal_strlit("\n");
    reveal_strlit("\n  }");
    reveal_strlit("{");
    reveal_strlit("{\n  ");
    reveal_strlit("{\n");
    reveal_strlit(",\n    ");
    reveal_strlit(",\n  ");
    reveal_strlit(",\n");
    reveal_strlit("\n}\n");
    reveal_strlit("}\n");
    reveal_strlit("");
    assert("  \"agents\": {\n"@ =~= "  "@ + (quo("agents"@) + (": {"@ + "\n"@)));
    assert(": {\n    "@ =~= ": {"@ + ("\n"@ + "    "@));
    assert("\n  }"@ =~= "\n"@ + ("  "@ + seq!['}']));
    assert("{\n  "@ =~= "{"@ + ("\n"@ + "  "@));
    assert("{\n"@ =~= "{"@ + "\n"@);
    assert(",\n    "@ =~= ",\n"@ + "    "@);
    assert(",\n  "@ =~= ",\n"@ + "  "@);
    assert(end_text() =~= "\n"@ + "}\n"@);
    assert(""@ =~= Seq::<char>::empty());
}

/// The models' section by its parts.
spec fn models_text(c: FileModel) -> Seq<char> {
    "    "@ + (match (c.primary_agent, c.advisor) {
        (Some(p), Some(a)) => part("primary"@, llm_inner(p)) + (",\n"@ + ("    "@ + part(
            "advisor"@,
            llm_inner(a.agent),
        ))),
        (Some(p), None) => part("primary"@, llm_inner(p)),
        (None, Some(a)) => part("advisor"@, llm_inner(a.agent)),
        (None, None) => seq![],
    })
}

proof fn lemma_models_text(c: FileModel)
    requires
        c.primary_agent is Some || c.advisor is Some,
    ensures
        chars::join(agent_entries(c), ",\n"@) == models_text(c),
        agent_entries(c).len() > 0,
{
    lemma_names();
    let entries = agent_entries(c);
    match (c.primary_agent, c.advisor) {
        (Some(p), Some(a)) => {
            lemma_llm_text("primary"@, p);
            lemma_llm_text("advisor"@, a.agent);
            lemma_join_left(entries, ",\n"@);
            assert(entries.skip(1) =~= seq![entries[1]]);
            assert(chars::join(entries, ",\n"@) =~= models_text(c));
        },
        (Some(p), None) => {
            lemma_llm_text("primary"@, p);
        },
        (None, Some(a)) => {
            lemma_llm_text("advisor"@, a.agent);
        },
        (None, None) => {},
    }
}

/// The sections as they are joined.
proof fn lemma_sections_text(c: FileModel)
    requires
        c.primary_agent is Some || c.advisor is Some,
    ensures
        sections(c).len() > 0,
        chars::join(sections(c), ",\n"@) == agents_section(agent_entries(c)) + ((match c.advisor {
            Some(a) => ",\n"@ + ("  "@ + part("advisor_mode"@, mode_inner(a))),
            None => seq![],
        }) + (match c.telegram {
            Some(t) => ",\n"@ + ("  "@ + part("telegram"@, telegram_inner(t))),
            None => seq![],
        })),
{
    lemma_models_text(c);
    let all = sections(c);
    let sep = ",\n"@;
    match c.advisor {
        Some(a) => {
            lemma_mode_text(a);
        },
        None => {},
    }
    match c.telegram {
        Some(t) => {
            lemma_telegram_text(t);
        },
        None => {},
    }
    if all.len() > 1 {
        lemma_join_left(all, sep);
        let more = all.skip(1);
        if more.len() > 1 {
            lemma_join_left(more, sep);
            assert(more.skip(1) =~= seq![all[2]]);
        } else {
            assert(more =~= seq![all[1]]);
        }
    }
    assert(chars::join(all, sep) =~= agents_section(agent_entries(c)) + ((match c.advisor {
        Some(a) => sep + ("  "@ + part("advisor_mode"@, mode_inner(a))),
        None => seq![],
    }) + (match c.telegram {
        Some(t) => sep + ("  "@ + part("telegram"@, telegram_inner(t))),
        None => seq![],
    })));
}

/// The file's parts, grouped anew.
proof fn lemma_file_regroup(
    brace: Seq<char>,
    line: Seq<char>,
    two: Seq<char>,
    four: Seq<char>,
    name: Seq<char>,
    colon: Seq<char>,
    models: Seq<char>,
    from: Seq<char>,
    close: Seq<char>,
    behind: Seq<char>,
    last: Seq<char>,
)
    requires
        four + from == models + ((line + (two + close)) + (behind + (line + last))),
    ensures
        ((brace + line) + ((((two + (name + (colon + line))) + models) + (line + (two + close)))
            + behind) + line) + last == (brace + (line + two)) + (name + ((colon + (line + four))
            + from)),
{
    let all = (brace + (line + two)) + (name + (colon + (line + (four + from))));
    assert((brace + (line + two)) + (name + ((colon + (line + four)) + from)) =~= all);
    assert(((brace + line) + ((((two + (name + (colon + line))) + models) + (line + (two + close)))
        + behind) + line) + last =~= (brace + (line + two)) + (name + (colon + (line + (models + ((
    line + (two + close)) + (behind + (line + last))))))));
}

/// The file from the models on, behind its indent.
proof fn lemma_from_models(c: FileModel)
    requires
        c.primary_agent is Some || c.advisor is Some,
    ensures
        "    "@ + from_models(c) == models_text(c) + after_models(c),
{
    lemma_file_literals();
    assert("    "@ + from_models(c) =~= models_text(c) + after_models(c));
}

/// The parts of the file behind the models.
spec fn behind_models(c: FileModel) -> Seq<char> {
    (match c.advisor {
        Some(a) => ",\n"@ + ("  "@ + part("advisor_mode"@, mode_inner(a))),
        None => seq![],
    }) + (match c.telegram {
        Some(t) => ",\n"@ + ("  "@ + part("telegram"@, telegram_inner(t))),
        None => seq![],
    })
}

/// The parts behind a closing brace, put together in another order.
proof fn lemma_behind_regroup(
    a: Seq<char>,
    break_mark: Seq<char>,
    gap: Seq<char>,
    m: Seq<char>,
    t: Seq<char>,
    end: Seq<char>,
)
    ensures
        a + ((break_mark + gap) + (m + ((break_mark + gap) + (t + end)))) == a + (((break_mark + (
        gap + m)) + (break_mark + (gap + t))) + end),
        a + ((break_mark + gap) + (m + end)) == a + (((break_mark + (gap + m)) + Seq::<char>::empty())
            + end),
        a + ((break_mark + gap) + (t + end)) == a + ((Seq::<char>::empty() + (break_mark + (gap + t)))
            + end),
        a + end == a + ((Seq::<char>::empty() + Seq::<char>::empty()) + end),
{
    let none = Seq::<char>::empty();
    let both = break_mark + gap;
    assert(both + (t + end) =~= (break_mark + (gap + t)) + end);
    assert(both + (m + end) =~= ((break_mark + (gap + m)) + none) + end);
    assert((break_mark + (gap + t)) + end =~= (none + (break_mark + (gap + t))) + end);
    assert((none + none) + end =~= end);
    assert(both + (m + ((break_mark + (gap + t)) + end)) =~= ((break_mark + (gap + m)) + (break_mark
        + (gap + t))) + end);
}

proof fn lemma_after_models(c: FileModel)
    ensures
        after_models(c) == ("\n"@ + ("  "@ + seq!['}'])) + (behind_models(c) + ("\n"@ + "}\n"@)),
{
    lemma_file_literals();
    let m = match c.advisor {
        Some(a) => part("advisor_mode"@, mode_inner(a)),
        None => seq![],
    };
    let t = match c.telegram {
        Some(t) => part("telegram"@, telegram_inner(t)),
        None => seq![],
    };
    lemma_behind_regroup("\n"@ + ("  "@ + seq!['}']), ",\n"@, "  "@, m, t, "\n"@ + "}\n"@);
}

proof fn lemma_file_models(c: FileModel)
    requires
        c.primary_agent is Some || c.advisor is Some,
    ensures
        rendered(c) == file_text(c),
{
    lemma_file_literals();
    lemma_sections_text(c);
    lemma_models_text(c);
    lemma_from_models(c);
    lemma_after_models(c);
    lemma_file_regroup(
        "{"@,
        "\n"@,
        "  "@,
        "    "@,
        quo("agents"@),
        ": {"@,
        models_text(c),
        from_models(c),
        seq!['}'],
        behind_models(c),
        "}\n"@,
    );
}

proof fn lemma_file(c: FileModel)
    ensures
        rendered(c) == file_text(c),
{
    if c.primary_agent is Some || c.advisor is Some {
        lemma_file_models(c);
    } else {
        lemma_file_literals();
        match c.telegram {
            Some(t) => {
                lemma_telegram_text(t);
                assert(sections(c) =~= seq![telegram_section(t)]);
                assert(rendered(c) =~= file_text(c));
            },
            None => {
                assert(sections(c) =~= seq![]);
                assert(rendered(c) =~= file_text(c));
            },
        }
    }
}

// ---------------------------------------------------------------------------
// Finding a block in the file
// ---------------------------------------------------------------------------

proof fn lemma_part_block(name: Seq<char>, inner: Seq<char>, rest: Seq<char>)
    requires
        plain(name),
        neutral(inner),
    ensures
        block_at(part(name, inner) + rest) == Some(braced(inner)),
{
    lemma_colon();
    lemma_plain_quo(name);
    let head = quo(name) + ": "@;
    lemma_lacks_join(quo(name), ": "@, '{');
    assert(part(name, inner) + rest =~= head + (braced(inner) + rest));
    lemma_block_here(head, inner, rest);
}

proof fn lemma_part_hit(name: Seq<char>, inner: Seq<char>, rest: Seq<char>)
    requires
        plain(name),
        name.len() > 0,
        neutral(inner),
    ensures
        object_value(part(name, inner) + rest, name) == Some(braced(inner)),
{
    lemma_colon();
    let tail = ": "@ + (braced(inner) + rest);
    assert(part(name, inner) + rest =~= quo(name) + tail);
    assert(apart(tail));
    lemma_object_quo(name, tail, name);
    lemma_block_here(": "@, inner, rest);
}

proof fn lemma_part_skip(name: Seq<char>, inner: Seq<char>, rest: Seq<char>, k: Seq<char>)
    requires
        plain(name),
        plain(k),
        k.len() > 0,
        name != k,
    ensures
        object_value(part(name, inner) + rest, k) == object_value(
            inner + (seq!['}'] + rest),
            k,
        ),
{
    lemma_colon();
    lemma_plain_clash(name, k);
    let more = inner + (seq!['}'] + rest);
    let open = ": "@ + seq!['{'];
    assert(part(name, inner) + rest =~= quo(name) + (open + more));
    assert(apart(open + more));
    lemma_object_quo(name, open + more, k);
    assert(lacks(open, '"'));
    lemma_object_gap(open, more, k);
}

proof fn lemma_llm_neutral(m: LlmModel)
    ensures
        neutral(llm_inner(m)),
{
    let fs = llm_pairs(m);
    let sep = ",\n      "@;
    lemma_spaces();
    lemma_thinking_literals();
    lemma_neutral_fields(fs, sep);
    lemma_neutral_gap("\n      "@);
    lemma_neutral_gap("\n    "@);
    lemma_neutral_gap(sep);
    lemma_neutral_gap(": true"@);
    lemma_neutral_quo("thinking"@);
    lemma_neutral_join(": true"@, "\n    "@);
    lemma_neutral_join(quo("thinking"@), ": true"@ + "\n    "@);
    lemma_neutral_join(sep, quo("thinking"@) + (": true"@ + "\n    "@));
    lemma_neutral_join(fields_text(fs, sep), llm_tail(m));
    lemma_neutral_join("\n      "@, fields_text(fs, sep) + llm_tail(m));
}

/// The search for a block past the end of a model's.
proof fn lemma_llm_tail_skip(m: LlmModel, rest: Seq<char>, k: Seq<char>)
    requires
        no_llm_name(k),
        k != "thinking"@,
    ensures
        block_at((llm_tail(m) + seq!['}']) + rest) == block_at(rest),
        object_value((llm_tail(m) + seq!['}']) + rest, k) == object_value(rest, k),
        apart((llm_tail(m) + seq!['}']) + rest),
{
    let close = llm_tail(m) + seq!['}'];
    lemma_spaces();
    lemma_names();
    lemma_llm_tail(m, k);
    lemma_lacks_join(llm_tail(m), seq!['}'], '{');
    lemma_block_gap(close, rest);
    assert((close + rest)[0] == llm_tail(m)[0]);
    if m.thinking {
        lemma_thinking_literals();
        let end = (": true"@ + ("\n    "@ + seq!['}']));
        let tail = end + rest;
        assert(close + rest =~= ",\n      "@ + (quo("thinking"@) + tail));
        lemma_object_gap(",\n      "@, quo("thinking"@) + tail, k);
        assert(apart(tail));
        lemma_plain_clash("thinking"@, k);
        lemma_object_quo("thinking"@, tail, k);
        assert(lacks(end, '"'));
        lemma_object_gap(end, rest, k);
    } else {
        assert(lacks(close, '"'));
        lemma_object_gap(close, rest, k);
    }
}

/// The search for a block past a model's.
proof fn lemma_llm_skip(name: Seq<char>, m: LlmModel, rest: Seq<char>, k: Seq<char>)
    requires
        plain(name),
        no_llm_name(k),
        k != "thinking"@,
        name != k,
        !crossed(llm_pairs(m), k),
    ensures
        object_value(part(name, llm_inner(m)) + rest, k) == (if any_clash(llm_pairs(m), k) {
            block_at(rest)
        } else {
            object_value(rest, k)
        }),
{
    let fs = llm_pairs(m);
    let sep = ",\n      "@;
    let close = llm_tail(m) + seq!['}'];
    lemma_spaces();
    lemma_pairs_named(m);
    lemma_pairs_without(m, k);
    lemma_part_skip(name, llm_inner(m), rest, k);
    let tail = fields_text(fs, sep) + (close + rest);
    assert(llm_inner(m) + (seq!['}'] + rest) =~= "\n      "@ + tail);
    lemma_object_gap("\n      "@, tail, k);
    lemma_llm_tail_skip(m, rest, k);
    lemma_object_fields(fs, sep, close + rest, k);
}

proof fn lemma_routing_braces(r: Routing)
    ensures
        !braces_in(routing_pairs(r)),
{
    let fs = routing_pairs(r);
    lemma_names();
    assert forall|i: int| 0 <= i < fs.len() implies lacks(#[trigger] fs[i].1, '{') by {
        assert(plain(fs[i].1));
        assert forall|j: int| 0 <= j < fs[i].1.len() implies #[trigger] fs[i].1[j] != '{' by {
            assert(name_char(fs[i].1[j]));
        }
    }
}

proof fn lemma_braces_crossed(fs: Seq<(Seq<char>, Seq<char>)>, k: Seq<char>)
    requires
        !braces_in(fs),
    ensures
        !crossed(fs, k),
    decreases fs.len(),
{
    if fs.len() > 0 {
        let more = fs.skip(1);
        assert(!braces_in(more)) by {
            assert forall|i: int| 0 <= i < more.len() implies lacks(#[trigger] more[i].1, '{') by {
                assert(more[i] == fs[i + 1]);
                assert(lacks(fs[i + 1].1, '{'));
            }
        }
        lemma_braces_crossed(more, k);
    }
}

/// The search for a block past the mode's.
proof fn lemma_mode_skip(a: AdvisorModel, rest: Seq<char>, k: Seq<char>)
    requires
        k == "primary"@ || k == "telegram"@,
    ensures
        object_value(part("advisor_mode"@, mode_inner(a)) + rest, k) == (if a.routing
            != Routing::none() && any_clash(routing_pairs(a.routing), k) {
            block_at(rest)
        } else {
            object_value(rest, k)
        }),
{
    let fs = mode_pairs(a.mode);
    let sep = ",\n    "@;
    let behind = mode_tail(a.routing) + (seq!['}'] + rest);
    lemma_names();
    lemma_names_differ();
    lemma_spaces();
    lemma_colon();
    lemma_mode_apart(a.routing);
    lemma_part_skip("advisor_mode"@, mode_inner(a), rest, k);
    let tail = fields_text(fs, sep) + behind;
    assert(mode_inner(a) + (seq!['}'] + rest) =~= "\n    "@ + tail);
    lemma_object_gap("\n    "@, tail, k);
    lemma_plain_clash("mode"@, k);
    lemma_plain_clash(a.mode.name(), k);
    assert(fs.skip(1) =~= seq![]);
    assert(!any_clash(fs.skip(1), k));
    assert(!crossed(fs.skip(1), k));
    assert(apart(behind)) by {
        assert(behind[0] == (mode_tail(a.routing) + seq!['}'])[0]);
    }
    lemma_object_fields(fs, sep, behind, k);
    if a.routing == Routing::none() {
        let close = "\n  "@ + seq!['}'];
        assert(behind =~= close + rest);
        assert(lacks(close, '"'));
        lemma_object_gap(close, rest, k);
    } else {
        lemma_mode_routing_skip(a.routing, rest, k);
    }
}

proof fn lemma_mode_routing_skip(r: Routing, rest: Seq<char>, k: Seq<char>)
    requires
        k == "primary"@ || k == "telegram"@,
        r != Routing::none(),
    ensures
        object_value(mode_tail(r) + (seq!['}'] + rest), k) == (if any_clash(routing_pairs(r), k) {
            block_at(rest)
        } else {
            object_value(rest, k)
        }),
{
    lemma_names();
    lemma_names_differ();
    lemma_spaces();
    lemma_colon();
    lemma_mode_tail(r, rest);
    let rs = routing_pairs(r);
    let close = "\n    "@ + (seq!['}'] + ("\n  "@ + seq!['}']));
    let end = close + rest;
    let open = ": "@ + (seq!['{'] + "\n      "@);
    let inner = fields_text(rs, ",\n      "@) + end;
    lemma_object_gap(",\n    "@, quo("routing"@) + (open + inner), k);
    assert(apart(open + inner));
    lemma_plain_clash("routing"@, k);
    lemma_object_quo("routing"@, open + inner, k);
    assert(lacks(open, '"'));
    lemma_object_gap(open, inner, k);
    lemma_routing_named(r);
    lemma_routing_braces(r);
    lemma_braces_crossed(rs, k);
    assert forall|i: int| 0 <= i < rs.len() implies !clash(#[trigger] rs[i].0, k) by {
        lemma_plain_clash(rs[i].0, k);
    }
    assert(apart(end));
    lemma_object_fields(rs, ",\n      "@, end, k);
    assert(lacks(close, '"') && lacks(close, '{'));
    lemma_object_gap(close, rest, k);
    lemma_block_gap(close, rest);
}

proof fn lemma_end(k: Seq<char>)
    requires
        plain(k),
    ensures
        object_value(end_text(), k) is None,
        block_at(end_text()) is None,
        lacks(end_text(), '"'),
        lacks(end_text(), '{'),
{
    reveal_strlit("\n}\n");
    lemma_key_end(end_text(), k);
    lemma_object(end_text(), k);
    lemma_block_none(end_text());
}

/// Nothing is found past the Telegram block.
proof fn lemma_telegram_skip(t: TelegramModel, k: Seq<char>)
    requires
        k == "primary"@ || k == "advisor"@,
    ensures
        object_value(part("telegram"@, telegram_inner(t)) + end_text(), k) is None,
{
    let fs = token_pairs(t.token);
    let sep = ",\n    "@;
    let name = "allowed_chats"@;
    lemma_names();
    lemma_names_differ();
    lemma_spaces();
    lemma_telegram_literals();
    lemma_telegram_split(t);
    lemma_end(k);
    let last = chats_tail(t.allowed_chats) + (seq!['}'] + end_text());
    let behind = sep + (quo(name) + last);
    lemma_part_skip("telegram"@, telegram_inner(t), end_text(), k);
    let tail = fields_text(fs, sep) + behind;
    assert(telegram_inner(t) + (seq!['}'] + end_text()) =~= "\n    "@ + tail);
    lemma_object_gap("\n    "@, tail, k);
    assert(apart(behind));
    assert(apart(last));
    lemma_plain_clash("bot_token"@, k);
    lemma_plain_clash(name, k);
    lemma_key_field(fs, sep, behind, k);
    lemma_object(tail, k);
    lemma_plain_quo(name);
    assert(lacks(last, '"') && lacks(last, '{'));
    lemma_key_gap(sep, quo(name) + last, k);
    lemma_key_quo(name, last, k);
    lemma_key_end(last, k);
    lemma_block_gap(sep, quo(name) + last);
    lemma_block_gap(quo(name), last);
    lemma_block_none(last);
}

/// The block that comes next behind the mode.
spec fn telegram_block(c: FileModel) -> Option<Seq<char>> {
    match c.telegram {
        Some(t) => Some(braced(telegram_inner(t))),
        None => None,
    }
}

proof fn lemma_after_mode(c: FileModel)
    ensures
        block_at(after_mode(c)) == telegram_block(c),
        object_value(after_mode(c), "telegram"@) == telegram_block(c),
        object_value(after_mode(c), "primary"@) is None,
        object_value(after_mode(c), "advisor"@) is None,
        c.telegram matches Some(t) ==> t.allowed_chats.finite() ==> llm_in(
            telegram_block(c)->0,
        ) is None,
{
    lemma_names();
    lemma_names_differ();
    lemma_spaces();
    lemma_end("telegram"@);
    lemma_end("primary"@);
    lemma_end("advisor"@);
    match c.telegram {
        Some(t) => {
            let p = part("telegram"@, telegram_inner(t)) + end_text();
            let sep = ",\n  "@;
            lemma_telegram_split(t);
            lemma_block_gap(sep, p);
            lemma_part_block("telegram"@, telegram_inner(t), end_text());
            lemma_object_gap(sep, p, "telegram"@);
            lemma_object_gap(sep, p, "primary"@);
            lemma_object_gap(sep, p, "advisor"@);
            lemma_part_hit("telegram"@, telegram_inner(t), end_text());
            lemma_telegram_skip(t, "primary"@);
            lemma_telegram_skip(t, "advisor"@);
            if t.allowed_chats.finite() {
                lemma_telegram_other(t);
            }
        },
        None => {},
    }
}

/// The block that comes next behind the models.
spec fn next_block(c: FileModel) -> Option<Seq<char>> {
    match c.advisor {
        Some(a) => Some(braced(mode_inner(a))),
        None => telegram_block(c),
    }
}

proof fn lemma_after_models_blocks(c: FileModel)
    ensures
        block_at(after_models(c)) == next_block(c),
        c.advisor matches Some(a) ==> object_value(after_models(c), "advisor_mode"@) == Some(
            braced(mode_inner(a)),
        ),
        object_value(after_models(c), "telegram"@) == telegram_block(c),
        c.advisor is None ==> object_value(after_models(c), "advisor"@) is None,
        object_value(after_models(c), "primary"@) is None || object_value(
            after_models(c),
            "primary"@,
        ) == telegram_block(c),
{
    lemma_names();
    lemma_names_differ();
    lemma_spaces();
    lemma_after_mode(c);
    reveal_strlit("\n  }");
    let close = "\n  }"@;
    assert(lacks(close, '"') && lacks(close, '{'));
    match c.advisor {
        Some(a) => {
            let p = part("advisor_mode"@, mode_inner(a)) + after_mode(c);
            let sep = ",\n  "@;
            lemma_mode_split(a);
            lemma_block_gap(close, sep + p);
            lemma_block_gap(sep, p);
            lemma_part_block("advisor_mode"@, mode_inner(a), after_mode(c));
            lemma_object_gap(close, sep + p, "advisor_mode"@);
            lemma_object_gap(sep, p, "advisor_mode"@);
            lemma_part_hit("advisor_mode"@, mode_inner(a), after_mode(c));
            lemma_object_gap(close, sep + p, "telegram"@);
            lemma_object_gap(sep, p, "telegram"@);
            lemma_mode_skip(a, after_mode(c), "telegram"@);
            lemma_routing_clash(a.routing, "telegram"@);
            lemma_object_gap(close, sep + p, "primary"@);
            lemma_object_gap(sep, p, "primary"@);
            lemma_mode_skip(a, after_mode(c), "primary"@);
        },
        None => {
            lemma_block_gap(close, after_mode(c));
            lemma_object_gap(close, after_mode(c), "telegram"@);
            lemma_object_gap(close, after_mode(c), "primary"@);
            lemma_object_gap(close, after_mode(c), "advisor"@);
        },
    }
}

// ---------------------------------------------------------------------------
// Laws
// ---------------------------------------------------------------------------

/// The settings as they are read back: control characters without an escape have
/// become spaces, and an empty key is no key.
pub open spec fn as_read(c: FileModel) -> FileModel {
    FileModel {
        primary_agent: match c.primary_agent {
            Some(p) => Some(llm_shown(p)),
            None => None,
        },
        telegram: match c.telegram {
            Some(t) => Some(
                TelegramModel { token: shown(t.token), allowed_chats: t.allowed_chats },
            ),
            None => None,
        },
        advisor: match c.advisor {
            Some(a) => Some(AdvisorModel { agent: llm_shown(a.agent), ..a }),
            None => None,
        },
    }
}

/// No setting misleads the file's reader: none is taken for a name in front of a
/// wrong value or block.
pub open spec fn readable(c: FileModel) -> bool {
    &&& c.primary_agent matches Some(p) ==> {
        &&& llm_clear(p)
        &&& !crossed(llm_pairs(p), "advisor"@)
        &&& !crossed(llm_pairs(p), "telegram"@)
    }
    &&& c.advisor matches Some(a) ==> {
        &&& llm_clear(a.agent)
        &&& !crossed(llm_pairs(a.agent), "advisor_mode"@)
        &&& !crossed(llm_pairs(a.agent), "telegram"@)
        &&& c.primary_agent is None ==> !crossed(llm_pairs(a.agent), "primary"@)
        &&& c.telegram is Some ==> !any_clash(llm_pairs(a.agent), "telegram"@)
        &&& c.primary_agent matches Some(p) ==> {
            &&& !any_clash(llm_pairs(p), "advisor_mode"@)
            &&& any_clash(llm_pairs(p), "telegram"@) ==> {
                &&& c.telegram is None
                &&& !any_clash(llm_pairs(a.agent), "bot_token"@)
                &&& !any_clash(llm_pairs(a.agent), "token"@)
            }
        }
    }
}

proof fn lemma_start(c: FileModel, k: Seq<char>)
    requires
        c.primary_agent is Some || c.advisor is Some,
        plain(k),
        k.len() > 0,
        k != "agents"@,
    ensures
        object_value(file_text(c), k) == object_value(from_models(c), k),
{
    lemma_names();
    reveal_strlit("{\n  ");
    reveal_strlit(": {\n    ");
    let open = ": {\n    "@;
    let tail = open + from_models(c);
    lemma_object_gap("{\n  "@, quo("agents"@) + tail, k);
    lemma_plain_clash("agents"@, k);
    assert(apart(tail));
    lemma_object_quo("agents"@, tail, k);
    lemma_object_gap(open, from_models(c), k);
}

/// The search for a block past the primary model's.
proof fn lemma_past_primary(c: FileModel, k: Seq<char>)
    requires
        no_llm_name(k),
        k != "thinking"@,
        k != "primary"@,
        c.primary_agent matches Some(p) ==> !crossed(llm_pairs(p), k),
    ensures
        object_value(from_models(c), k) == (match c.primary_agent {
            Some(p) => if any_clash(llm_pairs(p), k) {
                block_at(from_advisor(c))
            } else {
                object_value(from_advisor(c), k)
            },
            None => object_value(from_advisor(c), k),
        }),
{
    lemma_names();
    lemma_spaces();
    match c.primary_agent {
        Some(p) => {
            let rest = match c.advisor {
                Some(a) => ",\n    "@ + from_advisor(c),
                None => from_advisor(c),
            };
            lemma_llm_skip("primary"@, p, rest, k);
            lemma_block_gap(",\n    "@, from_advisor(c));
            lemma_object_gap(",\n    "@, from_advisor(c), k);
        },
        None => {},
    }
}

proof fn lemma_primary_read(c: FileModel)
    requires
        readable(c),
        c.telegram matches Some(t) ==> t.allowed_chats.finite(),
    ensures
        config_in(Some(file_text(c))).primary_agent == as_read(c).primary_agent,
{
    let k = "primary"@;
    lemma_names();
    lemma_names_differ();
    lemma_after_models_blocks(c);
    lemma_after_mode(c);
    if c.primary_agent is Some || c.advisor is Some {
        lemma_start(c, k);
        match c.primary_agent {
            Some(p) => {
                let rest = match c.advisor {
                    Some(a) => ",\n    "@ + from_advisor(c),
                    None => from_advisor(c),
                };
                lemma_llm_neutral(p);
                lemma_part_hit(k, llm_inner(p), rest);
                lemma_llm_read(p);
            },
            None => {
                let a = c.advisor->0;
                lemma_llm_skip("advisor"@, a.agent, after_models(c), k);
                lemma_mode_other(a);
            },
        }
    } else {
        lemma_bare_file(c, k);
    }
}

/// Nothing but Telegram is found in a file without models.
proof fn lemma_bare_file(c: FileModel, k: Seq<char>)
    requires
        c.primary_agent is None,
        c.advisor is None,
        k == "primary"@ || k == "advisor"@,
    ensures
        object_value(file_text(c), k) is None,
{
    lemma_names();
    reveal_strlit("{\n  ");
    reveal_strlit("{");
    lemma_end(k);
    match c.telegram {
        Some(t) => {
            lemma_object_gap("{\n  "@, part("telegram"@, telegram_inner(t)) + end_text(), k);
            lemma_telegram_skip(t, k);
        },
        None => {
            lemma_object_gap("{"@, end_text(), k);
        },
    }
}

proof fn lemma_advisor_read(c: FileModel)
    requires
        readable(c),
        c.telegram matches Some(t) ==> t.allowed_chats.finite(),
    ensures
        config_in(Some(file_text(c))).advisor == as_read(c).advisor,
{
    let k = "advisor"@;
    lemma_names();
    lemma_names_differ();
    lemma_after_models_blocks(c);
    lemma_after_mode(c);
    if c.primary_agent is Some || c.advisor is Some {
        lemma_start(c, k);
        lemma_past_primary(c, k);
        match c.advisor {
            Some(a) => {
                lemma_llm_neutral(a.agent);
                lemma_part_block(k, llm_inner(a.agent), after_models(c));
                lemma_part_hit(k, llm_inner(a.agent), after_models(c));
                lemma_llm_read(a.agent);
                let m = "advisor_mode"@;
                lemma_start(c, m);
                if c.primary_agent is Some {
                    lemma_clash_crossed(llm_pairs(c.primary_agent->0), m);
                }
                lemma_past_primary(c, m);
                lemma_llm_skip(k, a.agent, after_models(c), m);
                lemma_mode_read(a);
            },
            None => {},
        }
    } else {
        lemma_bare_file(c, k);
    }
}

proof fn lemma_clash_crossed(fs: Seq<(Seq<char>, Seq<char>)>, k: Seq<char>)
    requires
        !any_clash(fs, k),
    ensures
        !crossed(fs, k),
    decreases fs.len(),
{
    if fs.len() > 0 {
        lemma_clash_crossed(fs.skip(1), k);
    }
}

proof fn lemma_telegram_back(c: FileModel)
    requires
        readable(c),
        c.telegram matches Some(t) ==> t.allowed_chats.finite(),
    ensures
        config_in(Some(file_text(c))).telegram == as_read(c).telegram,
{
    let k = "telegram"@;
    lemma_names();
    lemma_names_differ();
    lemma_after_models_blocks(c);
    lemma_after_mode(c);
    match c.telegram {
        Some(t) => {
            lemma_telegram_read(t);
        },
        None => {},
    }
    if c.primary_agent is Some || c.advisor is Some {
        lemma_start(c, k);
        lemma_past_primary(c, k);
        match c.advisor {
            Some(a) => {
                lemma_llm_neutral(a.agent);
                lemma_part_block("advisor"@, llm_inner(a.agent), after_models(c));
                lemma_llm_skip("advisor"@, a.agent, after_models(c), k);
                lemma_mode_other(a);
                if c.primary_agent matches Some(p) && any_clash(llm_pairs(p), k) {
                    lemma_llm_other(a.agent);
                }
            },
            None => {},
        }
    } else {
        reveal_strlit("{\n  ");
        reveal_strlit("{");
        lemma_end(k);
        match c.telegram {
            Some(t) => {
                lemma_object_gap("{\n  "@, part(k, telegram_inner(t)) + end_text(), k);
                lemma_telegram_split(t);
                lemma_part_hit(k, telegram_inner(t), end_text());
            },
            None => {
                lemma_object_gap("{"@, end_text(), k);
            },
        }
    }
}

/// A text without control characters but line breaks and tabs.
pub open spec fn printable(s: Seq<char>) -> bool {
    forall|i: int| 0 <= i < s.len() ==> json::shown_char(#[trigger] s[i]) == s[i]
}

/// Settings of a model that are read back letter for letter: printable texts, and
/// no empty key.
pub open spec fn llm_printable(m: LlmModel) -> bool {
    &&& printable(m.provider)
    &&& printable(m.url)
    &&& printable(m.model)
    &&& m.api_key matches Some(key) ==> printable(key) && key.len() > 0
}

/// The models' settings are read back letter for letter.
pub open spec fn models_printable(c: FileModel) -> bool {
    &&& c.primary_agent matches Some(p) ==> llm_printable(p)
    &&& c.advisor matches Some(a) ==> llm_printable(a.agent)
}

proof fn lemma_printable(s: Seq<char>)
    requires
        printable(s),
    ensures
        shown(s) == s,
{
    assert(shown(s) =~= s);
}

proof fn lemma_llm_printable(m: LlmModel)
    requires
        llm_printable(m),
    ensures
        llm_shown(m) == m,
{
    lemma_printable(m.provider);
    lemma_printable(m.url);
    lemma_printable(m.model);
    match m.api_key {
        Some(key) => {
            lemma_printable(key);
        },
        None => {},
    }
}

proof fn lemma_models_printable(c: FileModel)
    requires
        models_printable(c),
    ensures
        as_read(c).primary_agent == c.primary_agent,
        as_read(c).advisor == c.advisor,
{
    match c.primary_agent {
        Some(p) => {
            lemma_llm_printable(p);
        },
        None => {},
    }
    match c.advisor {
        Some(a) => {
            lemma_llm_printable(a.agent);
        },
        None => {},
    }
}

/// The settings that were written read back, whatever they are, unless one of them
/// is taken for a name of the file in front of a wrong value or block; printable
/// ones read back letter for letter.
pub proof fn law_config_reads_back(c: FileModel)
    requires
        readable(c),
        c.telegram matches Some(t) ==> t.allowed_chats.finite(),
    ensures
        config_in(Some(rendered(c))) == as_read(c),
        models_printable(c) && (c.telegram matches Some(t) ==> printable(t.token)) ==> config_in(
            Some(rendered(c)),
        ) == c,
{
    lemma_file(c);
    lemma_primary_read(c);
    lemma_advisor_read(c);
    lemma_telegram_back(c);
    if models_printable(c) {
        lemma_models_printable(c);
    }
    match c.telegram {
        Some(t) => {
            if printable(t.token) {
                lemma_printable(t.token);
            }
        },
        None => {},
    }
}

/// Setting Telegram keeps the models, with whether they think, and the advisor's
/// mode and routing.
pub proof fn law_telegram_edit_keeps_models(file: Option<Seq<char>>, t: TelegramModel)
    requires
        t.allowed_chats.finite(),
        readable(FileModel { telegram: Some(t), ..config_in(file) }),
    ensures
        ({
            let before = config_in(file);
            let after = config_in(Some(rendered(FileModel { telegram: Some(t), ..before })));
            &&& after.primary_agent == as_read(before).primary_agent
            &&& after.advisor == as_read(before).advisor
            &&& after.telegram == Some(TelegramModel { token: shown(t.token), ..t })
            &&& models_printable(before) ==> after.primary_agent == before.primary_agent
                && after.advisor == before.advisor
            &&& printable(t.token) ==> after.telegram == Some(t)
        }),
{
    let before = config_in(file);
    law_config_reads_back(FileModel { telegram: Some(t), ..before });
    if models_printable(before) {
        lemma_models_printable(before);
    }
    if printable(t.token) {
        lemma_printable(t.token);
    }
}

/// Setting the primary model keeps whether it thinks, the advisor and Telegram, and
/// the model reads back as it was set.
pub proof fn law_primary_edit_keeps_the_rest(
    file: Option<Seq<char>>,
    provider: Seq<char>,
    url: Seq<char>,
    model: Seq<char>,
    api_key: Option<Seq<char>>,
)
    requires
        readable(with_primary(config_in(file), provider, url, model, api_key)),
        config_in(file).telegram matches Some(t) ==> t.allowed_chats.finite(),
    ensures
        ({
            let before = config_in(file);
            let set = with_primary(before, provider, url, model, api_key);
            let after = config_in(Some(rendered(set)));
            &&& after.advisor == as_read(before).advisor
            &&& after.telegram == as_read(before).telegram
            &&& after.primary_agent matches Some(p) && p.thinking == (
            before.primary_agent matches Some(q) && q.thinking)
            &&& models_printable(set) ==> after.primary_agent == set.primary_agent
                && after.advisor == before.advisor
        }),
{
    let set = with_primary(config_in(file), provider, url, model, api_key);
    law_config_reads_back(set);
    if models_printable(set) {
        lemma_models_printable(set);
    }
}

/// A chat that was paired is allowed, and the others stay; unpairing it takes it
/// away again, so that a chat that was new leaves the chats as they were.
pub proof fn law_pairing_is_undone(c: FileModel, t: TelegramModel, chat: i64)
    requires
        c.telegram == Some(t),
        t.allowed_chats.finite(),
        readable(c),
    ensures
        ({
            let paired = TelegramModel { allowed_chats: t.allowed_chats.insert(chat), ..t };
            let read = config_in(Some(rendered(FileModel { telegram: Some(paired), ..c })));
            &&& read.telegram matches Some(now) && now.allowed_chats == t.allowed_chats.insert(chat)
                && now.allowed_chats.remove(chat) == t.allowed_chats.remove(chat)
            &&& !t.allowed_chats.contains(chat) ==> t.allowed_chats.insert(chat).remove(chat)
                == t.allowed_chats
        }),
{
    let paired = TelegramModel { allowed_chats: t.allowed_chats.insert(chat), ..t };
    law_config_reads_back(FileModel { telegram: Some(paired), ..c });
    assert(t.allowed_chats.insert(chat).remove(chat) =~= t.allowed_chats.remove(chat));
    if !t.allowed_chats.contains(chat) {
        assert(t.allowed_chats.insert(chat).remove(chat) =~= t.allowed_chats);
    }
}

}
