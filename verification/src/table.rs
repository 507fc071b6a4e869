//! A map from texts to texts, kept as a list of rows in the order of the keys.
use vstd::prelude::*;

use crate::chars;
use crate::text;

verus! {

/// One row: its key and its value.
pub type Row = (Seq<char>, Seq<char>);

/// The rows stand in strictly ascending order of their keys.
pub open spec fn ordered(rows: Seq<Row>) -> bool {
    forall|i: int, j: int| 0 <= i < j < rows.len() ==> chars::precedes(
        (#[trigger] rows[i]).0,
        (#[trigger] rows[j]).0,
    )
}

/// The value under a key.
pub open spec fn lookup(rows: Seq<Row>, key: Seq<char>) -> Option<Seq<char>>
    decreases rows.len(),
{
    if rows.len() == 0 {
        None
    } else if rows[0].0 == key {
        Some(rows[0].1)
    } else {
        lookup(rows.skip(1), key)
    }
}

/// The rows with `value` under `key`: in place of the row of that key, or as a
/// new row where the order of the keys wants it.
pub open spec fn put(rows: Seq<Row>, key: Seq<char>, value: Seq<char>) -> Seq<Row>
    decreases rows.len(),
{
    if rows.len() == 0 {
        seq![(key, value)]
    } else if chars::precedes(rows[0].0, key) {
        seq![rows[0]] + put(rows.skip(1), key, value)
    } else if rows[0].0 == key {
        seq![(key, value)] + rows.skip(1)
    } else {
        seq![(key, value)] + rows
    }
}

/// The rows without the row of `key`.
pub open spec fn without(rows: Seq<Row>, key: Seq<char>) -> Seq<Row>
    decreases rows.len(),
{
    if rows.len() == 0 {
        rows
    } else if rows[0].0 == key {
        rows.skip(1)
    } else {
        seq![rows[0]] + without(rows.skip(1), key)
    }
}

/// The keys in their order.
pub open spec fn keys(rows: Seq<Row>) -> Seq<Seq<char>> {
    rows.map_values(|r: Row| r.0)
}

/// The rows of a list of pairs of strings.
pub open spec fn rows_of(v: Seq<(String, String)>) -> Seq<Row> {
    v.map_values(|r: (String, String)| (r.0@, r.1@))
}

/// A map from texts to texts.
#[derive(Debug)]
pub struct Table {
    rows: Vec<(String, String)>,
}

impl View for Table {
    type V = Seq<Row>;

    closed spec fn view(&self) -> Seq<Row> {
        rows_of(self.rows@)
    }
}

impl Clone for Table {
    fn clone(&self) -> (r: Self)
        ensures
            r@ == self@,
    {
        let mut rows: Vec<(String, String)> = Vec::new();
        let mut i: usize = 0;
        while i < self.rows.len()
            invariant
                i <= self.rows.len(),
                rows@ == self.rows@.take(i as int),
            decreases self.rows.len() - i,
        {
            rows.push((self.rows[i].0.clone(), self.rows[i].1.clone()));
            assert(rows@ =~= self.rows@.take(i + 1));
            i += 1;
        }
        assert(self.rows@.take(i as int) =~= self.rows@);
        Table { rows }
    }
}

impl Table {
    pub open spec fn wf(&self) -> bool {
        ordered(self@)
    }

    pub fn new() -> (r: Table)
        ensures
            r@ == Seq::<Row>::empty(),
            r.wf(),
    {
        let r = Table { rows: Vec::new() };
        assert(r@ =~= Seq::<Row>::empty());
        r
    }

    pub fn len(&self) -> (r: usize)
        ensures
            r == self@.len(),
    {
        self.rows.len()
    }

    /// The key of row `i`.
    pub fn key(&self, i: usize) -> (r: &str)
        requires
            i < self@.len(),
        ensures
            r@ == self@[i as int].0,
    {
        self.rows[i].0.as_str()
    }

    /// The value of row `i`.
    pub fn value(&self, i: usize) -> (r: &str)
        requires
            i < self@.len(),
        ensures
            r@ == self@[i as int].1,
    {
        self.rows[i].1.as_str()
    }

    /// The number of the row of `key`.
    fn position(&self, key: &str) -> (r: Option<usize>)
        ensures
            match r {
                Some(i) => i < self@.len() && self@[i as int].0 == key@ && lookup(self@, key@)
                    == Some(self@[i as int].1) && without(self@, key@) == self@.remove(i as int),
                None => lookup(self@, key@) is None && without(self@, key@) == self@,
            },
    {
        let mut i: usize = 0;
        let ghost all = self@;
        assert(all.skip(0) =~= all);
        assert(all.take(0) + without(all, key@) =~= without(all, key@));
        while i < self.rows.len()
            invariant
                i <= self.rows.len(),
                all == self@,
                all.len() == self.rows.len(),
                lookup(all, key@) == lookup(all.skip(i as int), key@),
                without(all, key@) == all.take(i as int) + without(all.skip(i as int), key@),
            decreases self.rows.len() - i,
        {
            let ghost rest = all.skip(i as int);
            assert(rest.skip(1) =~= all.skip(i + 1));
            if text::same(self.rows[i].0.as_str(), key) {
                assert(all.remove(i as int) =~= all.take(i as int) + rest.skip(1));
                return Some(i);
            }
            assert(all.take(i as int) + (seq![rest[0]] + without(rest.skip(1), key@))
                =~= all.take(i + 1) + without(rest.skip(1), key@));
            i += 1;
        }
        assert(all.take(i as int) + without(all.skip(i as int), key@) =~= all);
        None
    }

    /// The value under `key`.
    pub fn get(&self, key: &str) -> (r: Option<&str>)
        ensures
            match r {
                Some(v) => lookup(self@, key@) == Some(v@),
                None => lookup(self@, key@) is None,
            },
    {
        match self.position(key) {
            Some(i) => Some(self.rows[i].1.as_str()),
            None => None,
        }
    }

    /// Whether `key` has a row.
    pub fn has(&self, key: &str) -> (r: bool)
        ensures
            r == (lookup(self@, key@) is Some),
    {
        self.position(key).is_some()
    }

    /// Puts `value` under `key`.
    pub fn insert(&mut self, key: &str, value: &str)
        ensures
            final(self)@ == put(old(self)@, key@, value@),
            old(self).wf() ==> final(self).wf(),
    {
        let ghost all = self@;
        let mut i: usize = 0;
        assert(all.skip(0) =~= all);
        assert(all.take(0) + put(all, key@, value@) =~= put(all, key@, value@));
        while i < self.rows.len() && text::precedes(self.rows[i].0.as_str(), key)
            invariant
                i <= self.rows.len(),
                all == self@,
                all == old(self)@,
                all.len() == self.rows.len(),
                put(all, key@, value@) == all.take(i as int) + put(
                    all.skip(i as int),
                    key@,
                    value@,
                ),
            decreases self.rows.len() - i,
        {
            let ghost rest = all.skip(i as int);
            assert(rest.skip(1) =~= all.skip(i + 1));
            assert(all.take(i as int) + (seq![rest[0]] + put(rest.skip(1), key@, value@))
                =~= all.take(i + 1) + put(rest.skip(1), key@, value@));
            i += 1;
        }
        let ghost rest = all.skip(i as int);
        proof {
            if ordered(all) {
                lemma_put_ordered(all, key@, value@);
            }
        }
        if i < self.rows.len() && text::same(self.rows[i].0.as_str(), key) {
            self.rows.set(i, (key.to_owned(), value.to_owned()));
            assert(self@ =~= all.take(i as int) + (seq![(key@, value@)] + rest.skip(1)));
        } else {
            self.rows.insert(i, (key.to_owned(), value.to_owned()));
            assert(self@ =~= all.take(i as int) + (seq![(key@, value@)] + rest));
        }
    }

    /// Takes the row of `key` away, if there is one.
    pub fn remove(&mut self, key: &str)
        ensures
            final(self)@ == without(old(self)@, key@),
            old(self).wf() ==> final(self).wf(),
    {
        let ghost all = self@;
        match self.position(key) {
            Some(i) => {
                self.rows.remove(i);
                assert(self@ =~= all.remove(i as int));
            },
            None => {},
        }
    }
}

pub proof fn lemma_put_ordered(rows: Seq<Row>, key: Seq<char>, value: Seq<char>)
    requires
        ordered(rows),
    ensures
        ordered(put(rows, key, value)),
        forall|i: int| #![auto]
            0 <= i < put(rows, key, value).len() ==> put(rows, key, value)[i].0 == key || exists|
                j: int,
            |
                0 <= j < rows.len() && rows[j].0 == put(rows, key, value)[i].0,
    decreases rows.len(),
{
    let r = put(rows, key, value);
    if rows.len() == 0 {
    } else if chars::precedes(rows[0].0, key) {
        let rest = rows.skip(1);
        let tail = put(rest, key, value);
        assert forall|i: int, j: int| 0 <= i < j < rest.len() implies chars::precedes(
            (#[trigger] rest[i]).0,
            (#[trigger] rest[j]).0,
        ) by {
            assert(rest[i] == rows[i + 1] && rest[j] == rows[j + 1]);
        }
        lemma_put_ordered(rest, key, value);
        assert forall|i: int| 0 <= i < tail.len() implies chars::precedes(
            rows[0].0,
            (#[trigger] tail[i]).0,
        ) by {
            if tail[i].0 != key {
                let j = choose|j: int| 0 <= j < rest.len() && rest[j].0 == tail[i].0;
                assert(rest[j] == rows[j + 1]);
            }
        }
        assert forall|i: int, j: int| 0 <= i < j < r.len() implies chars::precedes(
            (#[trigger] r[i]).0,
            (#[trigger] r[j]).0,
        ) by {
            assert(r[j] == tail[j - 1]);
            if i > 0 {
                assert(r[i] == tail[i - 1]);
            }
        }
        assert forall|i: int| #![auto] 0 <= i < r.len() implies r[i].0 == key || exists|j: int|
            0 <= j < rows.len() && rows[j].0 == r[i].0 by {
            if i == 0 {
                assert(rows[0].0 == r[i].0);
            } else {
                assert(r[i] == tail[i - 1]);
                if tail[i - 1].0 != key {
                    let j = choose|j: int| 0 <= j < rest.len() && rest[j].0 == tail[i - 1].0;
                    assert(rows[j + 1].0 == r[i].0);
                }
            }
        }
    } else {
        chars::lemma_precedes_total(rows[0].0, key);
        if rows[0].0 == key {
            assert(r =~= rows.update(0, (key, value)));
            assert forall|i: int| #![auto] 0 <= i < r.len() implies r[i].0 == key || exists|j: int|
                0 <= j < rows.len() && rows[j].0 == r[i].0 by {
                assert(rows[i].0 == r[i].0);
            }
        } else {
            assert forall|i: int, j: int| 0 <= i < j < r.len() implies chars::precedes(
                (#[trigger] r[i]).0,
                (#[trigger] r[j]).0,
            ) by {
                assert(r[j] == rows[j - 1]);
                if i == 0 {
                    if j > 1 {
                        chars::lemma_precedes_transitive(key, rows[0].0, rows[j - 1].0);
                    }
                } else {
                    assert(r[i] == rows[i - 1]);
                }
            }
            assert forall|i: int| #![auto] 0 <= i < r.len() implies r[i].0 == key || exists|j: int|
                0 <= j < rows.len() && rows[j].0 == r[i].0 by {
                if i > 0 {
                    assert(rows[i - 1].0 == r[i].0);
                }
            }
        }
    }
}

proof fn lemma_lookup_absent(rows: Seq<Row>, key: Seq<char>)
    requires
        forall|i: int| 0 <= i < rows.len() ==> (#[trigger] rows[i]).0 != key,
    ensures
        lookup(rows, key) is None,
    decreases rows.len(),
{
    if rows.len() > 0 {
        lemma_lookup_absent(rows.skip(1), key);
    }
}

/// After a `put`, its key gives its value and every other key what it gave before.
pub proof fn law_put_then_lookup(
    rows: Seq<Row>,
    key: Seq<char>,
    value: Seq<char>,
    other: Seq<char>,
)
    requires
        ordered(rows),
    ensures
        lookup(put(rows, key, value), other) == (if other == key {
            Some(value)
        } else {
            lookup(rows, other)
        }),
    decreases rows.len(),
{
    if rows.len() == 0 {
        let one = put(rows, key, value);
        assert(one[0] == (key, value));
        assert(one.skip(1).len() == 0);
        assert(lookup(one.skip(1), other) is None);
    } else if chars::precedes(rows[0].0, key) {
        let rest = rows.skip(1);
        assert forall|i: int, j: int| 0 <= i < j < rest.len() implies chars::precedes(
            (#[trigger] rest[i]).0,
            (#[trigger] rest[j]).0,
        ) by {
            assert(rest[i] == rows[i + 1] && rest[j] == rows[j + 1]);
        }
        law_put_then_lookup(rest, key, value, other);
        chars::lemma_precedes_asymmetric(rows[0].0, key);
        assert(put(rows, key, value).skip(1) =~= put(rest, key, value));
    } else if rows[0].0 == key {
        assert(put(rows, key, value).skip(1) =~= rows.skip(1));
    } else {
        assert(put(rows, key, value).skip(1) =~= rows);
    }
}

/// After a removal, the key gives nothing and every other key what it gave before.
pub proof fn law_without_then_lookup(rows: Seq<Row>, key: Seq<char>, other: Seq<char>)
    requires
        ordered(rows),
    ensures
        lookup(without(rows, key), other) == (if other == key {
            None
        } else {
            lookup(rows, other)
        }),
    decreases rows.len(),
{
    if rows.len() > 0 {
        let rest = rows.skip(1);
        assert forall|i: int, j: int| 0 <= i < j < rest.len() implies chars::precedes(
            (#[trigger] rest[i]).0,
            (#[trigger] rest[j]).0,
        ) by {
            assert(rest[i] == rows[i + 1] && rest[j] == rows[j + 1]);
        }
        if rows[0].0 == key {
            if other == key {
                assert forall|i: int| 0 <= i < rest.len() implies (#[trigger] rest[i]).0 != key by {
                    assert(rest[i] == rows[i + 1]);
                    chars::lemma_precedes_asymmetric(rows[0].0, rows[i + 1].0);
                }
                lemma_lookup_absent(rest, key);
            }
        } else {
            law_without_then_lookup(rest, key, other);
            assert(without(rows, key).skip(1) =~= without(rest, key));
        }
    }
}

/// Putting a row back under its key restores the table that held it.
pub proof fn law_put_undoes_without(rows: Seq<Row>, key: Seq<char>, value: Seq<char>)
    requires
        ordered(rows),
        lookup(rows, key) == Some(value),
    ensures
        put(without(rows, key), key, value) == rows,
    decreases rows.len(),
{
    let rest = rows.skip(1);
    assert forall|i: int, j: int| 0 <= i < j < rest.len() implies chars::precedes(
        (#[trigger] rest[i]).0,
        (#[trigger] rest[j]).0,
    ) by {
        assert(rest[i] == rows[i + 1] && rest[j] == rows[j + 1]);
    }
    if rows[0].0 == key {
        if rest.len() > 0 {
            assert(rest[0] == rows[1]);
            chars::lemma_precedes_asymmetric(rows[0].0, rows[1].0);
        }
        assert(put(rest, key, value) =~= rows);
    } else {
        law_put_undoes_without(rest, key, value);
        lemma_found(rest, key);
        let j = choose|j: int| 0 <= j < rest.len() && rest[j].0 == key;
        assert(rest[j] == rows[j + 1]);
        assert(chars::precedes(rows[0].0, key));
        assert(without(rows, key).skip(1) =~= without(rest, key));
        assert(put(without(rows, key), key, value) =~= seq![rows[0]] + rest);
        assert(seq![rows[0]] + rest =~= rows);
    }
}

proof fn lemma_found(rows: Seq<Row>, key: Seq<char>)
    requires
        lookup(rows, key) is Some,
    ensures
        exists|j: int| 0 <= j < rows.len() && rows[j].0 == key,
    decreases rows.len(),
{
    if rows[0].0 != key {
        lemma_found(rows.skip(1), key);
        let j = choose|j: int| 0 <= j < rows.skip(1).len() && rows.skip(1)[j].0 == key;
        assert(rows[j + 1].0 == key);
    }
}

pub proof fn lemma_without_ordered(rows: Seq<Row>, key: Seq<char>)
    requires
        ordered(rows),
    ensures
        ordered(without(rows, key)),
        forall|i: int| #![auto]
            0 <= i < without(rows, key).len() ==> rows.contains(without(rows, key)[i]),
    decreases rows.len(),
{
    let r = without(rows, key);
    if rows.len() > 0 {
        let rest = rows.skip(1);
        assert forall|i: int, j: int| 0 <= i < j < rest.len() implies chars::precedes(
            (#[trigger] rest[i]).0,
            (#[trigger] rest[j]).0,
        ) by {
            assert(rest[i] == rows[i + 1] && rest[j] == rows[j + 1]);
        }
        if rows[0].0 == key {
            assert forall|i: int| #![auto] 0 <= i < r.len() implies rows.contains(r[i]) by {
                assert(rows[i + 1] == r[i]);
            }
        } else {
            lemma_without_ordered(rest, key);
            let tail = without(rest, key);
            assert forall|i: int| #![auto] 0 <= i < r.len() implies rows.contains(r[i]) by {
                if i == 0 {
                    assert(rows[0] == r[i]);
                } else {
                    assert(r[i] == tail[i - 1]);
                    let k = choose|k: int| 0 <= k < rest.len() && rest[k] == tail[i - 1];
                    assert(rows[k + 1] == r[i]);
                }
            }
            assert forall|i: int, j: int| 0 <= i < j < r.len() implies chars::precedes(
                (#[trigger] r[i]).0,
                (#[trigger] r[j]).0,
            ) by {
                assert(r[j] == tail[j - 1]);
                if i == 0 {
                    let k = choose|k: int| 0 <= k < rest.len() && rest[k] == tail[j - 1];
                    assert(rest[k] == rows[k + 1]);
                } else {
                    assert(r[i] == tail[i - 1]);
                }
            }
        }
    }
}

pub proof fn lemma_without_absent(rows: Seq<Row>, key: Seq<char>)
    requires
        lookup(rows, key) is None,
    ensures
        without(rows, key) == rows,
    decreases rows.len(),
{
    if rows.len() > 0 {
        lemma_without_absent(rows.skip(1), key);
        assert(seq![rows[0]] + rows.skip(1) =~= rows);
    }
}

pub proof fn lemma_put_again(rows: Seq<Row>, key: Seq<char>, v: Seq<char>, w: Seq<char>)
    requires
        ordered(rows),
    ensures
        put(put(rows, key, v), key, w) == put(rows, key, w),
        lookup(rows, key) == Some(w) ==> put(rows, key, w) == rows,
        lookup(rows, key) is None ==> without(put(rows, key, v), key) == rows,
    decreases rows.len(),
{
    chars::lemma_precedes_irreflexive(key);
    if rows.len() == 0 {
        let one = put(rows, key, v);
        assert(one.skip(1) =~= rows);
        assert(put(one, key, w) =~= put(rows, key, w));
        assert(without(one, key) =~= rows);
    } else {
        let rest = rows.skip(1);
        assert forall|i: int, j: int| 0 <= i < j < rest.len() implies chars::precedes(
            (#[trigger] rest[i]).0,
            (#[trigger] rest[j]).0,
        ) by {
            assert(rest[i] == rows[i + 1] && rest[j] == rows[j + 1]);
        }
        lemma_put_again(rest, key, v, w);
        let once = put(rows, key, v);
        if chars::precedes(rows[0].0, key) {
            chars::lemma_precedes_asymmetric(rows[0].0, key);
            assert(once.skip(1) =~= put(rest, key, v));
            assert(seq![rows[0]] + rest =~= rows);
        } else if rows[0].0 == key {
            assert(once.skip(1) =~= rest);
            assert(put(once, key, w) =~= put(rows, key, w));
            if rows[0].1 == w {
                assert(put(rows, key, w) =~= rows);
            }
        } else {
            assert(once.skip(1) =~= rows);
            assert(without(once, key) =~= rows);
            chars::lemma_precedes_total(rows[0].0, key);
            assert forall|i: int| 0 <= i < rows.len() implies (#[trigger] rows[i]).0 != key by {
                if i > 0 {
                    chars::lemma_precedes_transitive(key, rows[0].0, rows[i].0);
                }
            }
            lemma_lookup_absent(rows, key);
        }
    }
}

}
