//! Sets of numbers listed in ascending order.
use std::collections::BTreeSet;

use vstd::prelude::*;

verus! {

/// Each number is smaller than the ones behind it.
pub open spec fn ascending(order: Seq<i64>) -> bool {
    forall|i: int, j: int| 0 <= i < j < order.len() ==> #[trigger] order[i] < #[trigger] order[j]
}

/// The sequence lists the set in ascending order, each member once.
pub open spec fn lists(order: Seq<i64>, set: Set<i64>) -> bool {
    &&& ascending(order)
    &&& order.to_set() == set
}

/// The set in ascending order.
pub open spec fn listed(set: Set<i64>) -> Seq<i64> {
    choose|order: Seq<i64>| lists(order, set)
}

/// There is one ascending listing at most.
pub proof fn lemma_listing_is_unique(a: Seq<i64>, b: Seq<i64>)
    requires
        ascending(a),
        ascending(b),
        a.to_set() == b.to_set(),
    ensures
        a == b,
    decreases a.len(),
{
    if a.len() == 0 || b.len() == 0 {
        if a.len() > 0 {
            assert(a.to_set().contains(a[0]));
            assert(b.to_set().contains(a[0]));
        }
        if b.len() > 0 {
            assert(b.to_set().contains(b[0]));
            assert(a.to_set().contains(b[0]));
        }
        assert(a =~= b);
    } else {
        let x = a.last();
        let y = b.last();
        assert(a.to_set().contains(x) && b.to_set().contains(x));
        assert(b.to_set().contains(y) && a.to_set().contains(y));
        let i = b.index_of(x);
        let j = a.index_of(y);
        assert(b[i] == x && a[j] == y);
        assert(x <= y && y <= x);
        let p = a.drop_last();
        let q = b.drop_last();
        assert forall|v: i64| #[trigger] p.to_set().contains(v) == q.to_set().contains(v) by {
            assert(a =~= p.push(x));
            assert(b =~= q.push(y));
            if p.contains(v) {
                let k = p.index_of(v);
                assert(a[k] == v && v < x);
                assert(a.contains(v));
                assert(b.to_set().contains(v));
                let m = b.index_of(v);
                assert(b[m] == v);
                assert(q[m] == v);
            }
            if q.contains(v) {
                let k = q.index_of(v);
                assert(b[k] == v && v < y);
                assert(b.contains(v));
                assert(a.to_set().contains(v));
                let m = a.index_of(v);
                assert(a[m] == v);
                assert(p[m] == v);
            }
        }
        assert(p.to_set() =~= q.to_set());
        lemma_listing_is_unique(p, q);
        assert(a =~= p.push(x));
        assert(b =~= q.push(y));
    }
}

pub proof fn lemma_listed_is(order: Seq<i64>, set: Set<i64>)
    requires
        lists(order, set),
    ensures
        listed(set) == order,
{
    lemma_listing_is_unique(order, listed(set));
}

proof fn lemma_room(order: Seq<i64>, x: i64) -> (r: Seq<i64>)
    requires
        ascending(order),
        !order.contains(x),
    ensures
        lists(r, order.to_set().insert(x)),
    decreases order.len(),
{
    if order.len() == 0 || order.last() < x {
        let r = order.push(x);
        assert forall|v: i64| #[trigger] r.to_set().contains(v) == order.to_set().insert(
            x,
        ).contains(v) by {
            assert(r[order.len() as int] == x);
            if order.contains(v) {
                let k = order.index_of(v);
                assert(r[k] == v);
            }
            if r.contains(v) {
                let k = r.index_of(v);
                if k < order.len() {
                    assert(order[k] == v);
                }
            }
        }
        assert(r.to_set() =~= order.to_set().insert(x));
        r
    } else {
        let y = order.last();
        assert(order[order.len() - 1] == y);
        let init = order.drop_last();
        assert(!init.contains(x)) by {
            if init.contains(x) {
                let k = init.index_of(x);
                assert(order[k] == x);
            }
        }
        let q = lemma_room(init, x);
        let r = q.push(y);
        assert forall|i: int| 0 <= i < q.len() implies #[trigger] q[i] < y by {
            assert(q.to_set().contains(q[i]));
            if q[i] != x {
                assert(init.to_set().contains(q[i]));
                let k = init.index_of(q[i]);
                assert(order[k] == q[i]);
            }
        }
        assert(ascending(r)) by {
            assert forall|i: int, j: int| 0 <= i < j < r.len() implies #[trigger] r[i]
                < #[trigger] r[j] by {
                assert(r[i] == q[i]);
            }
        }
        assert forall|v: i64| #[trigger] r.to_set().contains(v) == order.to_set().insert(
            x,
        ).contains(v) by {
            assert(r[q.len() as int] == y);
            if q.contains(v) {
                let k = q.index_of(v);
                assert(r[k] == v);
            }
            if r.contains(v) {
                let k = r.index_of(v);
                if k < q.len() {
                    assert(q[k] == v);
                }
            }
            assert(q.to_set().contains(v) == q.contains(v));
            assert(init.to_set().insert(x).contains(v) == q.contains(v));
            if init.contains(v) {
                let k = init.index_of(v);
                assert(order[k] == v);
            }
            if order.contains(v) && v != y {
                let k = order.index_of(v);
                assert(init[k] == v);
            }
        }
        assert(r.to_set() =~= order.to_set().insert(x));
        r
    }
}

/// A finite set has its listing.
pub proof fn lemma_listed_lists(set: Set<i64>)
    requires
        set.finite(),
    ensures
        lists(listed(set), set),
    decreases set.len(),
{
    if set.len() == 0 {
        let order = Seq::<i64>::empty();
        assert(order.to_set() =~= set);
        lemma_listed_is(order, set);
    } else {
        let x = set.choose();
        let less = set.remove(x);
        lemma_listed_lists(less);
        let before = listed(less);
        assert(!before.contains(x)) by {
            assert(before.to_set().contains(x) == before.contains(x));
        }
        let order = lemma_room(before, x);
        assert(less.insert(x) =~= set);
        lemma_listed_is(order, set);
    }
}

/// Puts a number where the order wants it.
fn insert_ascending(v: &mut Vec<i64>, x: i64)
    requires
        ascending(old(v)@),
    ensures
        ascending(final(v)@),
        final(v)@.to_set() == old(v)@.to_set().insert(x),
{
    let ghost start = v@;
    let mut i: usize = 0;
    while i < v.len() && v[i] < x
        invariant
            v@ == start,
            i <= v.len(),
            forall|k: int| 0 <= k < i ==> start[k] < x,
        decreases v.len() - i,
    {
        i += 1;
    }
    if i < v.len() && v[i] == x {
        assert(start.to_set().contains(start[i as int]));
        assert(start.to_set() =~= start.to_set().insert(x));
        return ;
    }
    v.insert(i, x);
    assert(v@ =~= start.insert(i as int, x));
    assert forall|w: i64| #[trigger] v@.to_set().contains(w) == start.to_set().insert(x).contains(
        w,
    ) by {
        if v@.contains(w) {
            let k = v@.index_of(w);
            if k < i {
                assert(start[k] == w);
            } else if k > i {
                assert(start[k - 1] == w);
            }
        }
        if start.contains(w) {
            let k = start.index_of(w);
            if k < i {
                assert(v@[k] == w);
            } else {
                assert(v@[k + 1] == w);
            }
        }
        assert(v@[i as int] == x);
    }
    assert(v@.to_set() =~= start.to_set().insert(x));
}

/// The members of the set in ascending order.
pub fn list_ascending(set: &BTreeSet<i64>) -> (r: Vec<i64>)
    ensures
        r@ == listed(set@),
        lists(r@, set@),
{
    broadcast use vstd::std_specs::btree::group_btree_axioms;

    let mut out: Vec<i64> = Vec::new();
    assert(out@.to_set() =~= Set::empty());
    for x in it: set.iter()
        invariant
            ascending(out@),
            out@.to_set() == it.seq().unref().take(it.index()).to_set(),
            it.seq().unref().to_set() == set@,
            it.index() == it.seq().len() ==> out@.to_set() == set@,
    {
        let ghost all = it.seq().unref();
        let ghost k = it.index();
        insert_ascending(&mut out, *x);
        proof {
            assert(all.take(k + 1) =~= all.take(k).push(*x));
            if k + 1 == all.len() {
                assert(all.take(k + 1) =~= all);
            }
            assert(all.take(k).push(*x).to_set() =~= all.take(k).to_set().insert(*x)) by {
                assert forall|w: i64|
                    all.take(k).push(*x).contains(w) == all.take(k).to_set().insert(*x).contains(
                        w,
                    ) by {
                    if all.take(k).contains(w) {
                        let m = all.take(k).index_of(w);
                        assert(all.take(k).push(*x)[m] == w);
                    }
                    assert(all.take(k).push(*x)[k] == *x);
                }
            }
        }
    }
    assert(lists(out@, set@));
    proof {
        lemma_listed_is(out@, set@);
    }
    out
}

}
