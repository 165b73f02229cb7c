//! The order in which a feed's items are listed, and pages of that listing.
//!
//! Items are listed freshest first: by published text, descending, items
//! without one after all those that have one, and later rows first among
//! equals. Within one store no two items share an id, so the order is total
//! and a feed has exactly one listing.

use crate::db::{item_ref_views, item_views, Item, ItemView};
use crate::text::{
    lemma_bytes_less_irreflexive,
    lemma_bytes_less_total,
    lemma_bytes_less_transitive,
    text_before,
    text_less,
};
use vstd::prelude::*;
use vstd::utf8::*;

verus! {

// ---------------------------------------------------------------------------
// The order
// ---------------------------------------------------------------------------

/// The published value of `a` ranks strictly ahead of that of `b`: it is the
/// greater text, or `a` has one and `b` has none.
pub open spec fn published_after(a: ItemView, b: ItemView) -> bool {
    match (a.published, b.published) {
        (Some(x), Some(y)) => text_less(y, x),
        (Some(_), None) => true,
        _ => false,
    }
}

/// `a` is listed before `b`.
pub open spec fn precedes(a: ItemView, b: ItemView) -> bool {
    published_after(a, b) || (!published_after(b, a) && a.id > b.id)
}

/// No item is listed before itself.
pub proof fn lemma_precedes_irreflexive(a: ItemView)
    ensures
        !precedes(a, a),
{
    if a.published is Some {
        lemma_bytes_less_irreflexive(encode_utf8(a.published->0));
    }
}

/// Of two items at most one is listed before the other.
pub proof fn lemma_precedes_asymmetric(a: ItemView, b: ItemView)
    requires
        precedes(a, b),
    ensures
        !precedes(b, a),
{
    if a.published is Some && b.published is Some {
        let x = encode_utf8(a.published->0);
        let y = encode_utf8(b.published->0);
        if bytes_less_both(x, y) {
            lemma_bytes_less_transitive(x, y, x);
            lemma_bytes_less_irreflexive(x);
        }
    }
}

/// Each of two byte strings comes before the other (which never holds).
spec fn bytes_less_both(x: Seq<u8>, y: Seq<u8>) -> bool {
    crate::text::bytes_less(x, y) && crate::text::bytes_less(y, x)
}

/// The order is transitive.
pub proof fn lemma_precedes_transitive(a: ItemView, b: ItemView, c: ItemView)
    requires
        precedes(a, b),
        precedes(b, c),
    ensures
        precedes(a, c),
{
    if a.published is Some && b.published is Some && c.published is Some {
        let x = encode_utf8(a.published->0);
        let y = encode_utf8(b.published->0);
        let z = encode_utf8(c.published->0);
        lemma_bytes_less_total(x, y);
        lemma_bytes_less_total(y, z);
        lemma_bytes_less_total(x, z);
        lemma_bytes_less_irreflexive(x);
        lemma_bytes_less_irreflexive(y);
        lemma_bytes_less_irreflexive(z);
        if crate::text::bytes_less(z, y) && crate::text::bytes_less(y, x) {
            lemma_bytes_less_transitive(z, y, x);
        }
        if crate::text::bytes_less(x, z) && crate::text::bytes_less(z, y) {
            lemma_bytes_less_transitive(x, z, y);
        }
        if crate::text::bytes_less(y, x) && crate::text::bytes_less(x, z) {
            lemma_bytes_less_transitive(y, x, z);
        }
        if crate::text::bytes_less(x, y) && crate::text::bytes_less(y, x) {
            lemma_bytes_less_transitive(x, y, x);
        }
        if crate::text::bytes_less(y, z) && crate::text::bytes_less(z, y) {
            lemma_bytes_less_transitive(y, z, y);
        }
    }
}

/// Of two items with different ids one is listed before the other.
pub proof fn lemma_precedes_total(a: ItemView, b: ItemView)
    requires
        a.id != b.id,
    ensures
        precedes(a, b) || precedes(b, a),
{
}

/// Whether `a` is listed before `b`.
pub fn item_precedes(a: &Item, b: &Item) -> (r: bool)
    ensures
        r == precedes(a@, b@),
{
    match (&a.published, &b.published) {
        (Some(x), Some(y)) => {
            if text_before(y.as_str(), x.as_str()) {
                true
            } else if text_before(x.as_str(), y.as_str()) {
                false
            } else {
                a.id > b.id
            }
        },
        (Some(_), None) => true,
        (None, Some(_)) => false,
        (None, None) => a.id > b.id,
    }
}

// ---------------------------------------------------------------------------
// Listings
// ---------------------------------------------------------------------------

/// Each element of `s` is listed before those that follow it.
pub open spec fn strictly_ordered(s: Seq<ItemView>) -> bool {
    forall|i: int, j: int| 0 <= i < j < s.len() ==> precedes(#[trigger] s[i], #[trigger] s[j])
}

/// No two rows of `items` share an id.
pub open spec fn distinct_ids(items: Seq<ItemView>) -> bool {
    forall|i: int, j: int|
        0 <= i < j < items.len() ==> (#[trigger] items[i]).id != (#[trigger] items[j]).id
}

/// `s` lists the items of feed `feed_id` among `items`: each of them once,
/// no other, in listing order.
pub open spec fn is_listing(items: Seq<ItemView>, s: Seq<ItemView>, feed_id: i64) -> bool {
    &&& strictly_ordered(s)
    &&& forall|x: ItemView| #[trigger]
        s.contains(x) <==> (items.contains(x) && x.feed_id == feed_id)
}

/// The listing of feed `feed_id` among `items`.
pub open spec fn listing(items: Seq<ItemView>, feed_id: i64) -> Seq<ItemView> {
    choose|s: Seq<ItemView>| is_listing(items, s, feed_id)
}

/// How many of `items` belong to feed `feed_id`.
pub open spec fn count_for(items: Seq<ItemView>, feed_id: i64) -> nat
    decreases items.len(),
{
    if items.len() == 0 {
        0
    } else {
        count_for(items.drop_last(), feed_id) + if items.last().feed_id == feed_id {
            1nat
        } else {
            0nat
        }
    }
}

/// Two strictly ordered sequences with the same members are the same
/// sequence.
proof fn lemma_ordered_same_members(s: Seq<ItemView>, t: Seq<ItemView>)
    requires
        strictly_ordered(s),
        strictly_ordered(t),
        forall|x: ItemView| #[trigger] s.contains(x) <==> t.contains(x),
    ensures
        s == t,
    decreases s.len(),
{
    if s.len() == 0 {
        if t.len() > 0 {
            assert(t.contains(t[0]));
            assert(s.contains(t[0]));
        }
        assert(s =~= t);
    } else {
        assert(s.contains(s[0]));
        assert(t.contains(s[0]));
        let k = choose|k: int| 0 <= k < t.len() && t[k] == s[0];
        assert(t.contains(t[0]));
        assert(s.contains(t[0]));
        let m = choose|m: int| 0 <= m < s.len() && s[m] == t[0];
        if k > 0 {
            assert(precedes(t[0], t[k]));
            if m > 0 {
                assert(precedes(s[0], s[m]));
                lemma_precedes_asymmetric(t[0], s[0]);
            } else {
                lemma_precedes_irreflexive(t[0]);
            }
        }
        assert(t[0] == s[0]);
        let s1 = s.skip(1);
        let t1 = t.skip(1);
        assert(strictly_ordered(s1)) by {
            assert forall|i: int, j: int| 0 <= i < j < s1.len() implies precedes(
                #[trigger] s1[i],
                #[trigger] s1[j],
            ) by {
                assert(precedes(s[i + 1], s[j + 1]));
            }
        }
        assert(strictly_ordered(t1)) by {
            assert forall|i: int, j: int| 0 <= i < j < t1.len() implies precedes(
                #[trigger] t1[i],
                #[trigger] t1[j],
            ) by {
                assert(precedes(t[i + 1], t[j + 1]));
            }
        }
        assert forall|x: ItemView| #[trigger] s1.contains(x) <==> t1.contains(x) by {
            if s1.contains(x) {
                let i = choose|i: int| 0 <= i < s1.len() && s1[i] == x;
                assert(s[i + 1] == x);
                assert(precedes(s[0], s[i + 1]));
                lemma_precedes_irreflexive(x);
                assert(s.contains(x));
                assert(t.contains(x));
                let j = choose|j: int| 0 <= j < t.len() && t[j] == x;
                assert(j != 0);
                assert(t1[j - 1] == x);
                assert(t1.contains(x));
            }
            if t1.contains(x) {
                let i = choose|i: int| 0 <= i < t1.len() && t1[i] == x;
                assert(t[i + 1] == x);
                assert(precedes(t[0], t[i + 1]));
                lemma_precedes_irreflexive(x);
                assert(t.contains(x));
                assert(s.contains(x));
                let j = choose|j: int| 0 <= j < s.len() && s[j] == x;
                assert(j != 0);
                assert(s1[j - 1] == x);
                assert(s1.contains(x));
            }
        }
        lemma_ordered_same_members(s1, t1);
        assert(s =~= seq![s[0]] + s1);
        assert(t =~= seq![t[0]] + t1);
    }
}

/// A feed has at most one listing.
pub proof fn lemma_listing_unique(
    items: Seq<ItemView>,
    s: Seq<ItemView>,
    t: Seq<ItemView>,
    feed_id: i64,
)
    requires
        is_listing(items, s, feed_id),
        is_listing(items, t, feed_id),
    ensures
        s == t,
{
    assert forall|x: ItemView| #[trigger] s.contains(x) <==> t.contains(x) by {
        assert(s.contains(x) <==> (items.contains(x) && x.feed_id == feed_id));
        assert(t.contains(x) <==> (items.contains(x) && x.feed_id == feed_id));
    }
    lemma_ordered_same_members(s, t);
}

/// `p` is where `x` goes in the ordered sequence `s`: what stands before `p`
/// is listed before `x`, and what stands at `p` is not.
pub open spec fn is_slot(s: Seq<ItemView>, x: ItemView, p: int) -> bool {
    &&& 0 <= p <= s.len()
    &&& forall|j: int| 0 <= j < p ==> precedes(#[trigger] s[j], x)
    &&& p < s.len() ==> !precedes(s[p], x)
}

/// Every sequence has a slot for every item.
proof fn lemma_slot(s: Seq<ItemView>, x: ItemView) -> (p: int)
    ensures
        is_slot(s, x, p),
    decreases s.len(),
{
    if s.len() == 0 {
        0
    } else {
        let q = lemma_slot(s.drop_last(), x);
        if q < s.len() - 1 {
            assert(s.drop_last()[q] == s[q]);
            assert forall|j: int| 0 <= j < q implies precedes(#[trigger] s[j], x) by {
                assert(s.drop_last()[j] == s[j]);
            }
            q
        } else {
            assert forall|j: int| 0 <= j < s.len() - 1 implies precedes(#[trigger] s[j], x) by {
                assert(s.drop_last()[j] == s[j]);
            }
            if precedes(s.last(), x) {
                s.len() as int
            } else {
                s.len() - 1
            }
        }
    }
}

/// An item put into its slot leaves the sequence strictly ordered.
proof fn lemma_insert_ordered(s: Seq<ItemView>, x: ItemView, p: int)
    requires
        strictly_ordered(s),
        is_slot(s, x, p),
        forall|j: int| 0 <= j < s.len() ==> (#[trigger] s[j]).id != x.id,
    ensures
        strictly_ordered(s.insert(p, x)),
{
    let r = s.insert(p, x);
    assert forall|i: int, j: int| 0 <= i < j < r.len() implies precedes(
        #[trigger] r[i],
        #[trigger] r[j],
    ) by {
        if j < p {
            assert(precedes(s[i], s[j]));
        } else if j == p {
            assert(precedes(s[i], x));
        } else if i < p {
            assert(precedes(s[i], s[j - 1]));
        } else if i == p {
            lemma_precedes_total(s[p], x);
            assert(precedes(x, s[p]));
            if j - 1 > p {
                assert(precedes(s[p], s[j - 1]));
                lemma_precedes_transitive(x, s[p], s[j - 1]);
            }
        } else {
            assert(precedes(s[i - 1], s[j - 1]));
        }
    }
}

/// The members of a sequence with one more item put in.
proof fn lemma_insert_members(s: Seq<ItemView>, x: ItemView, p: int)
    requires
        0 <= p <= s.len(),
    ensures
        forall|z: ItemView| #[trigger] s.insert(p, x).contains(z) <==> (s.contains(z) || z == x),
{
    let r = s.insert(p, x);
    assert forall|z: ItemView| #[trigger] r.contains(z) <==> (s.contains(z) || z == x) by {
        if r.contains(z) {
            let i = choose|i: int| 0 <= i < r.len() && r[i] == z;
            if i < p {
                assert(s[i] == z);
            } else if i > p {
                assert(s[i - 1] == z);
            }
        }
        if s.contains(z) {
            let i = choose|i: int| 0 <= i < s.len() && s[i] == z;
            if i < p {
                assert(r[i] == z);
            } else {
                assert(r[i + 1] == z);
            }
        }
        if z == x {
            assert(r[p] == z);
        }
    }
}

/// The members of a sequence with its last element taken off.
proof fn lemma_drop_last_members(items: Seq<ItemView>)
    requires
        items.len() > 0,
    ensures
        forall|z: ItemView| #[trigger]
            items.contains(z) <==> (items.drop_last().contains(z) || z == items.last()),
{
    let d = items.drop_last();
    assert forall|z: ItemView| #[trigger]
        items.contains(z) <==> (d.contains(z) || z == items.last()) by {
        if items.contains(z) {
            let i = choose|i: int| 0 <= i < items.len() && items[i] == z;
            if i < items.len() - 1 {
                assert(d[i] == z);
            }
        }
        if d.contains(z) {
            let i = choose|i: int| 0 <= i < d.len() && d[i] == z;
            assert(items[i] == z);
        }
        if z == items.last() {
            assert(items[items.len() - 1] == z);
        }
    }
}

/// A listing of `items` without its last row, with that row put into its
/// slot where it belongs to the feed, lists `items`.
proof fn lemma_listing_step(items: Seq<ItemView>, s0: Seq<ItemView>, feed_id: i64, p: int)
    requires
        items.len() > 0,
        distinct_ids(items),
        is_listing(items.drop_last(), s0, feed_id),
        items.last().feed_id == feed_id ==> is_slot(s0, items.last(), p),
    ensures
        items.last().feed_id == feed_id ==> is_listing(
            items,
            s0.insert(p, items.last()),
            feed_id,
        ),
        items.last().feed_id != feed_id ==> is_listing(items, s0, feed_id),
{
    let x = items.last();
    let d = items.drop_last();
    lemma_drop_last_members(items);
    if x.feed_id == feed_id {
        assert forall|j: int| 0 <= j < s0.len() implies (#[trigger] s0[j]).id != x.id by {
            assert(s0.contains(s0[j]));
            assert(d.contains(s0[j]));
            let i = choose|i: int| 0 <= i < d.len() && d[i] == s0[j];
            assert(items[i] == s0[j]);
            assert(items[i].id != items[items.len() - 1].id);
        }
        lemma_insert_ordered(s0, x, p);
        lemma_insert_members(s0, x, p);
        let s = s0.insert(p, x);
        assert forall|z: ItemView| #[trigger]
            s.contains(z) <==> (items.contains(z) && z.feed_id == feed_id) by {
            assert(s0.contains(z) <==> (d.contains(z) && z.feed_id == feed_id));
        }
    } else {
        assert forall|z: ItemView| #[trigger]
            s0.contains(z) <==> (items.contains(z) && z.feed_id == feed_id) by {
            assert(s0.contains(z) <==> (d.contains(z) && z.feed_id == feed_id));
        }
    }
}

/// Rows without a shared id have a listing for every feed, and it holds as
/// many items as the feed has rows.
proof fn lemma_listing_built(items: Seq<ItemView>, feed_id: i64) -> (s: Seq<ItemView>)
    requires
        distinct_ids(items),
    ensures
        is_listing(items, s, feed_id),
        s.len() == count_for(items, feed_id),
    decreases items.len(),
{
    if items.len() == 0 {
        let s = Seq::<ItemView>::empty();
        assert forall|x: ItemView| #[trigger]
            s.contains(x) <==> (items.contains(x) && x.feed_id == feed_id) by {}
        s
    } else {
        let d = items.drop_last();
        assert(distinct_ids(d)) by {
            assert forall|i: int, j: int| 0 <= i < j < d.len() implies (#[trigger] d[i]).id != (
            #[trigger] d[j]).id by {
                assert(items[i].id != items[j].id);
            }
        }
        let s0 = lemma_listing_built(d, feed_id);
        if items.last().feed_id == feed_id {
            let p = lemma_slot(s0, items.last());
            lemma_listing_step(items, s0, feed_id, p);
            s0.insert(p, items.last())
        } else {
            lemma_listing_step(items, s0, feed_id, 0);
            s0
        }
    }
}

/// Among rows without a shared id, `listing` is the listing of the feed, and
/// it holds as many items as the feed has rows.
pub proof fn lemma_listing(items: Seq<ItemView>, feed_id: i64)
    requires
        distinct_ids(items),
    ensures
        is_listing(items, listing(items, feed_id), feed_id),
        listing(items, feed_id).len() == count_for(items, feed_id),
{
    let s = lemma_listing_built(items, feed_id);
    lemma_listing_unique(items, s, listing(items, feed_id), feed_id);
}

/// A sequence that lists the feed is its listing.
pub proof fn lemma_listing_is(items: Seq<ItemView>, s: Seq<ItemView>, feed_id: i64)
    requires
        is_listing(items, s, feed_id),
    ensures
        listing(items, feed_id) == s,
{
    lemma_listing_unique(items, s, listing(items, feed_id), feed_id);
}

/// In a listing every item with a published value stands before every item
/// without one.
pub proof fn lemma_published_first(s: Seq<ItemView>, i: int, j: int)
    requires
        strictly_ordered(s),
        0 <= i < s.len(),
        0 <= j < s.len(),
        s[i].published is Some,
        s[j].published is None,
    ensures
        i < j,
{
    if j < i {
        assert(precedes(s[j], s[i]));
    }
}

// ---------------------------------------------------------------------------
// Pages
// ---------------------------------------------------------------------------

/// Where a page with the given offset starts in a listing of `n` items: a
/// negative offset counts as none, one past the end as the end.
pub open spec fn page_start(n: int, offset: i64) -> int {
    if offset <= 0 {
        0
    } else if offset >= n {
        n
    } else {
        offset as int
    }
}

/// Where that page ends: `limit` items on, or at the end; a negative limit
/// counts as zero.
pub open spec fn page_end(n: int, limit: i64, offset: i64) -> int {
    let start = page_start(n, offset);
    if limit <= 0 {
        start
    } else if start + limit >= n {
        n
    } else {
        start + limit
    }
}

/// The page of `s` with the given limit and offset.
pub open spec fn page_of(s: Seq<ItemView>, limit: i64, offset: i64) -> Seq<ItemView> {
    s.subrange(page_start(s.len() as int, offset), page_end(s.len() as int, limit, offset))
}

/// The greater of two integers.
pub open spec fn max_int(a: int, b: int) -> int {
    if a >= b {
        a
    } else {
        b
    }
}

/// The lesser of two integers.
pub open spec fn min_int(a: int, b: int) -> int {
    if a <= b {
        a
    } else {
        b
    }
}

/// A page with a non-negative offset holds `max(0, min(limit, n - offset))`
/// items, none where the offset is at or past the end; a page is strictly
/// ordered, so in it too the items with a published value come first.
pub proof fn lemma_page(s: Seq<ItemView>, limit: i64, offset: i64)
    requires
        strictly_ordered(s),
    ensures
        offset >= 0 ==> page_of(s, limit, offset).len() == max_int(
            0,
            min_int(limit as int, s.len() - offset),
        ),
        offset >= s.len() ==> page_of(s, limit, offset).len() == 0,
        page_of(s, limit, offset).len() <= s.len(),
        strictly_ordered(page_of(s, limit, offset)),
        forall|k: int|
            0 <= k < page_of(s, limit, offset).len() ==> #[trigger] page_of(s, limit, offset)[k]
                == s[page_start(s.len() as int, offset) + k],
{
    let start = page_start(s.len() as int, offset);
    let page = page_of(s, limit, offset);
    assert forall|i: int, j: int| 0 <= i < j < page.len() implies precedes(
        #[trigger] page[i],
        #[trigger] page[j],
    ) by {
        assert(precedes(s[start + i], s[start + j]));
    }
}

/// The items of feed `feed_id` among `items`, borrowed, in listing order.
pub fn sorted_refs<'a>(items: &'a Vec<Item>, feed_id: i64) -> (acc: Vec<&'a Item>)
    requires
        distinct_ids(item_views(items@)),
    ensures
        item_ref_views(acc@) == listing(item_views(items@), feed_id),
        acc@.len() == count_for(item_views(items@), feed_id),
        acc@.len() <= items@.len(),
{
    let ghost all = item_views(items@);
    let mut acc: Vec<&Item> = Vec::new();
    let mut i: usize = 0;
    proof {
        let s = item_ref_views(acc@);
        assert(all.take(0).len() == 0);
        assert forall|x: ItemView| #[trigger]
            s.contains(x) <==> (all.take(0).contains(x) && x.feed_id == feed_id) by {}
    }
    while i < items.len()
        invariant
            i <= items@.len(),
            all == item_views(items@),
            distinct_ids(all),
            is_listing(all.take(i as int), item_ref_views(acc@), feed_id),
            acc@.len() == count_for(all.take(i as int), feed_id),
            acc@.len() <= i,
        decreases items@.len() - i,
    {
        let item = &items[i];
        let ghost before = item_ref_views(acc@);
        let ghost next = all.take(i + 1);
        proof {
            assert(next.drop_last() =~= all.take(i as int));
            assert(next.last() == item@);
            assert(distinct_ids(next)) by {
                assert forall|a: int, b: int| 0 <= a < b < next.len() implies (
                #[trigger] next[a]).id != (#[trigger] next[b]).id by {
                    assert(all[a].id != all[b].id);
                }
            }
        }
        if item.feed_id == feed_id {
            let mut p: usize = 0;
            while p < acc.len() && item_precedes(acc[p], item)
                invariant
                    p <= acc@.len(),
                    before == item_ref_views(acc@),
                    forall|j: int| 0 <= j < p ==> precedes(#[trigger] before[j], item@),
                decreases acc@.len() - p,
            {
                p += 1;
            }
            acc.insert(p, item);
            proof {
                assert(is_slot(before, item@, p as int));
                lemma_listing_step(next, before, feed_id, p as int);
                assert(item_ref_views(acc@) =~= before.insert(p as int, item@));
            }
        } else {
            proof {
                lemma_listing_step(next, before, feed_id, 0);
            }
        }
        i += 1;
    }
    proof {
        assert(all.take(i as int) =~= all);
        lemma_listing_is(all, item_ref_views(acc@), feed_id);
    }
    acc
}

} // verus!
