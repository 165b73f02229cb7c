//! What holds of the store whatever it contains.

use crate::config::FeedConfigView;
use crate::db::{FeedView, ItemView};
use crate::order::{
    count_for,
    is_listing,
    lemma_listing,
    lemma_listing_is,
    lemma_page,
    lemma_published_first,
    max_int,
    min_int,
    page_start,
    strictly_ordered,
};
use crate::entry::EntryView;
use crate::fetcher::{ingest, FetcherView, StepView};
use crate::store::{kept_homepage, ItemData, StorageError, StoreView};
use vstd::prelude::*;

verus! {

/// Two tables whose rows belong, place by place, to the same feeds hold as
/// many items of each feed.
pub proof fn lemma_count_same_feeds(a: Seq<ItemView>, b: Seq<ItemView>, feed_id: i64)
    requires
        a.len() == b.len(),
        forall|i: int| 0 <= i < a.len() ==> (#[trigger] a[i]).feed_id == b[i].feed_id,
    ensures
        count_for(a, feed_id) == count_for(b, feed_id),
    decreases a.len(),
{
    if a.len() > 0 {
        assert forall|i: int| 0 <= i < a.drop_last().len() implies (
        #[trigger] a.drop_last()[i]).feed_id == b.drop_last()[i].feed_id by {
            assert(a[i].feed_id == b[i].feed_id);
        }
        lemma_count_same_feeds(a.drop_last(), b.drop_last(), feed_id);
        assert(a[a.len() - 1].feed_id == b[a.len() - 1].feed_id);
    }
}

/// Idempotence: an item written a second time with the same data leaves the
/// store as the first write left it, with one row under that feed and guid.
pub proof fn law_upsert_idempotent(s: StoreView, data: ItemData)
    requires
        s.wf(),
    ensures
        s.upsert(data) matches Ok(once) ==> {
            &&& once.upsert(data) == Ok::<StoreView, StorageError>(once)
            &&& once.has_item(data.feed_id, data.guid)
            &&& forall|i: int, j: int|
                0 <= i < once.items.len() && 0 <= j < once.items.len() && (
                #[trigger] once.items[i]).feed_id == data.feed_id && once.items[i].guid
                    == data.guid && (#[trigger] once.items[j]).feed_id == data.feed_id
                    && once.items[j].guid == data.guid ==> i == j
        },
{
    if s.upsert(data) is Ok {
        let once = s.upsert(data)->Ok_0;
        s.lemma_upsert(data);
        let k = once.item_at(data.feed_id, data.guid);
        once.lemma_item_at(k);
        assert(once.has_feed(data.feed_id)) by {
            assert(once.feeds == s.feeds);
            let f = s.feed_at(data.feed_id);
            assert(once.feeds[f].id == data.feed_id);
        }
        if s.has_item(data.feed_id, data.guid) {
            let i = s.item_at(data.feed_id, data.guid);
            assert(once.items[i].feed_id == data.feed_id && once.items[i].guid == data.guid);
            once.lemma_item_at(i);
        } else {
            let n = s.items.len() as int;
            assert(once.items[n].feed_id == data.feed_id && once.items[n].guid == data.guid);
            once.lemma_item_at(n);
        }
        assert(once.upsert(data)->Ok_0.items =~= once.items);
        assert forall|i: int, j: int|
            0 <= i < once.items.len() && 0 <= j < once.items.len() && (
            #[trigger] once.items[i]).feed_id == data.feed_id && once.items[i].guid == data.guid
                && (#[trigger] once.items[j]).feed_id == data.feed_id && once.items[j].guid
                == data.guid implies i == j by {
            once.lemma_item_at(i);
            once.lemma_item_at(j);
        }
    }
}

/// Identity preservation: an item written under a feed and guid that the
/// store holds takes the place of the row that was there. The row keeps its
/// id and its place, every other row stays, and no feed gains or loses an
/// item.
pub proof fn law_upsert_keeps_identity(s: StoreView, data: ItemData)
    requires
        s.wf(),
        s.ready,
        s.has_item(data.feed_id, data.guid),
    ensures
        s.upsert(data) is Ok,
        s.upsert(data)->Ok_0.items.len() == s.items.len(),
        s.upsert(data)->Ok_0.items[s.item_at(data.feed_id, data.guid)] == data.with_id(
            s.items[s.item_at(data.feed_id, data.guid)].id,
        ),
        forall|j: int|
            0 <= j < s.items.len() && j != s.item_at(data.feed_id, data.guid) ==> (
            #[trigger] s.upsert(data)->Ok_0.items[j]) == s.items[j],
        forall|feed_id: i64| #[trigger] s.upsert(data)->Ok_0.count(feed_id) == s.count(feed_id),
{
    let i = s.item_at(data.feed_id, data.guid);
    assert(s.has_feed(s.items[i].feed_id));
    let next = s.upsert(data)->Ok_0;
    assert forall|feed_id: i64| #[trigger] next.count(feed_id) == s.count(feed_id) by {
        lemma_count_same_feeds(next.items, s.items, feed_id);
    }
}

/// An item written under a guid that its feed does not hold yet becomes a
/// new row: the feed has one item more, and the rows that were there stay.
pub proof fn law_upsert_adds_row(s: StoreView, data: ItemData)
    requires
        s.wf(),
        !s.has_item(data.feed_id, data.guid),
    ensures
        s.upsert(data) matches Ok(next) ==> {
            &&& next.items.len() == s.items.len() + 1
            &&& next.count(data.feed_id) == s.count(data.feed_id) + 1
            &&& next.items.drop_last() == s.items
            &&& next.items.last() == data.with_id(next.items.last().id)
            &&& forall|j: int| 0 <= j < s.items.len() ==> next.items.last().id > (
            #[trigger] s.items[j]).id
        },
{
    if s.upsert(data) is Ok {
        let next = s.upsert(data)->Ok_0;
        s.lemma_upsert(data);
        assert(next.items.drop_last() =~= s.items);
        assert forall|j: int| 0 <= j < s.items.len() implies next.items.last().id > (
        #[trigger] s.items[j]).id by {
            assert(next.items[j].id < next.items[s.items.len() as int].id);
        }
    }
}

/// Isolation, first half: an item written under one feed leaves every other
/// feed's listing and count as they were.
pub proof fn law_upsert_leaves_other_feeds(s: StoreView, data: ItemData, other: i64)
    requires
        s.wf(),
        other != data.feed_id,
    ensures
        s.upsert(data) matches Ok(next) ==> {
            &&& next.listing(other) == s.listing(other)
            &&& next.count(other) == s.count(other)
        },
{
    if s.upsert(data) is Ok {
        let next = s.upsert(data)->Ok_0;
        s.lemma_upsert(data);
        s.lemma_distinct_ids();
        next.lemma_distinct_ids();
        lemma_listing(s.items, other);
        lemma_listing(next.items, other);
        let l = s.listing(other);
        assert forall|x: ItemView| #[trigger]
            l.contains(x) <==> (next.items.contains(x) && x.feed_id == other) by {
            assert(l.contains(x) <==> (s.items.contains(x) && x.feed_id == other));
            if s.items.contains(x) && x.feed_id == other {
                let k = choose|k: int| 0 <= k < s.items.len() && s.items[k] == x;
                assert(next.items[k] == x);
            }
            if next.items.contains(x) && x.feed_id == other {
                let k = choose|k: int| 0 <= k < next.items.len() && next.items[k] == x;
                assert(s.items[k] == x);
            }
        }
        lemma_listing_is(next.items, l, other);
    }
}

/// Isolation, second half: one guid written under two feeds makes two items
/// with two ids, and each is listed under its own feed and not under the
/// other.
pub proof fn law_same_guid_two_feeds(s: StoreView, a: ItemData, b: ItemData)
    requires
        s.wf(),
        a.feed_id != b.feed_id,
        a.guid == b.guid,
        s.upsert(a) is Ok,
        s.upsert(a)->Ok_0.upsert(b) is Ok,
    ensures
        ({
            let t = s.upsert(a)->Ok_0.upsert(b)->Ok_0;
            let x = t.items[t.item_at(a.feed_id, a.guid)];
            let y = t.items[t.item_at(b.feed_id, b.guid)];
            &&& t.has_item(a.feed_id, a.guid)
            &&& t.has_item(b.feed_id, b.guid)
            &&& x == a.with_id(x.id)
            &&& y == b.with_id(y.id)
            &&& x.id != y.id
            &&& t.listing(a.feed_id).contains(x)
            &&& !t.listing(a.feed_id).contains(y)
            &&& t.listing(b.feed_id).contains(y)
            &&& !t.listing(b.feed_id).contains(x)
        }),
{
    let m = s.upsert(a)->Ok_0;
    let t = m.upsert(b)->Ok_0;
    s.lemma_upsert(a);
    m.lemma_upsert(b);
    // The row of `a` in the middle store survives the second write.
    let ka = m.item_at(a.feed_id, a.guid);
    assert(0 <= ka < m.items.len() && m.items[ka].feed_id == a.feed_id && m.items[ka].guid
        == a.guid);
    assert(m.items[ka] == a.with_id(m.items[ka].id)) by {
        if s.has_item(a.feed_id, a.guid) {
            let i = s.item_at(a.feed_id, a.guid);
            assert(m.items[i].feed_id == a.feed_id && m.items[i].guid == a.guid);
            m.lemma_item_at(i);
        } else {
            let n = s.items.len() as int;
            assert(m.items[n].feed_id == a.feed_id && m.items[n].guid == a.guid);
            m.lemma_item_at(n);
        }
    }
    assert(t.items[ka] == m.items[ka]);
    t.lemma_item_at(ka);
    let kb = t.item_at(b.feed_id, b.guid);
    assert(0 <= kb < t.items.len() && t.items[kb].feed_id == b.feed_id && t.items[kb].guid
        == b.guid);
    assert(t.items[kb] == b.with_id(t.items[kb].id)) by {
        if m.has_item(b.feed_id, b.guid) {
            let i = m.item_at(b.feed_id, b.guid);
            assert(t.items[i].feed_id == b.feed_id && t.items[i].guid == b.guid);
            t.lemma_item_at(i);
        } else {
            let n = m.items.len() as int;
            assert(t.items[n].feed_id == b.feed_id && t.items[n].guid == b.guid);
            t.lemma_item_at(n);
        }
    }
    t.lemma_distinct_ids();
    if ka < kb {
        assert(t.items[ka].id != t.items[kb].id);
    } else if kb < ka {
        assert(t.items[kb].id != t.items[ka].id);
    }
    lemma_listing(t.items, a.feed_id);
    lemma_listing(t.items, b.feed_id);
    assert(t.items.contains(t.items[ka]));
    assert(t.items.contains(t.items[kb]));
}

/// Isolation, for the write of a new row: where one feed holds a guid and
/// another feed of the store does not, and an id is left for a new row, the
/// write of that guid under the other feed succeeds. The row of the first
/// feed stays as it was, field by field and in its place; the new row holds
/// what was written, under an id of its own; the table is one row longer,
/// the other feed has one item more and the first feed as many as before.
pub proof fn law_same_guid_new_row(s: StoreView, first: i64, data: ItemData)
    requires
        s.wf(),
        s.ready,
        first != data.feed_id,
        s.has_feed(data.feed_id),
        s.has_item(first, data.guid),
        !s.has_item(data.feed_id, data.guid),
        s.next_item_id() <= i64::MAX,
    ensures
        s.upsert(data) is Ok,
        ({
            let t = s.upsert(data)->Ok_0;
            let at = s.item_at(first, data.guid);
            let old_row = s.items[at];
            let new_row = t.items.last();
            &&& t.wf()
            &&& t.feeds == s.feeds
            &&& t.items.len() == s.items.len() + 1
            &&& t.items.drop_last() == s.items
            &&& t.items[at] == old_row
            &&& t.item_at(first, data.guid) == at
            &&& new_row == data.with_id(new_row.id)
            &&& new_row.id != old_row.id
            &&& t.item_at(data.feed_id, data.guid) == t.items.len() - 1
            &&& t.count(data.feed_id) == s.count(data.feed_id) + 1
            &&& t.count(first) == s.count(first)
            &&& t.listing(first) == s.listing(first)
            &&& t.listing(data.feed_id).contains(new_row)
            &&& !t.listing(data.feed_id).contains(old_row)
        }),
{
    let t = s.upsert(data)->Ok_0;
    let at = s.item_at(first, data.guid);
    let n = s.items.len() as int;
    s.lemma_upsert(data);
    law_upsert_adds_row(s, data);
    law_upsert_leaves_other_feeds(s, data, first);
    assert(0 <= at < n && s.items[at].feed_id == first && s.items[at].guid == data.guid);
    assert(t.items[at] == s.items[at]);
    t.lemma_item_at(at);
    assert(t.items[n].feed_id == data.feed_id && t.items[n].guid == data.guid);
    t.lemma_item_at(n);
    assert(t.items[at].id < t.items[n].id);
    t.lemma_distinct_ids();
    lemma_listing(t.items, data.feed_id);
    assert(t.items.contains(t.items[n]));
}

/// Pagination: a page holds the items of its feed and no others, in listing
/// order; with an offset that is not negative it holds
/// `max(0, min(limit, n - offset))` of the feed's `n` items, and none where
/// the offset is `n` or more; every item with a published value stands
/// before every item without one.
pub proof fn law_page(s: StoreView, feed_id: i64, limit: i64, offset: i64)
    requires
        s.wf(),
    ensures
        offset >= 0 ==> s.page(feed_id, limit, offset).len() == max_int(
            0,
            min_int(limit as int, s.count(feed_id) - offset),
        ),
        offset >= s.count(feed_id) ==> s.page(feed_id, limit, offset).len() == 0,
        strictly_ordered(s.page(feed_id, limit, offset)),
        forall|k: int|
            0 <= k < s.page(feed_id, limit, offset).len() ==> {
                &&& (#[trigger] s.page(feed_id, limit, offset)[k]).feed_id == feed_id
                &&& s.items.contains(s.page(feed_id, limit, offset)[k])
                &&& s.page(feed_id, limit, offset)[k] == s.listing(feed_id)[page_start(
                    s.count(feed_id) as int,
                    offset,
                ) + k]
            },
        forall|i: int, j: int|
            0 <= i < s.page(feed_id, limit, offset).len() && 0 <= j < s.page(
                feed_id,
                limit,
                offset,
            ).len() && (#[trigger] s.page(feed_id, limit, offset)[i]).published is Some && (
            #[trigger] s.page(feed_id, limit, offset)[j]).published is None ==> i < j,
{
    s.lemma_distinct_ids();
    lemma_listing(s.items, feed_id);
    let l = s.listing(feed_id);
    lemma_page(l, limit, offset);
    let page = s.page(feed_id, limit, offset);
    assert forall|k: int| 0 <= k < page.len() implies {
        &&& (#[trigger] page[k]).feed_id == feed_id
        &&& s.items.contains(page[k])
    } by {
        let at = page_start(l.len() as int, offset) + k;
        assert(page[k] == l[at]);
        assert(l.contains(l[at]));
    }
    assert forall|i: int, j: int|
        0 <= i < page.len() && 0 <= j < page.len() && (#[trigger] page[i]).published is Some && (
        #[trigger] page[j]).published is None implies i < j by {
        lemma_published_first(page, i, j);
    }
}

/// The listing of a feed holds each of its items once, no other item, and
/// as many items as the feed counts.
pub proof fn law_listing(s: StoreView, feed_id: i64)
    requires
        s.wf(),
    ensures
        is_listing(s.items, s.listing(feed_id), feed_id),
        s.listing(feed_id).len() == s.count(feed_id),
{
    s.lemma_distinct_ids();
    lemma_listing(s.items, feed_id);
}

/// Single-flight: a request for a refresh that comes while a cycle is under
/// way starts nothing and leaves the cycle as it stands.
pub proof fn law_single_flight(f: FetcherView, store: StoreView)
    requires
        f.refreshing,
    ensures
        f.request(store) == (f, Ok::<StepView, StorageError>(StepView::Skipped)),
{
}

/// Single-flight, from the start: the request that starts a cycle leaves the
/// coordinator busy, so that the next request, whatever the store holds by
/// then, is absorbed.
pub proof fn law_second_request_absorbed(f: FetcherView, first: StoreView, second: StoreView)
    requires
        !f.refreshing,
        first.ready,
        first.feeds.len() > 0,
    ensures
        f.request(first).0.refreshing,
        f.request(first).0.wf(),
        f.request(first).0.request(second) == (
            f.request(first).0,
            Ok::<StepView, StorageError>(StepView::Skipped),
        ),
{
}

/// A cycle takes each pending feed once, in order, whatever the fetches
/// give: after `k` of its `n` feeds the coordinator is busy with the rest,
/// and after the last it is idle.
pub proof fn law_cycle_visits_each_feed(f: FetcherView, k: nat)
    requires
        f.wf(),
        f.refreshing,
        k <= f.pending.len(),
    ensures
        k < f.pending.len() ==> f.advance_by(k) == (FetcherView {
            refreshing: true,
            pending: f.pending.skip(k as int),
        }),
        k < f.pending.len() && k > 0 ==> f.advance_by((k - 1) as nat).advance().1
            == StepView::Fetch(f.pending[k as int]),
        k == f.pending.len() ==> f.advance_by(k) == FetcherView::idle(),
        k == f.pending.len() ==> f.advance_by((k - 1) as nat).advance().1 == StepView::Finished,
    decreases k,
{
    if k == 0 {
        assert(f.pending.skip(0) =~= f.pending);
    } else {
        lemma_advance_by_last(f, (k - 1) as nat);
        law_cycle_visits_each_feed(f, (k - 1) as nat);
        let g = f.advance_by((k - 1) as nat);
        assert(g.pending == f.pending.skip(k - 1));
        if k < f.pending.len() {
            assert(g.pending.skip(1) =~= f.pending.skip(k as int));
        }
    }
}

/// One more feed done is one more step of the coordinator.
proof fn lemma_advance_by_last(f: FetcherView, k: nat)
    ensures
        f.advance_by(k + 1) == f.advance_by(k).advance().0,
    decreases k,
{
    if k > 0 {
        lemma_advance_by_last(f.advance().0, (k - 1) as nat);
    } else {
        assert(f.advance_by(1) == f.advance().0.advance_by(0));
    }
}

/// What the last of the configured feeds with this URL says, if one has it.
pub open spec fn last_config(configs: Seq<FeedConfigView>, url: Seq<char>) -> Option<
    FeedConfigView,
>
    decreases configs.len(),
{
    if configs.len() == 0 {
        None
    } else if configs.last().url == url {
        Some(configs.last())
    } else {
        last_config(configs.drop_last(), url)
    }
}

/// A feed as the configuration leaves it: with the name and the discussion
/// flag of the last configured feed with its URL, and as it is where the
/// configuration does not name its URL.
pub open spec fn configured(feed: FeedView, configs: Seq<FeedConfigView>) -> FeedView {
    match last_config(configs, feed.url) {
        Some(c) => FeedView { name: c.name, has_discussion: c.has_discussion, ..feed },
        None => feed,
    }
}

/// The last configured feed with a URL is the last among all but the first,
/// or else the first.
proof fn lemma_last_config_head(configs: Seq<FeedConfigView>, url: Seq<char>)
    requires
        configs.len() > 0,
    ensures
        last_config(configs, url) == match last_config(configs.skip(1), url) {
            Some(c) => Some(c),
            None => if configs[0].url == url {
                Some(configs[0])
            } else {
                None
            },
        },
    decreases configs.len(),
{
    let rest = configs.skip(1);
    if configs.len() == 1 {
        assert(rest.len() == 0);
        assert(configs.drop_last().len() == 0);
    } else {
        assert(rest.last() == configs.last());
        assert(rest.drop_last() =~= configs.drop_last().skip(1));
        if configs.last().url != url {
            lemma_last_config_head(configs.drop_last(), url);
            assert(configs.drop_last()[0] == configs[0]);
        }
    }
}

/// Reconciliation never deletes: where it succeeds, every feed that was
/// there keeps its place, id, URL and fetch status and is as the
/// configuration leaves it; every feed that is new stands behind those,
/// without a fetch status, under a configured URL and as the configuration
/// leaves it; every configured URL has its feed; and the items stay.
pub proof fn law_sync_result(s: StoreView, configs: Seq<FeedConfigView>)
    requires
        s.wf(),
        s.sync(configs).1 is Ok,
    ensures
        s.sync(configs).0.wf(),
        s.sync(configs).0.ready == s.ready,
        s.sync(configs).0.items == s.items,
        s.sync(configs).0.feeds.len() >= s.feeds.len(),
        forall|i: int|
            0 <= i < s.feeds.len() ==> (#[trigger] s.sync(configs).0.feeds[i]) == configured(
                s.feeds[i],
                configs,
            ),
        forall|i: int|
            s.feeds.len() <= i < s.sync(configs).0.feeds.len() ==> {
                let feed = #[trigger] s.sync(configs).0.feeds[i];
                &&& last_config(configs, feed.url) is Some
                &&& feed == configured(feed, configs)
                &&& feed.last_fetched is None
                &&& feed.last_error is None
                &&& feed.homepage_url is None
            },
        forall|j: int|
            0 <= j < configs.len() ==> s.sync(configs).0.has_url((#[trigger] configs[j]).url),
    decreases configs.len(),
{
    if configs.len() > 0 {
        let c0 = configs[0];
        let rest = configs.skip(1);
        let s1 = s.sync_one(c0)->Ok_0;
        s.lemma_sync_one(c0);
        law_sync_result(s1, rest);
        let t = s.sync(configs).0;
        assert(t == s1.sync(rest).0);
        assert forall|i: int| 0 <= i < s.feeds.len() implies (#[trigger] t.feeds[i])
            == configured(s.feeds[i], configs) by {
            lemma_last_config_head(configs, s.feeds[i].url);
            assert(t.feeds[i] == configured(s1.feeds[i], rest));
            if s.has_url(c0.url) {
                s.lemma_url_at(i);
            } else {
                assert(s.feeds[i].url != c0.url);
            }
        }
        assert forall|i: int| s.feeds.len() <= i < t.feeds.len() implies {
            let feed = #[trigger] t.feeds[i];
            &&& last_config(configs, feed.url) is Some
            &&& feed == configured(feed, configs)
            &&& feed.last_fetched is None
            &&& feed.last_error is None
            &&& feed.homepage_url is None
        } by {
            lemma_last_config_head(configs, t.feeds[i].url);
            if i < s1.feeds.len() {
                assert(t.feeds[i] == configured(s1.feeds[i], rest));
                assert(s1.feeds[i].url == c0.url);
            }
        }
        assert forall|j: int| 0 <= j < configs.len() implies t.has_url(
            (#[trigger] configs[j]).url,
        ) by {
            if j == 0 {
                let k = s1.url_at(c0.url);
                assert(t.feeds[k] == configured(s1.feeds[k], rest));
                assert(t.feeds[k].url == c0.url);
            } else {
                assert(rest[j - 1] == configs[j]);
            }
        }
    } else {
        assert forall|i: int| 0 <= i < s.feeds.len() implies (
        #[trigger] s.sync(configs).0.feeds[i]) == configured(s.feeds[i], configs) by {}
    }
}

/// Reconciling feeds whose URLs the store knows adds no feed and succeeds.
proof fn lemma_sync_known(s: StoreView, configs: Seq<FeedConfigView>)
    requires
        s.wf(),
        configs.len() > 0 ==> s.ready,
        forall|j: int| 0 <= j < configs.len() ==> s.has_url((#[trigger] configs[j]).url),
    ensures
        s.sync(configs).1 is Ok,
        s.sync(configs).0.feeds.len() == s.feeds.len(),
    decreases configs.len(),
{
    if configs.len() > 0 {
        let c0 = configs[0];
        let rest = configs.skip(1);
        let s1 = s.sync_one(c0)->Ok_0;
        s.lemma_sync_one(c0);
        assert forall|j: int| 0 <= j < rest.len() implies s1.has_url((#[trigger] rest[j]).url) by {
            assert(rest[j] == configs[j + 1]);
            let k = s.url_at(configs[j + 1].url);
            assert(s1.feeds[k].url == configs[j + 1].url);
        }
        lemma_sync_known(s1, rest);
    }
}

/// Reconciliation is idempotent: where it succeeds, doing it again with the
/// same configuration succeeds and changes nothing.
pub proof fn law_sync_idempotent(s: StoreView, configs: Seq<FeedConfigView>)
    requires
        s.wf(),
        s.sync(configs).1 is Ok,
    ensures
        s.sync(configs).0.sync(configs).1 is Ok,
        s.sync(configs).0.sync(configs).0 == s.sync(configs).0,
{
    let t = s.sync(configs).0;
    law_sync_result(s, configs);
    if configs.len() > 0 {
        assert(s.sync_one(configs[0]) is Ok);
    }
    lemma_sync_known(t, configs);
    law_sync_result(t, configs);
    let u = t.sync(configs).0;
    assert forall|i: int| 0 <= i < t.feeds.len() implies #[trigger] u.feeds[i] == t.feeds[i] by {
        assert(u.feeds[i] == configured(t.feeds[i], configs));
        if i < s.feeds.len() {
            assert(t.feeds[i] == configured(s.feeds[i], configs));
        }
    }
    assert(u.feeds =~= t.feeds);
}

/// The status of a fetch is the feed's own: recording it changes the stamp
/// and the error of that feed, and its homepage URL where one that is not
/// empty is given; the homepage URL known before stays otherwise, and so
/// does everything else in the store.
pub proof fn law_status_is_feed_local(
    s: StoreView,
    feed_id: i64,
    stamp: Seq<char>,
    error: Option<Seq<char>>,
    homepage_url: Option<Seq<char>>,
)
    requires
        s.wf(),
        s.ready,
    ensures
        s.record_fetch(feed_id, stamp, error, homepage_url) is Ok,
        ({
            let next = s.record_fetch(feed_id, stamp, error, homepage_url)->Ok_0;
            &&& next.wf()
            &&& next.items == s.items
            &&& next.feeds.len() == s.feeds.len()
            &&& forall|j: int|
                0 <= j < s.feeds.len() && s.feeds[j].id != feed_id ==> (#[trigger] next.feeds[j])
                    == s.feeds[j]
            &&& forall|j: int|
                0 <= j < s.feeds.len() && s.feeds[j].id == feed_id ==> {
                    &&& (#[trigger] next.feeds[j]).id == feed_id
                    &&& next.feeds[j].name == s.feeds[j].name
                    &&& next.feeds[j].url == s.feeds[j].url
                    &&& next.feeds[j].has_discussion == s.feeds[j].has_discussion
                    &&& next.feeds[j].last_fetched == Some(stamp)
                    &&& next.feeds[j].last_error == error
                    &&& next.feeds[j].homepage_url == kept_homepage(
                        s.feeds[j].homepage_url,
                        homepage_url,
                    )
                }
        }),
{
    s.lemma_record_fetch(feed_id, stamp, error, homepage_url);
    let next = s.record_fetch(feed_id, stamp, error, homepage_url)->Ok_0;
    assert forall|j: int| 0 <= j < s.feeds.len() implies (s.feeds[j].id != feed_id ==> (
    #[trigger] next.feeds[j]) == s.feeds[j]) && (s.feeds[j].id == feed_id ==> next.feeds[j].id
        == feed_id && next.feeds[j].name == s.feeds[j].name && next.feeds[j].url == s.feeds[j].url
        && next.feeds[j].has_discussion == s.feeds[j].has_discussion && next.feeds[j].last_fetched
        == Some(stamp) && next.feeds[j].last_error == error && next.feeds[j].homepage_url
        == kept_homepage(s.feeds[j].homepage_url, homepage_url)) by {
        s.lemma_feed_at(j);
    }
}

/// The entries of one feed are that feed's own: however far their ingestion
/// gets, it leaves the feeds as they are, and every other feed's listing
/// and count as they were.
pub proof fn law_ingest_is_feed_local(
    s: StoreView,
    feed: FeedView,
    entries: Seq<EntryView>,
    comments: Map<Seq<char>, Seq<char>>,
    other: i64,
)
    requires
        s.wf(),
        other != feed.id,
    ensures
        ingest(s, feed, entries, comments).0.wf(),
        ingest(s, feed, entries, comments).0.ready == s.ready,
        ingest(s, feed, entries, comments).0.feeds == s.feeds,
        ingest(s, feed, entries, comments).0.listing(other) == s.listing(other),
        ingest(s, feed, entries, comments).0.count(other) == s.count(other),
    decreases entries.len(),
{
    if entries.len() > 0 {
        match crate::fetcher::entry_item(feed, entries[0], comments) {
            None => {
                law_ingest_is_feed_local(s, feed, entries.skip(1), comments, other);
            },
            Some(data) => {
                if s.upsert(data) is Ok {
                    let next = s.upsert(data)->Ok_0;
                    s.lemma_upsert(data);
                    law_upsert_leaves_other_feeds(s, data, other);
                    law_ingest_is_feed_local(next, feed, entries.skip(1), comments, other);
                }
            },
        }
    }
}

} // verus!
