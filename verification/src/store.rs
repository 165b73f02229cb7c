//! The store as a mathematical value, and what each operation makes of it.
//!
//! A store is two tables: feeds in the order in which they were created, and
//! items in the order in which they were first ingested. Ids grow along each
//! table, a source URL names one feed, and a guid names one item within its
//! feed. The operations of `Database` are stated against the functions here.

use crate::config::FeedConfigView;
use crate::db::{FeedView, ItemView};
use crate::order::{count_for, distinct_ids, listing, page_of};
use vstd::prelude::*;

verus! {

/// Why the store refused an operation.
#[derive(Debug, Clone, Copy, PartialEq, Eq, Structural)]
pub enum StorageError {
    /// The tables do not exist yet.
    NotInitialized,
    /// The row names a feed that the store does not hold.
    UnknownFeed,
    /// No id is left for a new row.
    Full,
}

impl StorageError {
    /// The refusal in words.
    pub open spec fn text(self) -> Seq<char> {
        match self {
            StorageError::NotInitialized => "storage error: the tables do not exist"@,
            StorageError::UnknownFeed => "storage error: no such feed"@,
            StorageError::Full => "storage error: no id is left"@,
        }
    }

    /// The refusal in words.
    pub fn message(&self) -> (r: String)
        ensures
            r@ == self.text(),
    {
        match self {
            StorageError::NotInitialized => "storage error: the tables do not exist".to_owned(),
            StorageError::UnknownFeed => "storage error: no such feed".to_owned(),
            StorageError::Full => "storage error: no id is left".to_owned(),
        }
    }
}

/// The store as a mathematical value.
pub struct StoreView {
    /// Whether the tables exist.
    pub ready: bool,
    pub feeds: Seq<FeedView>,
    pub items: Seq<ItemView>,
}

/// What `upsert` writes: an item without its id.
pub struct ItemData {
    pub feed_id: i64,
    pub guid: Seq<char>,
    pub title: Seq<char>,
    pub link: Seq<char>,
    pub discussion_link: Option<Seq<char>>,
    pub published: Option<Seq<char>>,
}

impl ItemData {
    /// The item that holds this data under the id `id`.
    pub open spec fn with_id(self, id: i64) -> ItemView {
        ItemView {
            id,
            feed_id: self.feed_id,
            guid: self.guid,
            title: self.title,
            link: self.link,
            discussion_link: self.discussion_link,
            published: self.published,
        }
    }
}

/// What a status update keeps of a homepage URL: a non-empty one replaces
/// the one known before, anything else leaves it.
pub open spec fn kept_homepage(before: Option<Seq<char>>, given: Option<Seq<char>>) -> Option<
    Seq<char>,
> {
    match given {
        Some(url) => if url.len() > 0 {
            Some(url)
        } else {
            before
        },
        None => before,
    }
}

impl StoreView {
    /// The store before its tables exist.
    pub open spec fn empty() -> StoreView {
        StoreView { ready: false, feeds: Seq::empty(), items: Seq::empty() }
    }

    /// Feed ids are positive and grow along the table.
    pub open spec fn feed_ids_grow(self) -> bool {
        &&& forall|i: int| 0 <= i < self.feeds.len() ==> (#[trigger] self.feeds[i]).id >= 1
        &&& forall|i: int, j: int|
            0 <= i < j < self.feeds.len() ==> (#[trigger] self.feeds[i]).id < (
            #[trigger] self.feeds[j]).id
    }

    /// No two feeds share a source URL.
    pub open spec fn urls_unique(self) -> bool {
        forall|i: int, j: int|
            0 <= i < j < self.feeds.len() ==> (#[trigger] self.feeds[i]).url != (
            #[trigger] self.feeds[j]).url
    }

    /// Item ids are positive and grow along the table.
    pub open spec fn item_ids_grow(self) -> bool {
        &&& forall|i: int| 0 <= i < self.items.len() ==> (#[trigger] self.items[i]).id >= 1
        &&& forall|i: int, j: int|
            0 <= i < j < self.items.len() ==> (#[trigger] self.items[i]).id < (
            #[trigger] self.items[j]).id
    }

    /// No two items of one feed share a guid.
    pub open spec fn guids_unique(self) -> bool {
        forall|i: int, j: int|
            0 <= i < j < self.items.len() ==> !((#[trigger] self.items[i]).feed_id
                == (#[trigger] self.items[j]).feed_id && self.items[i].guid == self.items[j].guid)
    }

    /// Every item belongs to a feed of the store.
    pub open spec fn items_owned(self) -> bool {
        forall|i: int|
            0 <= i < self.items.len() ==> self.has_feed((#[trigger] self.items[i]).feed_id)
    }

    /// The invariant of the store.
    pub open spec fn wf(self) -> bool {
        &&& !self.ready ==> self.feeds.len() == 0 && self.items.len() == 0
        &&& self.feed_ids_grow()
        &&& self.urls_unique()
        &&& self.item_ids_grow()
        &&& self.guids_unique()
        &&& self.items_owned()
    }

    // -- feeds --------------------------------------------------------------

    /// The store holds a feed with this id.
    pub open spec fn has_feed(self, id: i64) -> bool {
        exists|i: int| 0 <= i < self.feeds.len() && (#[trigger] self.feeds[i]).id == id
    }

    /// Where the feed with this id stands.
    pub open spec fn feed_at(self, id: i64) -> int {
        choose|i: int| 0 <= i < self.feeds.len() && (#[trigger] self.feeds[i]).id == id
    }

    /// The feed with this id, if the store holds one.
    pub open spec fn feed(self, id: i64) -> Option<FeedView> {
        if self.has_feed(id) {
            Some(self.feeds[self.feed_at(id)])
        } else {
            None
        }
    }

    /// The store holds a feed with this source URL.
    pub open spec fn has_url(self, url: Seq<char>) -> bool {
        exists|i: int| 0 <= i < self.feeds.len() && (#[trigger] self.feeds[i]).url == url
    }

    /// Where the feed with this source URL stands.
    pub open spec fn url_at(self, url: Seq<char>) -> int {
        choose|i: int| 0 <= i < self.feeds.len() && (#[trigger] self.feeds[i]).url == url
    }

    /// The id that the next new feed gets.
    pub open spec fn next_feed_id(self) -> int {
        if self.feeds.len() == 0 {
            1
        } else {
            self.feeds.last().id + 1
        }
    }

    /// The store after one configured feed was reconciled: a feed with an
    /// unseen URL is added at the end, one with a known URL takes the
    /// configured name and discussion flag and keeps everything else.
    pub open spec fn sync_one(self, config: FeedConfigView) -> Result<StoreView, StorageError> {
        if !self.ready {
            Err(StorageError::NotInitialized)
        } else if self.has_url(config.url) {
            let i = self.url_at(config.url);
            Ok(
                StoreView {
                    feeds: self.feeds.update(
                        i,
                        FeedView {
                            name: config.name,
                            has_discussion: config.has_discussion,
                            ..self.feeds[i]
                        },
                    ),
                    ..self
                },
            )
        } else if self.next_feed_id() > i64::MAX {
            Err(StorageError::Full)
        } else {
            Ok(
                StoreView {
                    feeds: self.feeds.push(
                        FeedView {
                            id: self.next_feed_id() as i64,
                            name: config.name,
                            url: config.url,
                            has_discussion: config.has_discussion,
                            last_fetched: None,
                            last_error: None,
                            homepage_url: None,
                        },
                    ),
                    ..self
                },
            )
        }
    }

    /// The store after the configured feeds were reconciled one by one, in
    /// order, up to the first that the store refused, and that refusal.
    pub open spec fn sync(self, configs: Seq<FeedConfigView>) -> (StoreView, Result<
        (),
        StorageError,
    >)
        decreases configs.len(),
    {
        if configs.len() == 0 {
            (self, Ok(()))
        } else {
            match self.sync_one(configs[0]) {
                Ok(next) => next.sync(configs.skip(1)),
                Err(e) => (self, Err(e)),
            }
        }
    }

    /// The store after a fetch of feed `feed_id` was recorded: the feed takes
    /// the stamp and the error given, none where none is given, and a
    /// non-empty homepage URL. A store without that feed stays as it is.
    pub open spec fn record_fetch(
        self,
        feed_id: i64,
        stamp: Seq<char>,
        error: Option<Seq<char>>,
        homepage_url: Option<Seq<char>>,
    ) -> Result<StoreView, StorageError> {
        if !self.ready {
            Err(StorageError::NotInitialized)
        } else if self.has_feed(feed_id) {
            let i = self.feed_at(feed_id);
            Ok(
                StoreView {
                    feeds: self.feeds.update(
                        i,
                        FeedView {
                            last_fetched: Some(stamp),
                            last_error: error,
                            homepage_url: kept_homepage(self.feeds[i].homepage_url, homepage_url),
                            ..self.feeds[i]
                        },
                    ),
                    ..self
                },
            )
        } else {
            Ok(self)
        }
    }

    // -- items --------------------------------------------------------------

    /// The store holds an item with this guid under this feed.
    pub open spec fn has_item(self, feed_id: i64, guid: Seq<char>) -> bool {
        exists|i: int|
            0 <= i < self.items.len() && (#[trigger] self.items[i]).feed_id == feed_id
                && self.items[i].guid == guid
    }

    /// Where the item with this guid under this feed stands.
    pub open spec fn item_at(self, feed_id: i64, guid: Seq<char>) -> int {
        choose|i: int|
            0 <= i < self.items.len() && (#[trigger] self.items[i]).feed_id == feed_id
                && self.items[i].guid == guid
    }

    /// The id that the next new item gets.
    pub open spec fn next_item_id(self) -> int {
        if self.items.len() == 0 {
            1
        } else {
            self.items.last().id + 1
        }
    }

    /// The store after an item was written: where its feed holds the guid
    /// already, that row takes the new data and keeps its id and its place;
    /// where it does not, a new row is added at the end.
    pub open spec fn upsert(self, data: ItemData) -> Result<StoreView, StorageError> {
        if !self.ready {
            Err(StorageError::NotInitialized)
        } else if !self.has_feed(data.feed_id) {
            Err(StorageError::UnknownFeed)
        } else if self.has_item(data.feed_id, data.guid) {
            let i = self.item_at(data.feed_id, data.guid);
            Ok(StoreView { items: self.items.update(i, data.with_id(self.items[i].id)), ..self })
        } else if self.next_item_id() > i64::MAX {
            Err(StorageError::Full)
        } else {
            Ok(
                StoreView {
                    items: self.items.push(data.with_id(self.next_item_id() as i64)),
                    ..self
                },
            )
        }
    }

    /// How many items feed `feed_id` has.
    pub open spec fn count(self, feed_id: i64) -> nat {
        count_for(self.items, feed_id)
    }

    /// The items of feed `feed_id`, freshest first.
    pub open spec fn listing(self, feed_id: i64) -> Seq<ItemView> {
        listing(self.items, feed_id)
    }

    /// One page of the listing of feed `feed_id`.
    pub open spec fn page(self, feed_id: i64, limit: i64, offset: i64) -> Seq<ItemView> {
        page_of(self.listing(feed_id), limit, offset)
    }

    // -- what the invariant gives -------------------------------------------

    /// The feed that stands at `i` is the one that its id names.
    pub proof fn lemma_feed_at(self, i: int)
        requires
            self.wf(),
            0 <= i < self.feeds.len(),
        ensures
            self.has_feed(self.feeds[i].id),
            self.feed_at(self.feeds[i].id) == i,
            self.feed(self.feeds[i].id) == Some(self.feeds[i]),
    {
        let id = self.feeds[i].id;
        let k = self.feed_at(id);
        assert(0 <= k < self.feeds.len() && self.feeds[k].id == id);
        if k < i {
            assert(self.feeds[k].id < self.feeds[i].id);
        } else if i < k {
            assert(self.feeds[i].id < self.feeds[k].id);
        }
    }

    /// The feed that stands at `i` is the one that its URL names.
    pub proof fn lemma_url_at(self, i: int)
        requires
            self.wf(),
            0 <= i < self.feeds.len(),
        ensures
            self.has_url(self.feeds[i].url),
            self.url_at(self.feeds[i].url) == i,
    {
        let url = self.feeds[i].url;
        let k = self.url_at(url);
        assert(0 <= k < self.feeds.len() && self.feeds[k].url == url);
        if k < i {
            assert(self.feeds[k].url != self.feeds[i].url);
        } else if i < k {
            assert(self.feeds[i].url != self.feeds[k].url);
        }
    }

    /// The item that stands at `i` is the one that its feed and guid name.
    pub proof fn lemma_item_at(self, i: int)
        requires
            self.wf(),
            0 <= i < self.items.len(),
        ensures
            self.has_item(self.items[i].feed_id, self.items[i].guid),
            self.item_at(self.items[i].feed_id, self.items[i].guid) == i,
    {
        let f = self.items[i].feed_id;
        let g = self.items[i].guid;
        let k = self.item_at(f, g);
        assert(0 <= k < self.items.len() && self.items[k].feed_id == f && self.items[k].guid
            == g);
        if k < i {
            assert(!(self.items[k].feed_id == self.items[i].feed_id && self.items[k].guid
                == self.items[i].guid));
        } else if i < k {
            assert(!(self.items[i].feed_id == self.items[k].feed_id && self.items[i].guid
                == self.items[k].guid));
        }
    }

    /// No two items of a store share an id.
    pub proof fn lemma_distinct_ids(self)
        requires
            self.wf(),
        ensures
            distinct_ids(self.items),
    {
        assert forall|i: int, j: int| 0 <= i < j < self.items.len() implies (
        #[trigger] self.items[i]).id != (#[trigger] self.items[j]).id by {
            assert(self.items[i].id < self.items[j].id);
        }
    }

    /// A table of `n` rows ends with an id of at least `n`.
    pub proof fn lemma_ids_bound(self, i: int)
        requires
            self.wf(),
        ensures
            0 <= i < self.items.len() ==> self.items[i].id >= i + 1,
            0 <= i < self.feeds.len() ==> self.feeds[i].id >= i + 1,
        decreases i,
    {
        if i > 0 {
            self.lemma_ids_bound(i - 1);
            if i < self.items.len() {
                assert(self.items[i - 1].id < self.items[i].id);
            }
            if i < self.feeds.len() {
                assert(self.feeds[i - 1].id < self.feeds[i].id);
            }
        }
    }

    /// Reconciling one feed keeps the invariant, and it keeps the items, the
    /// feeds that were there, their ids, URLs and fetch status.
    pub proof fn lemma_sync_one(self, config: FeedConfigView)
        requires
            self.wf(),
        ensures
            self.sync_one(config) matches Ok(next) ==> {
                &&& next.wf()
                &&& next.items == self.items
                &&& next.feeds.len() >= self.feeds.len()
                &&& next.has_url(config.url)
                &&& forall|id: i64| self.has_feed(id) ==> next.has_feed(id)
            },
    {
        if self.sync_one(config) is Ok {
            let next = self.sync_one(config)->Ok_0;
            if self.has_url(config.url) {
                let i = self.url_at(config.url);
                assert(next.feeds[i].url == config.url);
                assert forall|id: i64| self.has_feed(id) implies next.has_feed(id) by {
                    let k = self.feed_at(id);
                    assert(next.feeds[k].id == id);
                }
                assert(next.items_owned()) by {
                    assert forall|k: int| 0 <= k < next.items.len() implies next.has_feed(
                        (#[trigger] next.items[k]).feed_id,
                    ) by {
                        assert(self.has_feed(self.items[k].feed_id));
                    }
                }
            } else {
                let n = self.feeds.len() as int;
                assert(next.feeds[n].url == config.url);
                assert forall|id: i64| self.has_feed(id) implies next.has_feed(id) by {
                    let k = self.feed_at(id);
                    assert(next.feeds[k].id == id);
                }
                assert(next.items_owned()) by {
                    assert forall|k: int| 0 <= k < next.items.len() implies next.has_feed(
                        (#[trigger] next.items[k]).feed_id,
                    ) by {
                        assert(self.has_feed(self.items[k].feed_id));
                    }
                }
                assert(next.feed_ids_grow()) by {
                    assert forall|i: int, j: int| 0 <= i < j < next.feeds.len() implies (
                    #[trigger] next.feeds[i]).id < (#[trigger] next.feeds[j]).id by {
                        if j == n {
                            if i < n - 1 {
                                assert(self.feeds[i].id < self.feeds[n - 1].id);
                            }
                        } else {
                            assert(self.feeds[i].id < self.feeds[j].id);
                        }
                    }
                    assert forall|i: int| 0 <= i < next.feeds.len() implies (
                    #[trigger] next.feeds[i]).id >= 1 by {
                        if i == n && n > 0 {
                            assert(self.feeds[n - 1].id >= 1);
                        }
                    }
                }
                assert(next.urls_unique()) by {
                    assert forall|i: int, j: int| 0 <= i < j < next.feeds.len() implies (
                    #[trigger] next.feeds[i]).url != (#[trigger] next.feeds[j]).url by {
                        if j == n {
                            assert(self.feeds[i].url != config.url);
                        } else {
                            assert(self.feeds[i].url != self.feeds[j].url);
                        }
                    }
                }
            }
        }
    }

    /// Recording a fetch keeps the invariant, the items and the feeds' ids.
    pub proof fn lemma_record_fetch(
        self,
        feed_id: i64,
        stamp: Seq<char>,
        error: Option<Seq<char>>,
        homepage_url: Option<Seq<char>>,
    )
        requires
            self.wf(),
        ensures
            self.record_fetch(feed_id, stamp, error, homepage_url) matches Ok(next) ==> {
                &&& next.wf()
                &&& next.items == self.items
                &&& next.feeds.len() == self.feeds.len()
                &&& forall|id: i64| self.has_feed(id) <==> next.has_feed(id)
            },
    {
        if self.record_fetch(feed_id, stamp, error, homepage_url) is Ok {
            let next = self.record_fetch(feed_id, stamp, error, homepage_url)->Ok_0;
            if self.has_feed(feed_id) {
                assert forall|id: i64| self.has_feed(id) <==> next.has_feed(id) by {
                    if self.has_feed(id) {
                        let k = self.feed_at(id);
                        assert(next.feeds[k].id == id);
                    }
                    if next.has_feed(id) {
                        let k = next.feed_at(id);
                        assert(self.feeds[k].id == id);
                    }
                }
                assert(next.items_owned()) by {
                    assert forall|k: int| 0 <= k < next.items.len() implies next.has_feed(
                        (#[trigger] next.items[k]).feed_id,
                    ) by {
                        assert(self.has_feed(self.items[k].feed_id));
                    }
                }
            }
        }
    }

    /// Writing an item keeps the invariant and the feeds.
    pub proof fn lemma_upsert(self, data: ItemData)
        requires
            self.wf(),
        ensures
            self.upsert(data) matches Ok(next) ==> {
                &&& next.wf()
                &&& next.feeds == self.feeds
                &&& next.has_item(data.feed_id, data.guid)
            },
    {
        if self.upsert(data) is Ok {
            let next = self.upsert(data)->Ok_0;
            assert forall|id: i64| self.has_feed(id) == next.has_feed(id) by {}
            if self.has_item(data.feed_id, data.guid) {
                let i = self.item_at(data.feed_id, data.guid);
                assert(next.items[i].feed_id == data.feed_id && next.items[i].guid == data.guid);
                assert(next.item_ids_grow()) by {
                    assert forall|a: int, b: int| 0 <= a < b < next.items.len() implies (
                    #[trigger] next.items[a]).id < (#[trigger] next.items[b]).id by {
                        assert(self.items[a].id < self.items[b].id);
                    }
                    assert forall|a: int| 0 <= a < next.items.len() implies (
                    #[trigger] next.items[a]).id >= 1 by {
                        assert(self.items[a].id >= 1);
                    }
                }
                assert(next.guids_unique()) by {
                    assert forall|a: int, b: int| 0 <= a < b < next.items.len() implies !((
                    #[trigger] next.items[a]).feed_id == (#[trigger] next.items[b]).feed_id
                        && next.items[a].guid == next.items[b].guid) by {
                        assert(!(self.items[a].feed_id == self.items[b].feed_id
                            && self.items[a].guid == self.items[b].guid));
                    }
                }
                assert(next.items_owned()) by {
                    assert forall|k: int| 0 <= k < next.items.len() implies next.has_feed(
                        (#[trigger] next.items[k]).feed_id,
                    ) by {
                        assert(self.has_feed(self.items[k].feed_id));
                    }
                }
            } else {
                let n = self.items.len() as int;
                assert(next.items[n].feed_id == data.feed_id && next.items[n].guid == data.guid);
                assert(next.item_ids_grow()) by {
                    assert forall|a: int, b: int| 0 <= a < b < next.items.len() implies (
                    #[trigger] next.items[a]).id < (#[trigger] next.items[b]).id by {
                        if b == n {
                            if a < n - 1 {
                                assert(self.items[a].id < self.items[n - 1].id);
                            }
                        } else {
                            assert(self.items[a].id < self.items[b].id);
                        }
                    }
                    assert forall|a: int| 0 <= a < next.items.len() implies (
                    #[trigger] next.items[a]).id >= 1 by {
                        if a == n && n > 0 {
                            assert(self.items[n - 1].id >= 1);
                        }
                    }
                }
                assert(next.guids_unique()) by {
                    assert forall|a: int, b: int| 0 <= a < b < next.items.len() implies !((
                    #[trigger] next.items[a]).feed_id == (#[trigger] next.items[b]).feed_id
                        && next.items[a].guid == next.items[b].guid) by {
                        if b == n {
                            assert(!(self.items[a].feed_id == data.feed_id && self.items[a].guid
                                == data.guid));
                        } else {
                            assert(!(self.items[a].feed_id == self.items[b].feed_id
                                && self.items[a].guid == self.items[b].guid));
                        }
                    }
                }
                assert(next.items_owned()) by {
                    assert forall|k: int| 0 <= k < next.items.len() implies next.has_feed(
                        (#[trigger] next.items[k]).feed_id,
                    ) by {
                        if k < n {
                            assert(self.has_feed(self.items[k].feed_id));
                        }
                    }
                }
            }
        }
    }
}

} // verus!
