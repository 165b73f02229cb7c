//! The store: feeds, their items, and the rows that stand for them.

use crate::config::{config_views, FeedConfig};
use crate::order::{
    count_for,
    lemma_listing,
    lemma_page,
    lemma_published_first,
    max_int,
    min_int,
    sorted_refs,
};
use crate::store::{ItemData, StorageError, StoreView};
use crate::timestamp::{published_text, Timestamp};
use vstd::prelude::*;

verus! {

/// A configured syndication source, as the store keeps it.
#[derive(Debug)]
pub struct Feed {
    pub id: i64,
    pub name: String,
    pub url: String,
    pub has_discussion: bool,
    pub last_fetched: Option<String>,
    pub last_error: Option<String>,
    pub homepage_url: Option<String>,
}

/// One ingested article of a feed.
#[derive(Debug)]
pub struct Item {
    pub id: i64,
    pub feed_id: i64,
    pub guid: String,
    pub title: String,
    pub link: String,
    pub discussion_link: Option<String>,
    pub published: Option<String>,
}

/// What a `Feed` says, as plain mathematical values.
pub struct FeedView {
    pub id: i64,
    pub name: Seq<char>,
    pub url: Seq<char>,
    pub has_discussion: bool,
    pub last_fetched: Option<Seq<char>>,
    pub last_error: Option<Seq<char>>,
    pub homepage_url: Option<Seq<char>>,
}

/// What an `Item` says, as plain mathematical values.
pub struct ItemView {
    pub id: i64,
    pub feed_id: i64,
    pub guid: Seq<char>,
    pub title: Seq<char>,
    pub link: Seq<char>,
    pub discussion_link: Option<Seq<char>>,
    pub published: Option<Seq<char>>,
}

/// The characters of an optional string.
pub open spec fn opt_text(o: Option<String>) -> Option<Seq<char>> {
    match o {
        Some(s) => Some(s@),
        None => None,
    }
}

/// The characters of an optional string slice.
pub open spec fn opt_str(o: Option<&str>) -> Option<Seq<char>> {
    match o {
        Some(s) => Some(s@),
        None => None,
    }
}

impl View for Feed {
    type V = FeedView;

    open spec fn view(&self) -> FeedView {
        FeedView {
            id: self.id,
            name: self.name@,
            url: self.url@,
            has_discussion: self.has_discussion,
            last_fetched: opt_text(self.last_fetched),
            last_error: opt_text(self.last_error),
            homepage_url: opt_text(self.homepage_url),
        }
    }
}

impl View for Item {
    type V = ItemView;

    open spec fn view(&self) -> ItemView {
        ItemView {
            id: self.id,
            feed_id: self.feed_id,
            guid: self.guid@,
            title: self.title@,
            link: self.link@,
            discussion_link: opt_text(self.discussion_link),
            published: opt_text(self.published),
        }
    }
}

/// A copy of an optional string.
pub fn clone_opt(o: &Option<String>) -> (r: Option<String>)
    ensures
        r == *o,
{
    match o {
        Some(s) => Some(s.clone()),
        None => None,
    }
}

/// An owned copy of an optional string slice.
pub fn own_opt(o: Option<&str>) -> (r: Option<String>)
    ensures
        opt_text(r) == opt_str(o),
{
    match o {
        Some(s) => Some(s.to_owned()),
        None => None,
    }
}

/// A borrowed view of an optional string.
pub fn borrow_opt(o: &Option<String>) -> (r: Option<&str>)
    ensures
        opt_str(r) == opt_text(*o),
{
    match o {
        Some(s) => Some(s.as_str()),
        None => None,
    }
}

impl Clone for Feed {
    fn clone(&self) -> (r: Self)
        ensures
            r == *self,
    {
        Feed {
            id: self.id,
            name: self.name.clone(),
            url: self.url.clone(),
            has_discussion: self.has_discussion,
            last_fetched: clone_opt(&self.last_fetched),
            last_error: clone_opt(&self.last_error),
            homepage_url: clone_opt(&self.homepage_url),
        }
    }
}

impl Clone for Item {
    fn clone(&self) -> (r: Self)
        ensures
            r == *self,
    {
        Item {
            id: self.id,
            feed_id: self.feed_id,
            guid: self.guid.clone(),
            title: self.title.clone(),
            link: self.link.clone(),
            discussion_link: clone_opt(&self.discussion_link),
            published: clone_opt(&self.published),
        }
    }
}

/// The views of a sequence of feeds.
pub open spec fn feed_views(feeds: Seq<Feed>) -> Seq<FeedView> {
    feeds.map_values(|f: Feed| f@)
}

/// The views of a sequence of items.
pub open spec fn item_views(items: Seq<Item>) -> Seq<ItemView> {
    items.map_values(|i: Item| i@)
}

/// The views of a sequence of borrowed items.
pub open spec fn item_ref_views(items: Seq<&Item>) -> Seq<ItemView> {
    items.map_values(|i: &Item| i@)
}

/// The store that the two tables make.
pub open spec fn store_of(ready: bool, feeds: Seq<Feed>, items: Seq<Item>) -> StoreView {
    StoreView { ready, feeds: feed_views(feeds), items: item_views(items) }
}

/// The data of an item, from its parts.
pub open spec fn item_data(
    feed_id: i64,
    guid: Seq<char>,
    title: Seq<char>,
    link: Seq<char>,
    discussion_link: Option<Seq<char>>,
    published: Option<Seq<char>>,
) -> ItemData {
    ItemData { feed_id, guid, title, link, discussion_link, published }
}

/// Where the feed with this id stands in the table.
fn feed_index(feeds: &Vec<Feed>, id: i64) -> (r: Option<usize>)
    ensures
        match r {
            Some(i) => i < feeds@.len() && feeds@[i as int].id == id,
            None => forall|k: int| 0 <= k < feeds@.len() ==> (#[trigger] feeds@[k]).id != id,
        },
{
    let mut i: usize = 0;
    while i < feeds.len()
        invariant
            i <= feeds@.len(),
            forall|k: int| 0 <= k < i ==> (#[trigger] feeds@[k]).id != id,
        decreases feeds@.len() - i,
    {
        if feeds[i].id == id {
            return Some(i);
        }
        i += 1;
    }
    None
}

/// Where the feed with this source URL stands in the table.
fn url_index(feeds: &Vec<Feed>, url: &String) -> (r: Option<usize>)
    ensures
        match r {
            Some(i) => i < feeds@.len() && feeds@[i as int].url@ == url@,
            None => forall|k: int| 0 <= k < feeds@.len() ==> (#[trigger] feeds@[k]).url@ != url@,
        },
{
    let mut i: usize = 0;
    while i < feeds.len()
        invariant
            i <= feeds@.len(),
            forall|k: int| 0 <= k < i ==> (#[trigger] feeds@[k]).url@ != url@,
        decreases feeds@.len() - i,
    {
        if feeds[i].url == *url {
            return Some(i);
        }
        i += 1;
    }
    None
}

/// Where the item with this guid under this feed stands in the table.
fn item_index(items: &Vec<Item>, feed_id: i64, guid: &String) -> (r: Option<usize>)
    ensures
        match r {
            Some(i) => i < items@.len() && items@[i as int].feed_id == feed_id
                && items@[i as int].guid@ == guid@,
            None => forall|k: int|
                0 <= k < items@.len() ==> !((#[trigger] items@[k]).feed_id == feed_id
                    && items@[k].guid@ == guid@),
        },
{
    let mut i: usize = 0;
    while i < items.len()
        invariant
            i <= items@.len(),
            forall|k: int|
                0 <= k < i ==> !((#[trigger] items@[k]).feed_id == feed_id && items@[k].guid@
                    == guid@),
        decreases items@.len() - i,
    {
        if items[i].feed_id == feed_id && items[i].guid == *guid {
            return Some(i);
        }
        i += 1;
    }
    None
}

/// Reconciles one configured feed with the table of feeds.
fn sync_one_into(feeds: &mut Vec<Feed>, items: &Vec<Item>, config: &FeedConfig) -> (r: Result<
    (),
    StorageError,
>)
    requires
        store_of(true, old(feeds)@, items@).wf(),
    ensures
        store_of(true, final(feeds)@, items@).wf(),
        match store_of(true, old(feeds)@, items@).sync_one(config@) {
            Ok(next) => r is Ok && store_of(true, final(feeds)@, items@) == next,
            Err(e) => r == Err::<(), StorageError>(e) && final(feeds)@ == old(feeds)@,
        },
{
    let ghost before = store_of(true, feeds@, items@);
    proof {
        before.lemma_sync_one(config@);
    }
    match url_index(feeds, &config.url) {
        Some(i) => {
            proof {
                before.lemma_url_at(i as int);
            }
            let row = Feed {
                id: feeds[i].id,
                name: config.name.clone(),
                url: feeds[i].url.clone(),
                has_discussion: config.has_discussion,
                last_fetched: clone_opt(&feeds[i].last_fetched),
                last_error: clone_opt(&feeds[i].last_error),
                homepage_url: clone_opt(&feeds[i].homepage_url),
            };
            feeds.set(i, row);
            proof {
                assert(feed_views(feeds@) =~= before.sync_one(config@)->Ok_0.feeds);
            }
            Ok(())
        },
        None => {
            proof {
                assert(!before.has_url(config@.url));
            }
            let id: i64 = if feeds.len() == 0 {
                1
            } else {
                let last = feeds[feeds.len() - 1].id;
                proof {
                    assert(before.feeds.last().id == last);
                }
                if last == i64::MAX {
                    return Err(StorageError::Full);
                }
                last + 1
            };
            let row = Feed {
                id,
                name: config.name.clone(),
                url: config.url.clone(),
                has_discussion: config.has_discussion,
                last_fetched: None,
                last_error: None,
                homepage_url: None,
            };
            feeds.push(row);
            proof {
                assert(feed_views(feeds@) =~= before.sync_one(config@)->Ok_0.feeds);
            }
            Ok(())
        },
    }
}

/// Writes one item into the table of items.
fn upsert_into(
    feeds: &Vec<Feed>,
    items: &mut Vec<Item>,
    feed_id: i64,
    guid: &str,
    title: &str,
    link: &str,
    discussion_link: Option<&str>,
    published: Option<&str>,
) -> (r: Result<(), StorageError>)
    requires
        store_of(true, feeds@, old(items)@).wf(),
    ensures
        store_of(true, feeds@, final(items)@).wf(),
        match store_of(true, feeds@, old(items)@).upsert(
            item_data(
                feed_id,
                guid@,
                title@,
                link@,
                opt_str(discussion_link),
                opt_str(published),
            ),
        ) {
            Ok(next) => r is Ok && store_of(true, feeds@, final(items)@) == next,
            Err(e) => r == Err::<(), StorageError>(e) && final(items)@ == old(items)@,
        },
{
    let ghost before = store_of(true, feeds@, items@);
    let ghost data = item_data(
        feed_id,
        guid@,
        title@,
        link@,
        opt_str(discussion_link),
        opt_str(published),
    );
    proof {
        before.lemma_upsert(data);
    }
    if feed_index(feeds, feed_id).is_none() {
        proof {
            assert(!before.has_feed(feed_id));
        }
        return Err(StorageError::UnknownFeed);
    }
    proof {
        let k = feed_index_witness(feeds@, feed_id);
        assert(before.feeds[k].id == feed_id);
        assert(before.has_feed(feed_id));
    }
    let key = guid.to_owned();
    match item_index(items, feed_id, &key) {
        Some(i) => {
            proof {
                before.lemma_item_at(i as int);
            }
            let row = Item {
                id: items[i].id,
                feed_id,
                guid: key,
                title: title.to_owned(),
                link: link.to_owned(),
                discussion_link: own_opt(discussion_link),
                published: own_opt(published),
            };
            items.set(i, row);
            proof {
                assert(item_views(items@) =~= before.upsert(data)->Ok_0.items);
            }
            Ok(())
        },
        None => {
            proof {
                assert(!before.has_item(feed_id, guid@));
            }
            let id: i64 = if items.len() == 0 {
                1
            } else {
                let last = items[items.len() - 1].id;
                proof {
                    assert(before.items.last().id == last);
                }
                if last == i64::MAX {
                    return Err(StorageError::Full);
                }
                last + 1
            };
            let row = Item {
                id,
                feed_id,
                guid: key,
                title: title.to_owned(),
                link: link.to_owned(),
                discussion_link: own_opt(discussion_link),
                published: own_opt(published),
            };
            items.push(row);
            proof {
                assert(item_views(items@) =~= before.upsert(data)->Ok_0.items);
            }
            Ok(())
        },
    }
}

/// A place in the table at which the feed with this id stands.
spec fn feed_index_witness(feeds: Seq<Feed>, id: i64) -> int {
    choose|k: int| 0 <= k < feeds.len() && (#[trigger] feeds[k]).id == id
}

/// Records a fetch in the table of feeds.
fn record_into(
    feeds: &mut Vec<Feed>,
    items: &Vec<Item>,
    feed_id: i64,
    error: Option<&str>,
    homepage_url: Option<&str>,
    stamp: &str,
)
    requires
        store_of(true, old(feeds)@, items@).wf(),
    ensures
        store_of(true, final(feeds)@, items@).wf(),
        store_of(true, old(feeds)@, items@).record_fetch(
            feed_id,
            stamp@,
            opt_str(error),
            opt_str(homepage_url),
        ) == Ok::<StoreView, StorageError>(store_of(true, final(feeds)@, items@)),
{
    let ghost before = store_of(true, feeds@, items@);
    proof {
        before.lemma_record_fetch(feed_id, stamp@, opt_str(error), opt_str(homepage_url));
    }
    match feed_index(feeds, feed_id) {
        Some(i) => {
            proof {
                before.lemma_feed_at(i as int);
            }
            let homepage = match homepage_url {
                Some(url) => {
                    if url.unicode_len() > 0 {
                        Some(url.to_owned())
                    } else {
                        clone_opt(&feeds[i].homepage_url)
                    }
                },
                None => clone_opt(&feeds[i].homepage_url),
            };
            let row = Feed {
                id: feeds[i].id,
                name: feeds[i].name.clone(),
                url: feeds[i].url.clone(),
                has_discussion: feeds[i].has_discussion,
                last_fetched: Some(stamp.to_owned()),
                last_error: own_opt(error),
                homepage_url: homepage,
            };
            feeds.set(i, row);
            proof {
                let next = before.record_fetch(
                    feed_id,
                    stamp@,
                    opt_str(error),
                    opt_str(homepage_url),
                )->Ok_0;
                assert(feed_views(feeds@) =~= next.feeds);
            }
        },
        None => {
            proof {
                assert(!before.has_feed(feed_id));
            }
        },
    }
}

/// Whether the ids of the feeds are positive and grow along the table.
fn feed_ids_in_order(feeds: &Vec<Feed>) -> (r: bool)
    ensures
        r == store_of(true, feeds@, Seq::empty()).feed_ids_grow(),
{
    let ghost s = store_of(true, feeds@, Seq::empty());
    let mut i: usize = 0;
    while i < feeds.len()
        invariant
            i <= feeds@.len(),
            s == store_of(true, feeds@, Seq::empty()),
            forall|k: int| 0 <= k < i ==> (#[trigger] s.feeds[k]).id >= 1,
            forall|a: int, b: int| 0 <= a < b < i ==> (#[trigger] s.feeds[a]).id < (
            #[trigger] s.feeds[b]).id,
        decreases feeds@.len() - i,
    {
        if feeds[i].id < 1 {
            proof {
                assert(s.feeds[i as int].id < 1);
            }
            return false;
        }
        if i > 0 && feeds[i - 1].id >= feeds[i].id {
            proof {
                assert(!(s.feeds[i - 1].id < s.feeds[i as int].id));
            }
            return false;
        }
        proof {
            assert forall|a: int, b: int| 0 <= a < b < i + 1 implies (#[trigger] s.feeds[a]).id < (
            #[trigger] s.feeds[b]).id by {
                if b == i && a < i - 1 {
                    assert(s.feeds[a].id < s.feeds[i - 1].id);
                }
            }
        }
        i += 1;
    }
    true
}

/// Whether the ids of the items are positive and grow along the table.
fn item_ids_in_order(items: &Vec<Item>) -> (r: bool)
    ensures
        r == store_of(true, Seq::empty(), items@).item_ids_grow(),
{
    let ghost s = store_of(true, Seq::empty(), items@);
    let mut i: usize = 0;
    while i < items.len()
        invariant
            i <= items@.len(),
            s == store_of(true, Seq::empty(), items@),
            forall|k: int| 0 <= k < i ==> (#[trigger] s.items[k]).id >= 1,
            forall|a: int, b: int| 0 <= a < b < i ==> (#[trigger] s.items[a]).id < (
            #[trigger] s.items[b]).id,
        decreases items@.len() - i,
    {
        if items[i].id < 1 {
            proof {
                assert(s.items[i as int].id < 1);
            }
            return false;
        }
        if i > 0 && items[i - 1].id >= items[i].id {
            proof {
                assert(!(s.items[i - 1].id < s.items[i as int].id));
            }
            return false;
        }
        proof {
            assert forall|a: int, b: int| 0 <= a < b < i + 1 implies (#[trigger] s.items[a]).id < (
            #[trigger] s.items[b]).id by {
                if b == i && a < i - 1 {
                    assert(s.items[a].id < s.items[i - 1].id);
                }
            }
        }
        i += 1;
    }
    true
}

/// Whether no two feeds share a source URL.
fn urls_differ(feeds: &Vec<Feed>) -> (r: bool)
    ensures
        r == store_of(true, feeds@, Seq::empty()).urls_unique(),
{
    let ghost s = store_of(true, feeds@, Seq::empty());
    let mut j: usize = 0;
    while j < feeds.len()
        invariant
            j <= feeds@.len(),
            s == store_of(true, feeds@, Seq::empty()),
            forall|a: int, b: int| 0 <= a < b < j ==> (#[trigger] s.feeds[a]).url != (
            #[trigger] s.feeds[b]).url,
        decreases feeds@.len() - j,
    {
        let mut i: usize = 0;
        while i < j
            invariant
                i <= j < feeds@.len(),
                s == store_of(true, feeds@, Seq::empty()),
                forall|a: int| 0 <= a < i ==> (#[trigger] s.feeds[a]).url != s.feeds[j as int].url,
            decreases j - i,
        {
            if feeds[i].url == feeds[j].url {
                proof {
                    assert(s.feeds[i as int].url == s.feeds[j as int].url);
                }
                return false;
            }
            i += 1;
        }
        j += 1;
    }
    true
}

/// Whether no two items of one feed share a guid.
fn guids_differ(items: &Vec<Item>) -> (r: bool)
    ensures
        r == store_of(true, Seq::empty(), items@).guids_unique(),
{
    let ghost s = store_of(true, Seq::empty(), items@);
    let mut j: usize = 0;
    while j < items.len()
        invariant
            j <= items@.len(),
            s == store_of(true, Seq::empty(), items@),
            forall|a: int, b: int|
                0 <= a < b < j ==> !((#[trigger] s.items[a]).feed_id == (
                #[trigger] s.items[b]).feed_id && s.items[a].guid == s.items[b].guid),
        decreases items@.len() - j,
    {
        let mut i: usize = 0;
        while i < j
            invariant
                i <= j < items@.len(),
                s == store_of(true, Seq::empty(), items@),
                forall|a: int|
                    0 <= a < i ==> !((#[trigger] s.items[a]).feed_id == s.items[j as int].feed_id
                        && s.items[a].guid == s.items[j as int].guid),
            decreases j - i,
        {
            if items[i].feed_id == items[j].feed_id && items[i].guid == items[j].guid {
                proof {
                    assert(s.items[i as int].feed_id == s.items[j as int].feed_id
                        && s.items[i as int].guid == s.items[j as int].guid);
                }
                return false;
            }
            i += 1;
        }
        j += 1;
    }
    true
}

/// Whether every item belongs to one of the feeds.
fn items_have_feeds(feeds: &Vec<Feed>, items: &Vec<Item>) -> (r: bool)
    ensures
        r == store_of(true, feeds@, items@).items_owned(),
{
    let ghost s = store_of(true, feeds@, items@);
    let mut i: usize = 0;
    while i < items.len()
        invariant
            i <= items@.len(),
            s == store_of(true, feeds@, items@),
            forall|k: int| 0 <= k < i ==> s.has_feed((#[trigger] s.items[k]).feed_id),
        decreases items@.len() - i,
    {
        match feed_index(feeds, items[i].feed_id) {
            Some(at) => {
                proof {
                    assert(s.feeds[at as int].id == s.items[i as int].feed_id);
                }
            },
            None => {
                proof {
                    assert(!s.has_feed(s.items[i as int].feed_id));
                }
                return false;
            },
        }
        i += 1;
    }
    true
}

/// The store of feeds and items.
pub struct Database {
    ready: bool,
    feeds: Vec<Feed>,
    items: Vec<Item>,
}

impl View for Database {
    type V = StoreView;

    closed spec fn view(&self) -> StoreView {
        store_of(self.ready, self.feeds@, self.items@)
    }
}

impl Database {
    /// Every store meets the invariant of its view.
    #[verifier::type_invariant]
    pub open spec fn well_formed(self) -> bool {
        self@.wf()
    }

    /// Takes the two tables out of the store, which is left without rows.
    fn take_tables(&mut self) -> (t: (Vec<Feed>, Vec<Item>))
        ensures
            old(self)@.wf(),
            store_of(old(self).ready, t.0@, t.1@) == old(self)@,
            final(self).ready == old(self).ready,
            final(self).feeds@.len() == 0,
            final(self).items@.len() == 0,
    {
        proof {
            use_type_invariant(&*self);
        }
        let mut feeds: Vec<Feed> = Vec::new();
        let mut items: Vec<Item> = Vec::new();
        core::mem::swap(&mut self.items, &mut items);
        core::mem::swap(&mut self.feeds, &mut feeds);
        (feeds, items)
    }

    /// Puts two tables into a store that is without rows.
    fn put_tables(&mut self, feeds: Vec<Feed>, items: Vec<Item>)
        requires
            old(self).feeds@.len() == 0,
            old(self).items@.len() == 0,
            store_of(old(self).ready, feeds@, items@).wf(),
        ensures
            final(self)@ == store_of(old(self).ready, feeds@, items@),
    {
        let mut feeds = feeds;
        let mut items = items;
        core::mem::swap(&mut self.feeds, &mut feeds);
        core::mem::swap(&mut self.items, &mut items);
    }

    /// A store whose tables do not exist yet.
    pub fn new() -> (db: Database)
        ensures
            db@ == StoreView::empty(),
            db@.wf(),
    {
        let db = Database { ready: false, feeds: Vec::new(), items: Vec::new() };
        proof {
            assert(db@.feeds =~= Seq::empty());
            assert(db@.items =~= Seq::empty());
        }
        db
    }

    /// The store that holds the given rows, where they make a store: ids
    /// positive and growing along each table, no source URL twice, no guid
    /// twice within a feed, and every item with its feed among the feeds.
    pub fn restore(feeds: Vec<Feed>, items: Vec<Item>) -> (r: Option<Database>)
        ensures
            r is Some <==> store_of(true, feeds@, items@).wf(),
            r matches Some(db) ==> db@ == store_of(true, feeds@, items@),
    {
        let ghost s = store_of(true, feeds@, items@);
        proof {
            assert(s.feeds == store_of(true, feeds@, Seq::empty()).feeds);
            assert(s.items == store_of(true, Seq::empty(), items@).items);
        }
        if feed_ids_in_order(&feeds) && urls_differ(&feeds) && item_ids_in_order(&items)
            && guids_differ(&items) && items_have_feeds(&feeds, &items) {
            Some(Database { ready: true, feeds, items })
        } else {
            None
        }
    }

    /// Creates the tables where they do not exist yet. What the store holds
    /// stays.
    pub fn initialize(&mut self)
        ensures
            old(self)@.wf(),
            final(self)@.wf(),
            final(self)@.ready,
            final(self)@.feeds == old(self)@.feeds,
            final(self)@.items == old(self)@.items,
    {
        proof {
            use_type_invariant(&*self);
        }
        self.ready = true;
    }

    /// Reconciles the configured feeds with the store, one by one and in
    /// order, and stops at the first that the store refuses.
    pub fn sync_feeds(&mut self, configs: &[FeedConfig]) -> (r: Result<(), StorageError>)
        ensures
            old(self)@.wf(),
            final(self)@.wf(),
            final(self)@ == old(self)@.sync(config_views(configs@)).0,
            r == old(self)@.sync(config_views(configs@)).1,
    {
        proof {
            use_type_invariant(&*self);
        }
        let ghost all = config_views(configs@);
        let ghost start = self@;
        if !self.ready {
            return if configs.len() == 0 {
                Ok(())
            } else {
                Err(StorageError::NotInitialized)
            };
        }
        let (mut feeds, items) = self.take_tables();
        let mut failure: Option<StorageError> = None;
        let mut i: usize = 0;
        proof {
            assert(all.skip(0) =~= all);
        }
        while i < configs.len() && failure.is_none()
            invariant
                i <= configs@.len(),
                all == config_views(configs@),
                store_of(true, feeds@, items@).wf(),
                failure is None ==> start.sync(all) == store_of(true, feeds@, items@).sync(
                    all.skip(i as int),
                ),
                failure matches Some(e) ==> start.sync(all) == (
                    store_of(true, feeds@, items@),
                    Err::<(), StorageError>(e),
                ),
            decreases configs@.len() - i + if failure is None { 1nat } else { 0nat },
        {
            let ghost rest = all.skip(i as int);
            proof {
                assert(rest[0] == configs@[i as int]@);
                assert(rest.skip(1) =~= all.skip(i + 1));
            }
            match sync_one_into(&mut feeds, &items, &configs[i]) {
                Ok(()) => {
                    i += 1;
                },
                Err(e) => {
                    failure = Some(e);
                },
            }
        }
        proof {
            if failure is None {
                assert(all.skip(i as int).len() == 0);
            }
        }
        self.put_tables(feeds, items);
        match failure {
            None => Ok(()),
            Some(e) => Err(e),
        }
    }

    /// The feeds, in the order of their creation: by id, ascending.
    pub fn get_all_feeds(&self) -> (r: Result<Vec<Feed>, StorageError>)
        ensures
            self@.wf(),
            match r {
                Ok(feeds) => self@.ready && feed_views(feeds@) == self@.feeds,
                Err(e) => !self@.ready && e == StorageError::NotInitialized,
            },
    {
        proof {
            use_type_invariant(self);
        }
        if !self.ready {
            return Err(StorageError::NotInitialized);
        }
        let mut out: Vec<Feed> = Vec::new();
        let mut i: usize = 0;
        while i < self.feeds.len()
            invariant
                i <= self.feeds@.len(),
                out@.len() == i,
                forall|j: int| 0 <= j < i ==> (#[trigger] out@[j])@ == self.feeds@[j]@,
            decreases self.feeds@.len() - i,
        {
            out.push(self.feeds[i].clone());
            i += 1;
        }
        proof {
            assert(feed_views(out@) =~= feed_views(self.feeds@));
        }
        Ok(out)
    }

    /// The feed with this id, if the store holds one.
    pub fn get_feed(&self, feed_id: i64) -> (r: Result<Option<Feed>, StorageError>)
        ensures
            self@.wf(),
            match r {
                Ok(found) => self@.ready && match found {
                    Some(feed) => self@.feed(feed_id) == Some(feed@),
                    None => self@.feed(feed_id) is None,
                },
                Err(e) => !self@.ready && e == StorageError::NotInitialized,
            },
    {
        proof {
            use_type_invariant(self);
        }
        if !self.ready {
            return Err(StorageError::NotInitialized);
        }
        match feed_index(&self.feeds, feed_id) {
            Some(i) => {
                proof {
                    self@.lemma_feed_at(i as int);
                }
                Ok(Some(self.feeds[i].clone()))
            },
            None => {
                proof {
                    assert(!self@.has_feed(feed_id));
                }
                Ok(None)
            },
        }
    }

    /// One page of the items of a feed, freshest first: by published text,
    /// descending, items without one last, later rows first among equals. A
    /// negative offset counts as none and a negative limit as zero.
    pub fn get_items_for_feed(&self, feed_id: i64, limit: i64, offset: i64) -> (r: Result<
        Vec<Item>,
        StorageError,
    >)
        ensures
            self@.wf(),
            match r {
                Ok(items) => {
                    &&& self@.ready
                    &&& item_views(items@) == self@.page(feed_id, limit, offset)
                    &&& offset >= 0 ==> items@.len() == max_int(
                        0,
                        min_int(limit as int, self@.count(feed_id) - offset),
                    )
                    &&& offset >= self@.count(feed_id) ==> items@.len() == 0
                    &&& forall|i: int, j: int|
                        0 <= i < items@.len() && 0 <= j < items@.len() && (
                        #[trigger] items@[i]).published is Some && (
                        #[trigger] items@[j]).published is None ==> i < j
                },
                Err(e) => !self@.ready && e == StorageError::NotInitialized,
            },
    {
        proof {
            use_type_invariant(self);
            self@.lemma_distinct_ids();
            lemma_listing(self@.items, feed_id);
            lemma_page(self@.listing(feed_id), limit, offset);
        }
        if !self.ready {
            return Err(StorageError::NotInitialized);
        }
        let sorted = sorted_refs(&self.items, feed_id);
        let n = sorted.len();
        let start: usize = if offset <= 0 {
            0
        } else if offset as u64 >= n as u64 {
            n
        } else {
            offset as usize
        };
        let end: usize = if limit <= 0 {
            start
        } else if limit as u64 >= (n - start) as u64 {
            n
        } else {
            start + limit as usize
        };
        let ghost listed = item_ref_views(sorted@);
        let mut out: Vec<Item> = Vec::new();
        let mut k: usize = start;
        while k < end
            invariant
                start <= k <= end <= sorted@.len(),
                listed == item_ref_views(sorted@),
                out@.len() == k - start,
                forall|j: int| 0 <= j < k - start ==> (#[trigger] out@[j])@ == listed[start + j],
            decreases end - k,
        {
            out.push((*sorted[k]).clone());
            k += 1;
        }
        proof {
            let page = item_views(out@);
            assert(page =~= listed.subrange(start as int, end as int));
            assert forall|i: int, j: int|
                0 <= i < out@.len() && 0 <= j < out@.len() && (#[trigger] out@[i]).published
                    is Some && (#[trigger] out@[j]).published is None implies i < j by {
                assert(page[i] == out@[i]@ && page[j] == out@[j]@);
                lemma_published_first(page, i, j);
            }
        }
        Ok(out)
    }

    /// How many items a feed has.
    pub fn get_item_count_for_feed(&self, feed_id: i64) -> (r: Result<i64, StorageError>)
        ensures
            self@.wf(),
            match r {
                Ok(n) => self@.ready && n == self@.count(feed_id),
                Err(e) => !self@.ready && e == StorageError::NotInitialized,
            },
    {
        proof {
            use_type_invariant(self);
        }
        if !self.ready {
            return Err(StorageError::NotInitialized);
        }
        let ghost all = item_views(self.items@);
        let mut count: i64 = 0;
        let mut i: usize = 0;
        while i < self.items.len()
            invariant
                i <= self.items@.len(),
                all == item_views(self.items@),
                self@.wf(),
                self@.items == all,
                count == count_for(all.take(i as int), feed_id),
                0 <= count <= i,
            decreases self.items@.len() - i,
        {
            proof {
                assert(all.take(i + 1).drop_last() =~= all.take(i as int));
                self@.lemma_ids_bound(i as int);
            }
            if self.items[i].feed_id == feed_id {
                count += 1;
            }
            i += 1;
        }
        proof {
            assert(all.take(i as int) =~= all);
        }
        Ok(count)
    }

    /// Writes an item whose published value is given as text: a new row
    /// where the feed does not hold the guid yet, else the same row with the
    /// new title, link, discussion link and published value.
    pub fn upsert_row(
        &mut self,
        feed_id: i64,
        guid: &str,
        title: &str,
        link: &str,
        discussion_link: Option<&str>,
        published: Option<&str>,
    ) -> (r: Result<(), StorageError>)
        ensures
            old(self)@.wf(),
            final(self)@.wf(),
            match old(self)@.upsert(
                item_data(
                    feed_id,
                    guid@,
                    title@,
                    link@,
                    opt_str(discussion_link),
                    opt_str(published),
                ),
            ) {
                Ok(next) => r is Ok && final(self)@ == next,
                Err(e) => r == Err::<(), StorageError>(e) && final(self)@ == old(self)@,
            },
    {
        proof {
            use_type_invariant(&*self);
        }
        if !self.ready {
            return Err(StorageError::NotInitialized);
        }
        let (feeds, mut items) = self.take_tables();
        let r = upsert_into(
            &feeds,
            &mut items,
            feed_id,
            guid,
            title,
            link,
            discussion_link,
            published,
        );
        self.put_tables(feeds, items);
        r
    }

    /// Writes an item: a new row where the feed does not hold the guid yet,
    /// else the same row with the new title, link, discussion link and
    /// published value. The published value is stored as its RFC 3339 text.
    pub fn upsert_item(
        &mut self,
        feed_id: i64,
        guid: &str,
        title: &str,
        link: &str,
        discussion_link: Option<&str>,
        published: Option<Timestamp>,
    ) -> (r: Result<(), StorageError>)
        ensures
            old(self)@.wf(),
            final(self)@.wf(),
            match old(self)@.upsert(
                item_data(
                    feed_id,
                    guid@,
                    title@,
                    link@,
                    opt_str(discussion_link),
                    published_text(published),
                ),
            ) {
                Ok(next) => r is Ok && final(self)@ == next,
                Err(e) => r == Err::<(), StorageError>(e) && final(self)@ == old(self)@,
            },
    {
        let text = match published {
            Some(t) => t.to_rfc3339(),
            None => None,
        };
        self.upsert_row(feed_id, guid, title, link, discussion_link, borrow_opt(&text))
    }

    /// Records the outcome of a fetch that ended at the time `stamp`: the
    /// feed takes the stamp and the error, none where none is given, and a
    /// homepage URL that is not empty. A store without the feed stays as it
    /// is.
    pub fn record_fetch(
        &mut self,
        feed_id: i64,
        error: Option<&str>,
        homepage_url: Option<&str>,
        stamp: &str,
    ) -> (r: Result<(), StorageError>)
        ensures
            old(self)@.wf(),
            final(self)@.wf(),
            match old(self)@.record_fetch(
                feed_id,
                stamp@,
                opt_str(error),
                opt_str(homepage_url),
            ) {
                Ok(next) => r is Ok && final(self)@ == next,
                Err(e) => r == Err::<(), StorageError>(e) && final(self)@ == old(self)@,
            },
    {
        proof {
            use_type_invariant(&*self);
        }
        if !self.ready {
            return Err(StorageError::NotInitialized);
        }
        let (mut feeds, items) = self.take_tables();
        record_into(&mut feeds, &items, feed_id, error, homepage_url, stamp);
        self.put_tables(feeds, items);
        Ok(())
    }

    /// Records the outcome of a fetch that ended just now. Whatever the
    /// clock reads, the feed takes the RFC 3339 text of a point in time as
    /// its stamp, and the rest is as in `record_fetch`.
    pub fn update_feed_fetched(
        &mut self,
        feed_id: i64,
        error: Option<&str>,
        homepage_url: Option<&str>,
    ) -> (r: Result<(), StorageError>)
        ensures
            old(self)@.wf(),
            final(self)@.wf(),
            r is Ok <==> old(self)@.ready,
            r is Err ==> r == Err::<(), StorageError>(StorageError::NotInitialized)
                && final(self)@ == old(self)@,
            r is Ok ==> exists|now: Timestamp|
                now.text() is Some && old(self)@.record_fetch(
                    feed_id,
                    now.text()->0,
                    opt_str(error),
                    opt_str(homepage_url),
                ) == Ok::<StoreView, StorageError>(final(self)@),
    {
        let now = Timestamp::now();
        let stamp = now.to_rfc3339().unwrap();
        let ghost before = self@;
        let r = self.record_fetch(feed_id, error, homepage_url, stamp.as_str());
        proof {
            if r is Ok {
                assert(now.text() is Some && before.record_fetch(
                    feed_id,
                    now.text()->0,
                    opt_str(error),
                    opt_str(homepage_url),
                ) == Ok::<StoreView, StorageError>(self@));
            }
        }
        r
    }
}

} // verus!
