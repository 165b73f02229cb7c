//! What the pages show: the feeds with their first page of items, a further
//! page of one feed, and the state of the refresh button.

use crate::db::{feed_views, item_views, Database, Feed, FeedView, Item};
use crate::fetcher::Fetcher;
use crate::store::{StorageError, StoreView};
use vstd::prelude::*;

verus! {

/// How many items a page holds.
pub const ITEMS_PER_PAGE: i64 = 15;

/// The text of the failure to find a feed.
pub const FEED_NOT_FOUND: &'static str = "Feed not found";

/// The answer to a liveness probe.
pub const HEALTHY: &'static str = "OK";

/// What the pages are made from.
pub struct AppState {
    pub db: Database,
    pub fetcher: Fetcher,
}

/// A feed with its first page of items.
#[derive(Debug)]
pub struct FeedWithItems {
    pub feed: Feed,
    pub items: Vec<Item>,
    /// Whether the feed has items beyond this page.
    pub has_more: bool,
}

/// The front page: every feed with its first page of items.
#[derive(Debug)]
pub struct IndexTemplate {
    pub feeds: Vec<FeedWithItems>,
}

/// A further page of one feed.
#[derive(Debug)]
pub struct FeedItemsTemplate {
    pub feed: Feed,
    pub items: Vec<Item>,
    /// The offset of the page after this one.
    pub offset: i64,
    /// Whether the feed has items beyond this page.
    pub has_more: bool,
}

/// The refresh button.
#[derive(Debug, Clone, Copy, PartialEq, Eq, Structural)]
pub struct RefreshButtonTemplate {
    pub refreshing: bool,
}

/// The query of a request for a further page.
#[derive(Debug, Clone, Copy, PartialEq, Eq, Structural)]
pub struct MoreQuery {
    pub offset: i64,
}

impl Default for MoreQuery {
    fn default() -> (query: MoreQuery)
        ensures
            query.offset == 0,
    {
        MoreQuery { offset: 0 }
    }
}

/// Why a page could not be made.
#[derive(Debug)]
pub struct AppError {
    pub message: String,
}

impl AppError {
    /// The failure that stands for a refusal of the store.
    pub fn storage(e: StorageError) -> (r: AppError)
        ensures
            r.message@ == e.text(),
    {
        AppError { message: e.message() }
    }

    /// The failure to find a feed.
    pub fn not_found() -> (r: AppError)
        ensures
            r.message@ == FEED_NOT_FOUND@,
    {
        AppError { message: FEED_NOT_FOUND.to_owned() }
    }
}

/// A feed with its first page is what the store holds of it.
pub open spec fn shows_feed(shown: FeedWithItems, store: StoreView, feed: FeedView) -> bool {
    &&& shown.feed@ == feed
    &&& item_views(shown.items@) == store.page(feed.id, ITEMS_PER_PAGE, 0)
    &&& shown.has_more == (store.count(feed.id) > ITEMS_PER_PAGE)
}

/// The offset of the page after the one at `offset`, as far as an `i64`
/// goes.
pub open spec fn next_offset(offset: i64) -> i64 {
    if offset > i64::MAX - ITEMS_PER_PAGE {
        i64::MAX
    } else {
        (offset + ITEMS_PER_PAGE) as i64
    }
}

/// The front page: the feeds in the order of the store, each with its first
/// page of items and whether it has more.
pub fn index(state: &AppState) -> (r: Result<IndexTemplate, AppError>)
    ensures
        match r {
            Ok(page) => {
                &&& state.db@.ready
                &&& page.feeds@.len() == state.db@.feeds.len()
                &&& forall|i: int|
                    0 <= i < page.feeds@.len() ==> shows_feed(
                        #[trigger] page.feeds@[i],
                        state.db@,
                        state.db@.feeds[i],
                    )
            },
            Err(e) => !state.db@.ready && e.message@ == StorageError::NotInitialized.text(),
        },
{
    let feeds = match state.db.get_all_feeds() {
        Ok(feeds) => feeds,
        Err(e) => {
            return Err(AppError::storage(e));
        },
    };
    let mut shown: Vec<FeedWithItems> = Vec::new();
    let mut i: usize = 0;
    while i < feeds.len()
        invariant
            i <= feeds@.len(),
            state.db@.ready,
            feed_views(feeds@) == state.db@.feeds,
            shown@.len() == i,
            forall|k: int|
                0 <= k < i ==> shows_feed(#[trigger] shown@[k], state.db@, state.db@.feeds[k]),
        decreases feeds@.len() - i,
    {
        let feed = feeds[i].clone();
        proof {
            assert(feed_views(feeds@)[i as int] == feed@);
        }
        let items = match state.db.get_items_for_feed(feed.id, ITEMS_PER_PAGE, 0) {
            Ok(items) => items,
            Err(e) => {
                return Err(AppError::storage(e));
            },
        };
        let total = match state.db.get_item_count_for_feed(feed.id) {
            Ok(total) => total,
            Err(e) => {
                return Err(AppError::storage(e));
            },
        };
        shown.push(FeedWithItems { feed, items, has_more: total > ITEMS_PER_PAGE });
        i += 1;
    }
    Ok(IndexTemplate { feeds: shown })
}

/// A further page of one feed: the items from the offset of the query on,
/// the offset of the page after it, and whether the feed has items beyond
/// this page.
pub fn feed_more(state: &AppState, feed_id: i64, query: MoreQuery) -> (r: Result<
    FeedItemsTemplate,
    AppError,
>)
    ensures
        match r {
            Ok(page) => {
                &&& state.db@.ready
                &&& state.db@.feed(feed_id) == Some(page.feed@)
                &&& item_views(page.items@) == state.db@.page(
                    feed_id,
                    ITEMS_PER_PAGE,
                    query.offset,
                )
                &&& page.offset == next_offset(query.offset)
                &&& page.has_more == (query.offset + ITEMS_PER_PAGE < state.db@.count(feed_id))
            },
            Err(e) => if state.db@.ready {
                state.db@.feed(feed_id) is None && e.message@ == FEED_NOT_FOUND@
            } else {
                e.message@ == StorageError::NotInitialized.text()
            },
        },
{
    let feed = match state.db.get_feed(feed_id) {
        Ok(Some(feed)) => feed,
        Ok(None) => {
            return Err(AppError::not_found());
        },
        Err(e) => {
            return Err(AppError::storage(e));
        },
    };
    let offset = query.offset;
    let items = match state.db.get_items_for_feed(feed_id, ITEMS_PER_PAGE, offset) {
        Ok(items) => items,
        Err(e) => {
            return Err(AppError::storage(e));
        },
    };
    let total = match state.db.get_item_count_for_feed(feed_id) {
        Ok(total) => total,
        Err(e) => {
            return Err(AppError::storage(e));
        },
    };
    let has_more = offset < total - ITEMS_PER_PAGE;
    let next = if offset > i64::MAX - ITEMS_PER_PAGE {
        i64::MAX
    } else {
        offset + ITEMS_PER_PAGE
    };
    Ok(FeedItemsTemplate { feed, items, offset: next, has_more })
}

/// The button right after a refresh was asked for: it shows a refresh under
/// way, whether or not the request started one.
pub fn refresh() -> (r: RefreshButtonTemplate)
    ensures
        r.refreshing,
{
    RefreshButtonTemplate { refreshing: true }
}

/// The button as it stands: it shows whether a refresh is under way.
pub fn refresh_status(state: &AppState) -> (r: RefreshButtonTemplate)
    ensures
        r.refreshing == state.fetcher@.refreshing,
{
    RefreshButtonTemplate { refreshing: state.fetcher.is_refreshing() }
}

/// The answer to a liveness probe.
pub fn health() -> (r: &'static str)
    ensures
        r@ == HEALTHY@,
{
    HEALTHY
}

} // verus!
