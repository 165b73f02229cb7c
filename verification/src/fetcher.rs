//! The refresh: what one feed's payload makes of the store, and the
//! coordinator that takes the feeds through one cycle at a time.
//!
//! The coordinator does no I/O. It says which feed to fetch next, and takes
//! what the fetch gave: the caller performs the request in between.

use crate::db::{borrow_opt, feed_views, item_data, opt_text, Database, Feed, FeedView};
use crate::discussion::{resolve, resolve_link};
use crate::entry::{entry_views, parse_feed, Entry, EntryView};
use crate::payload::{is_safe_to_parse, safe_to_parse};
use crate::store::{ItemData, StorageError, StoreView};
use crate::text::{decode, to_chars};
use crate::timestamp::{published_text, Timestamp};
use crate::xml::{comments_map, element_in, element_text, scan_comments, texts};
use vstd::hash_map::StringHashMap;
use vstd::prelude::*;
use vstd::utf8::*;

verus! {

/// How long one request for a feed may take, in seconds.
pub const FETCH_TIMEOUT_SECS: u64 = 30;

/// The name under which feeds are requested.
pub const USER_AGENT: &'static str = "MoarNews/1.0 (RSS Aggregator)";

/// The title of an entry that has none.
pub const UNTITLED: &'static str = "Untitled";

/// The failure of a payload that is not handed to the parser.
pub const NOT_PARSED: &'static str = "unable to parse feed: the payload is not safe to parse";

// ---------------------------------------------------------------------------
// One feed
// ---------------------------------------------------------------------------

/// Why the refresh of one feed failed.
#[derive(Debug)]
pub enum RefreshError {
    /// The request failed; the text says how.
    Fetch(String),
    /// The payload is no feed; the text is the parser's.
    Parse(String),
    /// The store refused an item.
    Storage(StorageError),
}

impl RefreshError {
    /// The failure in words, as it is recorded with the feed.
    pub open spec fn text(self) -> Seq<char> {
        match self {
            RefreshError::Fetch(message) => message@,
            RefreshError::Parse(message) => message@,
            RefreshError::Storage(e) => e.text(),
        }
    }

    /// The failure in words, as it is recorded with the feed.
    pub fn message(&self) -> (r: String)
        ensures
            r@ == self.text(),
    {
        match self {
            RefreshError::Fetch(message) => message.clone(),
            RefreshError::Parse(message) => message.clone(),
            RefreshError::Storage(e) => e.message(),
        }
    }
}

/// The mapping from link to comments link of a payload: that of its text,
/// and the empty one where the payload is not well-formed UTF-8.
pub open spec fn payload_comments(bytes: Seq<u8>) -> Map<Seq<char>, Seq<char>> {
    if valid_utf8(bytes) {
        comments_map(decode_utf8(bytes))
    } else {
        Map::empty()
    }
}

/// The title under which an entry is stored.
pub open spec fn title_of(entry: EntryView) -> Seq<char> {
    match entry.title {
        Some(title) => title,
        None => UNTITLED@,
    }
}

/// The article link of an entry: its first link, empty where it has none.
pub open spec fn main_link_of(entry: EntryView) -> Seq<char> {
    if entry.links.len() > 0 {
        entry.links[0].href
    } else {
        Seq::empty()
    }
}

/// The time of an entry: when it was published, else when it was updated.
pub open spec fn time_of(entry: EntryView) -> Option<Timestamp> {
    match entry.published {
        Some(t) => Some(t),
        None => entry.updated,
    }
}

/// The comments link that the raw payload gave for an article link.
pub open spec fn comments_for(comments: Map<Seq<char>, Seq<char>>, link: Seq<char>) -> Option<
    Seq<char>,
> {
    if comments.contains_key(link) {
        Some(comments[link])
    } else {
        None
    }
}

/// What an entry of `feed` makes the store write. An entry without an
/// article link writes nothing.
pub open spec fn entry_item(
    feed: FeedView,
    entry: EntryView,
    comments: Map<Seq<char>, Seq<char>>,
) -> Option<ItemData> {
    let link = main_link_of(entry);
    if link.len() == 0 {
        None
    } else {
        Some(
            item_data(
                feed.id,
                entry.id,
                title_of(entry),
                link,
                resolve(
                    feed.has_discussion,
                    feed.url,
                    entry,
                    comments_for(comments, link),
                    link,
                ),
                published_text(time_of(entry)),
            ),
        )
    }
}

/// The store after the entries of `feed` were written one by one, in order,
/// up to the first that the store refused, and that refusal.
pub open spec fn ingest(
    s: StoreView,
    feed: FeedView,
    entries: Seq<EntryView>,
    comments: Map<Seq<char>, Seq<char>>,
) -> (StoreView, Result<(), StorageError>)
    decreases entries.len(),
{
    if entries.len() == 0 {
        (s, Ok(()))
    } else {
        match entry_item(feed, entries[0], comments) {
            None => ingest(s, feed, entries.skip(1), comments),
            Some(data) => match s.upsert(data) {
                Ok(next) => ingest(next, feed, entries.skip(1), comments),
                Err(e) => (s, Err(e)),
            },
        }
    }
}

/// `after` is what the refresh of `feed` from the payload `bytes` can make
/// of `before` when it ends with `r`. Which entries the parser finds in the
/// payload is not stated: where it finds some, the store holds what their
/// ingestion gives; where it gives up, the store is as before.
pub open spec fn refreshed(
    before: StoreView,
    after: StoreView,
    feed: FeedView,
    bytes: Seq<u8>,
    r: Result<(), RefreshError>,
) -> bool {
    match r {
        Ok(done) => exists|entries: Seq<EntryView>|
            ingest(before, feed, entries, payload_comments(bytes)) == (
                after,
                Ok::<(), StorageError>(done),
            ),
        Err(RefreshError::Storage(e)) => exists|entries: Seq<EntryView>|
            ingest(before, feed, entries, payload_comments(bytes)) == (
                after,
                Err::<(), StorageError>(e),
            ),
        Err(RefreshError::Parse(_)) => after == before,
        Err(RefreshError::Fetch(_)) => false,
    }
}

/// The text of a failure, and none for a success.
pub open spec fn error_text(r: Result<(), RefreshError>) -> Option<Seq<char>> {
    match r {
        Ok(()) => None,
        Err(e) => Some(e.text()),
    }
}

/// `after` is `before` with the outcome of a fetch recorded for the feed,
/// under the text of whatever time the clock gave. A store without tables
/// records nothing.
pub open spec fn recorded(
    before: StoreView,
    after: StoreView,
    feed_id: i64,
    error: Option<Seq<char>>,
) -> bool {
    if before.ready {
        exists|now: Timestamp|
            now.text() is Some && before.record_fetch(feed_id, now.text()->0, error, None)
                == Ok::<StoreView, StorageError>(after)
    } else {
        after == before
    }
}

/// Writes the entries of a feed into the store, in order: the title or
/// `Untitled`, the first link as the article link, the discussion link that
/// the rules give, the published time or else the updated time. An entry
/// without an article link is passed over. The first refusal of the store
/// ends the work.
pub fn store_entries(
    db: &mut Database,
    feed: &Feed,
    entries: &Vec<Entry>,
    comments: &StringHashMap<String>,
) -> (r: Result<(), StorageError>)
    ensures
        old(db)@.wf(),
        final(db)@.wf(),
        ingest(old(db)@, feed@, entry_views(entries@), texts(comments@)) == (final(db)@, r),
{
    let ghost start = db@;
    let ghost all = entry_views(entries@);
    let ghost found = texts(comments@);
    let mut failure: Option<StorageError> = None;
    let mut i: usize = 0;
    proof {
        use_type_invariant(&*db);
        assert(all.skip(0) =~= all);
    }
    while i < entries.len() && failure.is_none()
        invariant
            i <= entries@.len(),
            all == entry_views(entries@),
            found == texts(comments@),
            db@.wf(),
            start.wf(),
            failure is None ==> ingest(start, feed@, all, found) == ingest(
                db@,
                feed@,
                all.skip(i as int),
                found,
            ),
            failure matches Some(e) ==> ingest(start, feed@, all, found) == (
                db@,
                Err::<(), StorageError>(e),
            ),
        decreases entries@.len() - i + if failure is None { 1nat } else { 0nat },
    {
        let entry = &entries[i];
        let ghost rest = all.skip(i as int);
        proof {
            assert(rest[0] == entry@);
            assert(rest.skip(1) =~= all.skip(i + 1));
        }
        let link = if entry.links.len() > 0 {
            entry.links[0].href.clone()
        } else {
            String::new()
        };
        if link.as_str().is_empty() {
            i += 1;
        } else {
            let title = match &entry.title {
                Some(t) => t.clone(),
                None => UNTITLED.to_owned(),
            };
            let discussion = resolve_link(
                feed.has_discussion,
                feed.url.as_str(),
                entry,
                comments.get(link.as_str()),
                link.as_str(),
            );
            let time = match entry.published {
                Some(t) => Some(t),
                None => entry.updated,
            };
            match db.upsert_item(
                feed.id,
                entry.id.as_str(),
                title.as_str(),
                link.as_str(),
                borrow_opt(&discussion),
                time,
            ) {
                Ok(()) => {
                    i += 1;
                },
                Err(e) => {
                    failure = Some(e);
                },
            }
        }
    }
    proof {
        if failure is None {
            assert(all.skip(i as int).len() == 0);
        }
    }
    match failure {
        None => Ok(()),
        Some(e) => Err(e),
    }
}

/// Brings one feed's items up to date from its payload: finds the comments
/// links in the raw bytes, has the payload parsed, and writes its entries.
/// Where the payload is no feed the store stays as it is. A payload that is
/// not safe to parse, for a play time that may not fit the parser's numbers
/// or for elements too many within one another, is not handed to the parser
/// and counts as no feed.
pub fn refresh_feed(db: &mut Database, feed: &Feed, bytes: &[u8]) -> (r: Result<
    (),
    RefreshError,
>)
    ensures
        old(db)@.wf(),
        final(db)@.wf(),
        refreshed(old(db)@, final(db)@, feed@, bytes@, r),
        !safe_to_parse(bytes@) ==> (r matches Err(RefreshError::Parse(message)) && message@
            == NOT_PARSED@),
{
    proof {
        use_type_invariant(&*db);
    }
    if !is_safe_to_parse(bytes) {
        return Err(RefreshError::Parse(NOT_PARSED.to_owned()));
    }
    let comments = Fetcher::extract_comments_from_xml(bytes);
    match parse_feed(bytes) {
        Err(message) => Err(RefreshError::Parse(message)),
        Ok(entries) => {
            let ghost before = db@;
            let stored = store_entries(db, feed, &entries, &comments);
            proof {
                assert(ingest(before, feed@, entry_views(entries@), payload_comments(bytes@)) == (
                    db@,
                    stored,
                ));
            }
            match stored {
                Ok(done) => Ok(done),
                Err(e) => Err(RefreshError::Storage(e)),
            }
        },
    }
}

/// Records with the feed how its refresh ended: the time, and the text of
/// the failure or none. That the store refuses the record changes nothing.
pub fn record_outcome(db: &mut Database, feed_id: i64, outcome: &Result<(), RefreshError>)
    ensures
        old(db)@.wf(),
        final(db)@.wf(),
        recorded(old(db)@, final(db)@, feed_id, error_text(*outcome)),
{
    match outcome {
        Ok(()) => {
            let _ = db.update_feed_fetched(feed_id, None, None);
        },
        Err(e) => {
            let message = e.message();
            let _ = db.update_feed_fetched(feed_id, Some(message.as_str()), None);
        },
    }
}

// ---------------------------------------------------------------------------
// The coordinator
// ---------------------------------------------------------------------------

/// What the caller of the coordinator does next.
#[derive(Debug)]
pub enum Step {
    /// Request this feed's source URL and report what came back.
    Fetch(Feed),
    /// Nothing: the cycle is complete, or there was none.
    Finished,
    /// Nothing: a cycle is under way, and the request joins it.
    Skipped,
}

/// A `Step` as a mathematical value.
pub enum StepView {
    Fetch(FeedView),
    Finished,
    Skipped,
}

impl View for Step {
    type V = StepView;

    open spec fn view(&self) -> StepView {
        match self {
            Step::Fetch(feed) => StepView::Fetch(feed@),
            Step::Finished => StepView::Finished,
            Step::Skipped => StepView::Skipped,
        }
    }
}

/// The coordinator as a mathematical value.
pub struct FetcherView {
    /// Whether a cycle is under way.
    pub refreshing: bool,
    /// The feeds of that cycle that are not done, the one being fetched
    /// first.
    pub pending: Seq<FeedView>,
}

impl FetcherView {
    /// The coordinator between cycles.
    pub open spec fn idle() -> FetcherView {
        FetcherView { refreshing: false, pending: Seq::empty() }
    }

    /// A cycle is under way exactly while feeds are pending.
    pub open spec fn wf(self) -> bool {
        self.refreshing <==> self.pending.len() > 0
    }

    /// What a request for a refresh leads to. While a cycle is under way
    /// the request is absorbed. Else a cycle starts over the feeds of the
    /// store, in their order; it is over at once where there are none, and
    /// it does not start where the store cannot list them.
    pub open spec fn request(self, store: StoreView) -> (FetcherView, Result<
        StepView,
        StorageError,
    >) {
        if self.refreshing {
            (self, Ok(StepView::Skipped))
        } else if !store.ready {
            (FetcherView::idle(), Err(StorageError::NotInitialized))
        } else if store.feeds.len() == 0 {
            (FetcherView::idle(), Ok(StepView::Finished))
        } else {
            (
                FetcherView { refreshing: true, pending: store.feeds },
                Ok(StepView::Fetch(store.feeds[0])),
            )
        }
    }

    /// What follows once the feed being fetched is done, however it ended:
    /// the next feed, or the end of the cycle.
    pub open spec fn advance(self) -> (FetcherView, StepView) {
        if !self.refreshing || self.pending.len() <= 1 {
            (FetcherView::idle(), StepView::Finished)
        } else {
            (
                FetcherView { refreshing: true, pending: self.pending.skip(1) },
                StepView::Fetch(self.pending[1]),
            )
        }
    }

    /// The coordinator after `n` feeds were done.
    pub open spec fn advance_by(self, n: nat) -> FetcherView
        decreases n,
    {
        if n == 0 {
            self
        } else {
            self.advance().0.advance_by((n - 1) as nat)
        }
    }
}

/// Takes the feeds through one refresh cycle at a time.
pub struct Fetcher {
    refreshing: bool,
    queue: Vec<Feed>,
    next: usize,
}

impl View for Fetcher {
    type V = FetcherView;

    closed spec fn view(&self) -> FetcherView {
        FetcherView {
            refreshing: self.refreshing,
            pending: if self.refreshing {
                feed_views(self.queue@).skip(self.next as int)
            } else {
                Seq::empty()
            },
        }
    }
}

impl Fetcher {
    #[verifier::type_invariant]
    spec fn inv(self) -> bool {
        &&& self.next <= self.queue@.len()
        &&& self.refreshing ==> self.next < self.queue@.len()
    }

    /// A coordinator between cycles.
    pub fn new() -> (fetcher: Fetcher)
        ensures
            fetcher@ == FetcherView::idle(),
            fetcher@.wf(),
    {
        Fetcher { refreshing: false, queue: Vec::new(), next: 0 }
    }

    /// Whether a cycle is under way.
    pub fn is_refreshing(&self) -> (r: bool)
        ensures
            r == self@.refreshing,
            self@.wf(),
    {
        proof {
            use_type_invariant(self);
        }
        self.refreshing
    }

    /// Asks for a refresh of all feeds. A request made while a cycle is
    /// under way starts nothing and changes nothing. Else a cycle starts
    /// over the feeds of the store, and the step names the first to fetch.
    pub fn refresh_all_feeds(&mut self, db: &Database) -> (r: Result<Step, StorageError>)
        ensures
            old(self)@.wf(),
            final(self)@.wf(),
            db@.wf(),
            (final(self)@, step_views(r)) == old(self)@.request(db@),
            old(self)@.refreshing ==> (r matches Ok(Step::Skipped)) && final(self)@ == old(self)@,
    {
        proof {
            use_type_invariant(&*self);
            use_type_invariant(&*db);
        }
        if self.refreshing {
            return Ok(Step::Skipped);
        }
        match db.get_all_feeds() {
            Err(e) => Err(e),
            Ok(feeds) => {
                if feeds.len() == 0 {
                    Ok(Step::Finished)
                } else {
                    let first = feeds[0].clone();
                    self.next = 0;
                    self.queue = feeds;
                    self.refreshing = true;
                    proof {
                        assert(feed_views(self.queue@).skip(0) =~= db@.feeds);
                    }
                    Ok(Step::Fetch(first))
                }
            },
        }
    }

    /// Takes what the fetch of the pending feed gave: the payload, or the
    /// text of the failure. The feed's items are brought up to date from
    /// the payload, and the outcome is recorded with the feed. However that
    /// ends, the cycle goes on: the step names the next feed, or says that
    /// the cycle is complete. Without a cycle under way nothing happens.
    pub fn feed_fetched(&mut self, db: &mut Database, fetched: Result<Vec<u8>, String>) -> (r: (
        Step,
        Result<(), RefreshError>,
    ))
        ensures
            old(self)@.wf(),
            final(self)@.wf(),
            old(db)@.wf(),
            final(db)@.wf(),
            (final(self)@, r.0@) == old(self)@.advance(),
            !old(self)@.refreshing ==> final(db)@ == old(db)@ && r.1 is Ok,
            old(self)@.refreshing ==> exists|mid: StoreView|
                {
                    &&& match fetched {
                        Ok(bytes) => refreshed(
                            old(db)@,
                            mid,
                            old(self)@.pending[0],
                            bytes@,
                            r.1,
                        ),
                        Err(message) => mid == old(db)@ && r.1 == Err::<(), RefreshError>(
                            RefreshError::Fetch(message),
                        ),
                    }
                    &&& recorded(mid, final(db)@, old(self)@.pending[0].id, error_text(r.1))
                },
    {
        proof {
            use_type_invariant(&*self);
            use_type_invariant(&*db);
        }
        if !self.refreshing {
            return (Step::Finished, Ok(()));
        }
        let ghost pending = self@.pending;
        let at = self.next;
        proof {
            assert(pending[0] == self.queue@[at as int]@);
        }
        let outcome = match fetched {
            Ok(bytes) => refresh_feed(db, &self.queue[at], bytes.as_slice()),
            Err(message) => Err(RefreshError::Fetch(message)),
        };
        let ghost mid = db@;
        record_outcome(db, self.queue[at].id, &outcome);
        let n = self.queue.len();
        let step = if at + 1 < n {
            self.next = at + 1;
            proof {
                assert(feed_views(self.queue@).skip(self.next as int) =~= pending.skip(1));
            }
            Step::Fetch(self.queue[self.next].clone())
        } else {
            self.refreshing = false;
            Step::Finished
        };
        (step, outcome)
    }

    /// Ends the cycle, if one is under way, wherever it stands.
    pub fn release(&mut self)
        ensures
            final(self)@ == FetcherView::idle(),
            final(self)@.wf(),
    {
        proof {
            use_type_invariant(&*self);
        }
        self.refreshing = false;
    }

    /// The mapping from article link to comments link of a raw payload:
    /// for each `<item>` that holds both a `<link>` and a `<comments>`
    /// element, the text of the one to the text of the other. A payload that
    /// is not well-formed UTF-8 gives the empty mapping.
    pub fn extract_comments_from_xml(xml_bytes: &[u8]) -> (r: StringHashMap<String>)
        ensures
            texts(r@) == payload_comments(xml_bytes@),
    {
        match decode(xml_bytes) {
            Some(text) => scan_comments(text.as_slice()),
            None => {
                let map: StringHashMap<String> = StringHashMap::new();
                proof {
                    assert(texts(map@) =~= Map::empty());
                }
                map
            },
        }
    }

    /// The text of the first element named `tag` in `xml`: what stands
    /// between its opening tag and the first closing tag after that,
    /// without the whitespace around it.
    pub fn extract_xml_element(xml: &str, tag: &str) -> (r: Option<String>)
        ensures
            opt_text(r) == element_text(xml@, tag@),
    {
        let text = to_chars(xml);
        let name = to_chars(tag);
        proof {
            assert(text@.subrange(0, text@.len() as int) =~= text@);
        }
        element_in(text.as_slice(), 0, text.len(), name.as_slice())
    }

    /// The discussion link of an entry of `feed`, given the comments link
    /// found for it in the raw payload and its article link.
    pub fn extract_discussion_link(
        feed: &Feed,
        entry: &Entry,
        comments_from_xml: Option<&String>,
        main_link: &str,
    ) -> (r: Option<String>)
        ensures
            opt_text(r) == resolve(
                feed.has_discussion,
                feed.url@,
                entry@,
                match comments_from_xml {
                    Some(url) => Some(url@),
                    None => None,
                },
                main_link@,
            ),
            !feed.has_discussion ==> r is None,
    {
        resolve_link(feed.has_discussion, feed.url.as_str(), entry, comments_from_xml, main_link)
    }
}

// ---------------------------------------------------------------------------
// The schedule
// ---------------------------------------------------------------------------

/// What the background task does next.
#[derive(Debug, Clone, Copy, PartialEq, Eq, Structural)]
pub enum Wake {
    /// Ask the coordinator for a refresh of all feeds.
    Refresh,
    /// Wait this many seconds.
    Sleep(u64),
}

/// The schedule of the background task: a refresh at once, and after that a
/// refresh each time the interval has passed, for ever. How a refresh ends
/// has no part in it.
#[derive(Debug, Clone, Copy, PartialEq, Eq, Structural)]
pub struct Schedule {
    /// The interval, in seconds.
    pub interval_secs: u64,
    /// Whether the next thing to do is a refresh.
    pub refresh_due: bool,
}

impl Schedule {
    /// What the background task does next: a refresh where one is due, and
    /// then a wait of one interval before the next is due.
    pub fn next(&mut self) -> (wake: Wake)
        ensures
            final(self).interval_secs == old(self).interval_secs,
            final(self).refresh_due == !old(self).refresh_due,
            wake == if old(self).refresh_due {
                Wake::Refresh
            } else {
                Wake::Sleep(old(self).interval_secs)
            },
    {
        if self.refresh_due {
            self.refresh_due = false;
            Wake::Refresh
        } else {
            self.refresh_due = true;
            Wake::Sleep(self.interval_secs)
        }
    }
}

/// The schedule of the background task for a refresh every
/// `interval_minutes` minutes. Its first step is a refresh.
pub fn start_background_refresh(interval_minutes: u64) -> (schedule: Schedule)
    requires
        interval_minutes * 60 <= u64::MAX,
    ensures
        schedule.interval_secs == interval_minutes * 60,
        schedule.refresh_due,
{
    Schedule { interval_secs: interval_minutes * 60, refresh_due: true }
}

/// The step of a request as a mathematical value.
pub open spec fn step_views(r: Result<Step, StorageError>) -> Result<StepView, StorageError> {
    match r {
        Ok(step) => Ok(step@),
        Err(e) => Err(e),
    }
}

} // verus!
