//! Which link, if any, leads to the discussion of an entry.
//!
//! The rules are tried in a fixed order and the first that applies decides:
//! the feed's flag, the identity of a known discussion site, the comments
//! link found in the raw payload, the relation of the entry's links.

use crate::db::opt_text;
use crate::entry::{link_views, Entry, EntryView, Link, LinkView};
use crate::text::{contains, lowercase, lowercase_text, occurs_in, text_eq};
use vstd::prelude::*;

verus! {

/// Part of the source URL of a Hacker News feed.
pub const HN_HOST: &'static str = "news.ycombinator.com";

/// Part of the URL of a Hacker News thread.
pub const HN_THREAD: &'static str = "news.ycombinator.com/item?id=";

/// Part of the source URL of a Lobsters feed.
pub const LOBSTERS_HOST: &'static str = "lobste.rs";

/// Part of the URL of a Lobsters thread.
pub const LOBSTERS_THREAD: &'static str = "lobste.rs/s/";

/// The relation of a link to the replies to an entry.
pub const REL_REPLIES: &'static str = "replies";

/// The relation of a link to the comments on an entry.
pub const REL_COMMENTS: &'static str = "comments";

/// What the known discussion sites decide for an entry.
#[derive(Debug, Clone, Copy, PartialEq, Eq, Structural)]
pub enum Identity {
    /// The entry is of no known site's feed, or its identifier is no thread
    /// of that site.
    NoMatch,
    /// The identifier is the thread, and the article is that same page.
    SelfDiscussion,
    /// The identifier is the thread of an article that lies elsewhere.
    Thread,
}

/// The feed is that of the site whose source URLs hold `host`, and the
/// entry's identifier is one of its threads, whose URLs hold `thread`.
pub open spec fn is_thread_of(
    feed_url: Seq<char>,
    entry_id: Seq<char>,
    host: Seq<char>,
    thread: Seq<char>,
) -> bool {
    occurs_in(host, feed_url) && occurs_in(thread, entry_id)
}

/// The entry's identifier is a thread of the known discussion site that the
/// feed belongs to.
pub open spec fn is_known_thread(feed_url: Seq<char>, entry_id: Seq<char>) -> bool {
    is_thread_of(feed_url, entry_id, HN_HOST@, HN_THREAD@) || is_thread_of(
        feed_url,
        entry_id,
        LOBSTERS_HOST@,
        LOBSTERS_THREAD@,
    )
}

/// What the known discussion sites decide for an entry.
pub open spec fn identity(feed_url: Seq<char>, entry_id: Seq<char>, main_link: Seq<char>) -> Identity {
    if !is_known_thread(feed_url, entry_id) {
        Identity::NoMatch
    } else if main_link == entry_id {
        Identity::SelfDiscussion
    } else {
        Identity::Thread
    }
}

/// A relation, in lower case, that marks a link to a discussion.
pub open spec fn is_discussion_rel(lowered: Seq<char>) -> bool {
    lowered == REL_REPLIES@ || lowered == REL_COMMENTS@
}

/// The link has a relation, and it is `replies` or `comments`, whatever its
/// case. A link without a relation marks no discussion.
pub open spec fn marks_discussion(link: LinkView) -> bool {
    match link.rel {
        Some(rel) => is_discussion_rel(lowercase_text(rel)),
        None => false,
    }
}

/// The target of the first link whose relation marks a discussion.
pub open spec fn first_discussion_link(links: Seq<LinkView>) -> Option<Seq<char>>
    decreases links.len(),
{
    if links.len() == 0 {
        None
    } else if marks_discussion(links[0]) {
        Some(links[0].href)
    } else {
        first_discussion_link(links.skip(1))
    }
}

/// The discussion link of an entry.
///
/// 1. A feed without discussions has none.
/// 2. For an entry of a known discussion site whose identifier is a thread
///    of that site, the identifier is the link, unless the article's own
///    link is that very thread: then there is none.
/// 3. Else the comments link found in the raw payload, where there is one.
/// 4. Else the first link whose relation is `replies` or `comments`.
pub open spec fn resolve(
    has_discussion: bool,
    feed_url: Seq<char>,
    entry: EntryView,
    comments: Option<Seq<char>>,
    main_link: Seq<char>,
) -> Option<Seq<char>> {
    if !has_discussion {
        None
    } else {
        match identity(feed_url, entry.id, main_link) {
            Identity::SelfDiscussion => None,
            Identity::Thread => Some(entry.id),
            Identity::NoMatch => match comments {
                Some(url) => Some(url),
                None => first_discussion_link(entry.links),
            },
        }
    }
}

/// What the known discussion sites decide for an entry.
pub fn identify(feed_url: &str, entry_id: &str, main_link: &str) -> (r: Identity)
    ensures
        r == identity(feed_url@, entry_id@, main_link@),
{
    let known = (contains(feed_url, HN_HOST) && contains(entry_id, HN_THREAD)) || (contains(
        feed_url,
        LOBSTERS_HOST,
    ) && contains(entry_id, LOBSTERS_THREAD));
    if !known {
        Identity::NoMatch
    } else if text_eq(main_link, entry_id) {
        Identity::SelfDiscussion
    } else {
        Identity::Thread
    }
}

/// Whether a relation, already in lower case, marks a link to a discussion.
pub fn is_discussion_relation(lowered: &String) -> (r: bool)
    ensures
        r == is_discussion_rel(lowered@),
{
    let replies = REL_REPLIES.to_owned();
    let comments = REL_COMMENTS.to_owned();
    *lowered == replies || *lowered == comments
}

/// The target of the first link whose relation marks a discussion.
pub fn find_discussion_link(links: &Vec<Link>) -> (r: Option<String>)
    ensures
        opt_text(r) == first_discussion_link(link_views(links@)),
{
    let ghost all = link_views(links@);
    let mut i: usize = 0;
    proof {
        assert(all.skip(0) =~= all);
    }
    while i < links.len()
        invariant
            i <= links@.len(),
            all == link_views(links@),
            first_discussion_link(all) == first_discussion_link(all.skip(i as int)),
        decreases links@.len() - i,
    {
        let ghost rest = all.skip(i as int);
        proof {
            assert(rest[0] == links@[i as int]@);
            assert(rest.skip(1) =~= all.skip(i + 1));
        }
        let marked = match &links[i].rel {
            Some(rel) => is_discussion_relation(&lowercase(rel.as_str())),
            None => false,
        };
        if marked {
            return Some(links[i].href.clone());
        }
        i += 1;
    }
    None
}

/// The discussion link of an entry of a feed with the given flag and source
/// URL, given the comments link found for it in the raw payload.
pub fn resolve_link(
    has_discussion: bool,
    feed_url: &str,
    entry: &Entry,
    comments: Option<&String>,
    main_link: &str,
) -> (r: Option<String>)
    ensures
        opt_text(r) == resolve(
            has_discussion,
            feed_url@,
            entry@,
            match comments {
                Some(url) => Some(url@),
                None => None,
            },
            main_link@,
        ),
        !has_discussion ==> r is None,
{
    if !has_discussion {
        return None;
    }
    match identify(feed_url, entry.id.as_str(), main_link) {
        Identity::SelfDiscussion => None,
        Identity::Thread => Some(entry.id.clone()),
        Identity::NoMatch => match comments {
            Some(url) => Some(url.clone()),
            None => find_discussion_link(&entry.links),
        },
    }
}

} // verus!
