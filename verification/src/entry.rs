//! Parsed feed entries, as far as the refresh reads them.

use crate::db::opt_text;
use crate::payload::safe_to_parse;
use crate::timestamp::Timestamp;
use vstd::prelude::*;

verus! {

/// An outbound link of an entry.
#[derive(Debug)]
pub struct Link {
    pub href: String,
    /// The relation of the link to the entry, where the feed names one.
    pub rel: Option<String>,
}

/// One entry of a parsed feed.
#[derive(Debug)]
pub struct Entry {
    pub id: String,
    pub title: Option<String>,
    pub links: Vec<Link>,
    pub published: Option<Timestamp>,
    pub updated: Option<Timestamp>,
}

/// What a `Link` says, as plain mathematical values.
pub struct LinkView {
    pub href: Seq<char>,
    pub rel: Option<Seq<char>>,
}

/// What an `Entry` says, as plain mathematical values.
pub struct EntryView {
    pub id: Seq<char>,
    pub title: Option<Seq<char>>,
    pub links: Seq<LinkView>,
    pub published: Option<Timestamp>,
    pub updated: Option<Timestamp>,
}

impl View for Link {
    type V = LinkView;

    open spec fn view(&self) -> LinkView {
        LinkView { href: self.href@, rel: opt_text(self.rel) }
    }
}

/// The views of a sequence of links.
pub open spec fn link_views(links: Seq<Link>) -> Seq<LinkView> {
    links.map_values(|l: Link| l@)
}

impl View for Entry {
    type V = EntryView;

    open spec fn view(&self) -> EntryView {
        EntryView {
            id: self.id@,
            title: opt_text(self.title),
            links: link_views(self.links@),
            published: self.published,
            updated: self.updated,
        }
    }
}

/// The views of a sequence of entries.
pub open spec fn entry_views(entries: Seq<Entry>) -> Seq<EntryView> {
    entries.map_values(|e: Entry| e@)
}

/// `feed_rs::parser::parse`: the entries of an Atom, RSS or JSON feed, in
/// the order of the payload, or the parser's message where it cannot read
/// the payload. Of each entry only the identifier, the title's text, the
/// links with their relation, and the two timestamps are kept. Nothing is
/// claimed of what the parser finds; what is claimed is that it returns.
///
/// The parser panics in one place: where it reads a play time whose digits
/// do not fit its numbers. It reads play times in the text of an element
/// named `duration`, whatever its prefix, and in the value of an attribute
/// named `time`, `start` or `end`. It calls itself in two places: for an
/// element with an attribute named `text` within another, in the podcast
/// namespace, and for an element named `content` within another, in the
/// media namespace. An element is in a namespace only where the bytes of
/// that namespace's name stand in the payload.
///
/// It takes a tag as the bytes from `<` to the first `>` outside quotes,
/// and a tag that begins with `</` as a closing tag. It takes the name of
/// an element as the bytes of the tag up to whitespace or to the tag's end,
/// where the `/` of an empty element's tag is left off, less the prefix up
/// to the last `:`. It takes the name of an attribute as the bytes from
/// whitespace or a closing quote to whitespace or `=`, and its value as the
/// bytes between the quote after the `=` and the next such quote. Each name
/// is decoded by itself. In every encoding that the parser reads, an
/// ASCII letter comes from its own byte alone, but in UTF-16, where it
/// comes with a NUL, and in ISO-2022-JP, where an escape byte changes what
/// the bytes after it mean.
///
/// The parser drops an attribute whose value is not in quotes, and it reads
/// as the text of an element what stands up to the next tag, which closes
/// the element where it begins with `</`.
///
/// So in a payload that is safe to parse every play time that the parser
/// reads is ASCII text without `&` in which at most 15 digits stand in a
/// row, which fits its numbers, and it goes no deeper into itself than the
/// bounds allow.
#[verifier::external_body]
pub(crate) fn parse_feed(bytes: &[u8]) -> (r: Result<Vec<Entry>, String>)
    requires
        safe_to_parse(bytes@),
{
    match feed_rs::parser::parse(bytes) {
        Ok(feed) => Ok(feed.entries.into_iter().map(|e| Entry {
            id: e.id,
            title: e.title.map(|t| t.content),
            links: e.links.into_iter().map(|l| Link { href: l.href, rel: l.rel }).collect(),
            published: e.published.map(|d| Timestamp { secs: d.timestamp(), nanos: d.timestamp_subsec_nanos() }),
            updated: e.updated.map(|d| Timestamp { secs: d.timestamp(), nanos: d.timestamp_subsec_nanos() }),
        }).collect()),
        Err(e) => Err(e.to_string()),
    }
}

} // verus!
