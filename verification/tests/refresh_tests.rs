use moar_news::config::FeedConfig;
use moar_news::db::{Database, Feed};
use moar_news::discussion::{
    find_discussion_link, identify, is_discussion_relation, resolve_link, Identity,
};
use moar_news::entry::{Entry, Link};
use moar_news::payload::{
    is_safe_to_parse, MAX_CONTENT_ELEMENTS, MAX_DIGITS, MAX_TEXT_ATTRIBUTES,
};
use moar_news::fetcher::{
    record_outcome, refresh_feed, start_background_refresh, store_entries, Fetcher, RefreshError,
    Schedule, Step, Wake, FETCH_TIMEOUT_SECS, NOT_PARSED, UNTITLED, USER_AGENT,
};
use moar_news::store::StorageError;
use moar_news::timestamp::Timestamp;
use moar_news::xml::{element_in, scan_comments};

fn store(feeds: &[(&str, &str, bool)]) -> Database {
    let mut db = Database::new();
    db.initialize();
    let configs: Vec<FeedConfig> = feeds
        .iter()
        .map(|(name, url, has_discussion)| FeedConfig {
            name: name.to_string(),
            url: url.to_string(),
            has_discussion: *has_discussion,
        })
        .collect();
    db.sync_feeds(&configs).unwrap();
    db
}

fn feed(db: &Database, index: usize) -> Feed {
    db.get_all_feeds().unwrap()[index].clone()
}

fn link(href: &str, rel: Option<&str>) -> Link {
    Link {
        href: href.to_string(),
        rel: rel.map(|r| r.to_string()),
    }
}

fn entry(id: &str, title: Option<&str>, links: Vec<Link>) -> Entry {
    Entry {
        id: id.to_string(),
        title: title.map(|t| t.to_string()),
        links,
        published: None,
        updated: None,
    }
}

fn chars(s: &str) -> Vec<char> {
    s.chars().collect()
}

const RSS: &str = r#"<?xml version="1.0" encoding="UTF-8"?>
<rss version="2.0">
  <channel>
    <title>Tech News</title>
    <link>https://technews.example.com</link>
    <description>Latest tech news</description>
    <item>
      <title>Breaking: New Technology Announced</title>
      <link>https://technews.example.com/article/1</link>
      <guid>https://technews.example.com/article/1</guid>
      <comments>https://technews.example.com/article/1/comments</comments>
      <pubDate>Mon, 09 Dec 2024 12:00:00 GMT</pubDate>
    </item>
    <item>
      <link>https://technews.example.com/article/2</link>
      <guid>second</guid>
      <pubDate>Mon, 09 Dec 2024 13:30:00 GMT</pubDate>
    </item>
    <item>
      <title>No link, not stored</title>
      <guid>third</guid>
    </item>
  </channel>
</rss>
"#;

// The scan

#[test]
fn scan_reads_items_in_order_and_the_last_of_a_link_wins() {
    let text = chars(
        "<item><link>a</link><comments>1</comments></item>\
         <item><link>b</link><comments>2</comments></item>\
         <item><link>a</link><comments>3</comments></item>",
    );
    let map = scan_comments(&text);
    assert_eq!(map.len(), 2);
    assert_eq!(map.get("a"), Some(&"3".to_string()));
    assert_eq!(map.get("b"), Some(&"2".to_string()));
}

#[test]
fn scan_takes_a_block_without_its_end_up_to_the_next_item() {
    let text = chars(
        "<item><link>a</link><item><comments>1</comments><link>b</link></item>tail\
         <item><link> c </link>\n<comments>\t2\n</comments>",
    );
    let map = scan_comments(&text);
    assert_eq!(map.len(), 2);
    assert_eq!(map.get("b"), Some(&"1".to_string()));
    assert_eq!(map.get("c"), Some(&"2".to_string()));
    assert!(!map.contains_key("a"));
}

#[test]
fn scan_ignores_what_follows_the_end_of_an_item() {
    let text = chars("<item><link>a</link></item><comments>1</comments>");
    let map = scan_comments(&text);
    assert!(map.is_empty());
    let text = chars("<link>a</link><comments>1</comments><item></item>");
    assert!(scan_comments(&text).is_empty());
}

#[test]
fn scan_keeps_characters_beyond_ascii() {
    let payload = "<item><link>https://x/\u{e9}</link><comments>\u{a0}https://c/\u{1F600} </comments>";
    let map = Fetcher::extract_comments_from_xml(payload.as_bytes());
    assert_eq!(map.len(), 1);
    assert_eq!(
        map.get("https://x/\u{e9}"),
        Some(&"https://c/\u{1F600}".to_string())
    );
}

#[test]
fn element_in_reads_within_its_bounds() {
    let text = chars("<a>1</a><a>2</a>");
    assert_eq!(element_in(&text, 0, text.len(), &chars("a")), Some("1".to_string()));
    assert_eq!(element_in(&text, 1, text.len(), &chars("a")), Some("2".to_string()));
    assert_eq!(element_in(&text, 8, 15, &chars("a")), None);
    assert_eq!(element_in(&text, 0, 4, &chars("a")), None);
}

#[test]
fn an_element_ends_at_the_first_closing_tag_after_its_opening_tag() {
    assert_eq!(
        Fetcher::extract_xml_element("</t>x<t>a<t>b</t>c</t>", "t"),
        Some("a<t>b".to_string())
    );
    assert_eq!(Fetcher::extract_xml_element("<t attr=\"1\">a</t>", "t"), None);
    assert_eq!(Fetcher::extract_xml_element("<>a</>", ""), Some("a".to_string()));
}

// The resolver

#[test]
fn identity_of_a_discussion_site() {
    let hn = "https://news.ycombinator.com/rss";
    let thread = "https://news.ycombinator.com/item?id=1";
    assert_eq!(identify(hn, thread, "https://x"), Identity::Thread);
    assert_eq!(identify(hn, thread, thread), Identity::SelfDiscussion);
    assert_eq!(
        identify(hn, thread, "https://news.ycombinator.com/item?id=2"),
        Identity::Thread
    );
    assert_eq!(identify("https://blog/rss", thread, "https://x"), Identity::NoMatch);
    assert_eq!(identify("https://blog/rss", thread, thread), Identity::NoMatch);
    assert_eq!(identify(hn, "guid-1", "https://x"), Identity::NoMatch);
    assert_eq!(identify(hn, "https://lobste.rs/s/abc", "https://x"), Identity::NoMatch);
    let lobsters = "https://lobste.rs/rss";
    assert_eq!(
        identify(lobsters, "https://lobste.rs/s/abc", "https://x"),
        Identity::Thread
    );
    assert_eq!(
        identify(lobsters, "https://lobste.rs/s/abc", "https://lobste.rs/s/abc"),
        Identity::SelfDiscussion
    );
    assert_eq!(identify(lobsters, thread, "https://x"), Identity::NoMatch);
}

#[test]
fn a_relation_marks_a_discussion_only_in_lower_case() {
    assert!(is_discussion_relation(&"replies".to_string()));
    assert!(is_discussion_relation(&"comments".to_string()));
    assert!(!is_discussion_relation(&"Replies".to_string()));
    assert!(!is_discussion_relation(&"comment".to_string()));
    assert!(!is_discussion_relation(&"".to_string()));
    assert!(!is_discussion_relation(&"alternate".to_string()));
}

#[test]
fn the_first_link_with_a_discussion_relation_is_taken() {
    let links = vec![
        link("https://a", None),
        link("https://b", Some("alternate")),
        link("https://c", Some("RePlIeS")),
        link("https://d", Some("comments")),
    ];
    assert_eq!(find_discussion_link(&links), Some("https://c".to_string()));
    assert_eq!(find_discussion_link(&vec![]), None);
    assert_eq!(find_discussion_link(&vec![link("https://a", Some(""))]), None);
}

#[test]
fn a_link_without_a_relation_marks_no_discussion() {
    let links = vec![link("https://a", None), link("https://b", None)];
    assert_eq!(find_discussion_link(&links), None);
    let links = vec![link("https://a", None), link("https://b", Some("comments"))];
    assert_eq!(find_discussion_link(&links), Some("https://b".to_string()));
}

#[test]
fn a_feed_without_discussions_never_has_a_discussion_link() {
    let e = entry(
        "https://news.ycombinator.com/item?id=42345678",
        None,
        vec![link("https://external.com/a", Some("replies"))],
    );
    let comments = "https://c".to_string();
    assert_eq!(
        resolve_link(false, "https://news.ycombinator.com/rss", &e, Some(&comments), "https://external.com/a"),
        None
    );
    assert_eq!(
        resolve_link(false, "https://lobste.rs/rss", &e, None, "https://external.com/a"),
        None
    );
}

#[test]
fn hn_identifier_is_the_discussion_of_an_article_elsewhere() {
    let e = entry(
        "https://news.ycombinator.com/item?id=42345678",
        None,
        vec![link("https://external.com/a", None)],
    );
    assert_eq!(
        resolve_link(true, "https://news.ycombinator.com/rss", &e, None, "https://external.com/a"),
        Some("https://news.ycombinator.com/item?id=42345678".to_string())
    );
}

#[test]
fn hn_article_that_is_its_own_discussion_has_no_discussion_link() {
    let e = entry(
        "https://news.ycombinator.com/item?id=42345678",
        None,
        vec![link("https://news.ycombinator.com/item?id=42345678", None)],
    );
    let comments = "https://c".to_string();
    assert_eq!(
        resolve_link(
            true,
            "https://news.ycombinator.com/rss",
            &e,
            Some(&comments),
            "https://news.ycombinator.com/item?id=42345678"
        ),
        None
    );
}

#[test]
fn lobsters_article_that_is_its_own_discussion_has_no_discussion_link() {
    let e = entry(
        "https://lobste.rs/s/abc123",
        None,
        vec![link("https://lobste.rs/s/abc123", Some("replies"))],
    );
    let comments = "https://c".to_string();
    assert_eq!(
        resolve_link(true, "https://lobste.rs/rss", &e, Some(&comments), "https://lobste.rs/s/abc123"),
        None
    );
    assert_eq!(
        resolve_link(true, "https://lobste.rs/rss", &e, None, "https://lobste.rs/s/abc123/title"),
        Some("https://lobste.rs/s/abc123".to_string())
    );
}

#[test]
fn identity_outranks_the_comments_link_and_the_relations() {
    let e = entry(
        "https://lobste.rs/s/abc123",
        None,
        vec![link("https://x", None), link("https://r", Some("replies"))],
    );
    let comments = "https://c".to_string();
    assert_eq!(
        resolve_link(true, "https://lobste.rs/rss", &e, Some(&comments), "https://x"),
        Some("https://lobste.rs/s/abc123".to_string())
    );
}

#[test]
fn a_site_feed_whose_identifier_is_no_thread_falls_through() {
    let e = entry(
        "guid-1",
        None,
        vec![link("https://x", None), link("https://r", Some("replies"))],
    );
    let comments = "https://c".to_string();
    assert_eq!(
        resolve_link(true, "https://news.ycombinator.com/rss", &e, Some(&comments), "https://x"),
        Some("https://c".to_string())
    );
    assert_eq!(
        resolve_link(true, "https://news.ycombinator.com/rss", &e, None, "https://x"),
        Some("https://r".to_string())
    );
    assert_eq!(
        resolve_link(
            true,
            "https://news.ycombinator.com/rss",
            &e,
            Some(&comments),
            "https://news.ycombinator.com/item?id=7"
        ),
        Some("https://c".to_string())
    );
}

#[test]
fn an_article_in_another_thread_of_the_site_has_its_own_thread_as_discussion() {
    let e = entry("https://news.ycombinator.com/item?id=1", None, vec![]);
    assert_eq!(
        resolve_link(
            true,
            "https://news.ycombinator.com/rss",
            &e,
            None,
            "https://news.ycombinator.com/item?id=9"
        ),
        Some("https://news.ycombinator.com/item?id=1".to_string())
    );
}

// One feed

#[test]
fn store_entries_writes_each_entry_with_a_link() {
    let mut db = store(&[("Blog", "https://blog.example.com/feed", true)]);
    let f = feed(&db, 0);
    let mut first = entry(
        "g1",
        Some("First"),
        vec![link("https://a/1", None), link("https://a/1/c", Some("Comments"))],
    );
    first.published = Some(Timestamp { secs: 1431648000, nanos: 0 });
    first.updated = Some(Timestamp { secs: 1431648001, nanos: 0 });
    let mut second = entry("g2", None, vec![link("https://a/2", None)]);
    second.updated = Some(Timestamp { secs: 1431648002, nanos: 0 });
    let third = entry("g3", Some("No link"), vec![]);
    let fourth = entry("g4", Some("Empty link"), vec![link("", None), link("https://a/4", None)]);
    let comments = Fetcher::extract_comments_from_xml(
        b"<item><link>https://a/2</link><comments>https://c/2</comments></item>",
    );
    assert_eq!(
        store_entries(&mut db, &f, &vec![first, second, third, fourth], &comments),
        Ok(())
    );
    let items = db.get_items_for_feed(f.id, 10, 0).unwrap();
    assert_eq!(items.len(), 2);
    assert_eq!(items[0].guid, "g2");
    assert_eq!(items[0].title, "Untitled");
    assert_eq!(items[0].title, UNTITLED);
    assert_eq!(items[0].link, "https://a/2");
    assert_eq!(items[0].discussion_link, Some("https://c/2".to_string()));
    assert_eq!(items[0].published, Some("2015-05-15T00:00:02+00:00".to_string()));
    assert_eq!(items[1].guid, "g1");
    assert_eq!(items[1].title, "First");
    assert_eq!(items[1].link, "https://a/1");
    assert_eq!(items[1].discussion_link, Some("https://a/1/c".to_string()));
    assert_eq!(items[1].published, Some("2015-05-15T00:00:00+00:00".to_string()));
}

#[test]
fn store_entries_stops_at_the_first_refusal() {
    let mut db = store(&[("Blog", "https://blog.example.com/feed", true)]);
    let mut f = feed(&db, 0);
    f.id = 77;
    let entries = vec![entry("g1", None, vec![link("https://a/1", None)])];
    let comments = Fetcher::extract_comments_from_xml(b"");
    assert_eq!(
        store_entries(&mut db, &f, &entries, &comments),
        Err(StorageError::UnknownFeed)
    );
    assert_eq!(store_entries(&mut db, &f, &vec![], &comments), Ok(()));
    let mut empty = Database::new();
    assert_eq!(
        store_entries(&mut empty, &f, &entries, &comments),
        Err(StorageError::NotInitialized)
    );
}

#[test]
fn refresh_feed_reads_an_atom_payload_with_relations() {
    let atom = r#"<?xml version="1.0" encoding="utf-8"?>
<feed xmlns="http://www.w3.org/2005/Atom">
  <title>Example</title>
  <id>urn:feed</id>
  <updated>2024-12-09T12:00:00Z</updated>
  <entry>
    <title>Post</title>
    <id>urn:post:1</id>
    <updated>2024-12-09T12:00:00.250Z</updated>
    <link href="https://blog.example.com/post/1"/>
    <link rel="Replies" href="https://blog.example.com/post/1/replies"/>
  </entry>
</feed>
"#;
    let mut db = store(&[("Blog", "https://blog.example.com/feed", true)]);
    let f = feed(&db, 0);
    assert!(matches!(refresh_feed(&mut db, &f, atom.as_bytes()), Ok(())));
    let items = db.get_items_for_feed(f.id, 10, 0).unwrap();
    assert_eq!(items.len(), 1);
    assert_eq!(items[0].guid, "urn:post:1");
    assert_eq!(items[0].title, "Post");
    assert_eq!(items[0].link, "https://blog.example.com/post/1");
    assert_eq!(
        items[0].discussion_link,
        Some("https://blog.example.com/post/1/replies".to_string())
    );
    assert_eq!(
        items[0].published,
        Some("2024-12-09T12:00:00.250+00:00".to_string())
    );
}

#[test]
fn refresh_feed_gives_the_parsers_message_for_what_is_no_feed() {
    let mut db = store(&[("Blog", "https://blog.example.com/feed", true)]);
    let f = feed(&db, 0);
    for payload in [&b"this is no feed"[..], &b""[..], &b"<html></html>"[..]] {
        match refresh_feed(&mut db, &f, payload) {
            Err(RefreshError::Parse(message)) => {
                assert_eq!(message, "unable to parse feed: no root element")
            }
            _ => panic!("the payload is no feed"),
        }
    }
    assert_eq!(db.get_item_count_for_feed(f.id).unwrap(), 0);
}

#[test]
fn refresh_feed_stores_the_items_of_a_payload() {
    let mut db = store(&[("Tech", "https://technews.example.com/rss", true)]);
    let f = feed(&db, 0);
    assert!(matches!(refresh_feed(&mut db, &f, RSS.as_bytes()), Ok(())));
    assert_eq!(db.get_item_count_for_feed(f.id).unwrap(), 2);
    let items = db.get_items_for_feed(f.id, 10, 0).unwrap();
    assert_eq!(items[0].guid, "second");
    assert_eq!(items[0].title, "Untitled");
    assert_eq!(items[0].link, "https://technews.example.com/article/2");
    assert_eq!(items[0].discussion_link, None);
    assert_eq!(items[0].published, Some("2024-12-09T13:30:00+00:00".to_string()));
    assert_eq!(items[1].guid, "https://technews.example.com/article/1");
    assert_eq!(items[1].title, "Breaking: New Technology Announced");
    assert_eq!(
        items[1].discussion_link,
        Some("https://technews.example.com/article/1/comments".to_string())
    );
    assert_eq!(items[1].published, Some("2024-12-09T12:00:00+00:00".to_string()));

    // A second refresh from the same payload changes nothing.
    assert!(matches!(refresh_feed(&mut db, &f, RSS.as_bytes()), Ok(())));
    let again = db.get_items_for_feed(f.id, 10, 0).unwrap();
    assert_eq!(again.len(), 2);
    assert_eq!(again[0].id, items[0].id);
    assert_eq!(again[1].id, items[1].id);
}

#[test]
fn refresh_feed_of_a_feed_without_discussions_stores_no_discussion_links() {
    let mut db = store(&[("Tech", "https://technews.example.com/rss", false)]);
    let f = feed(&db, 0);
    assert!(matches!(refresh_feed(&mut db, &f, RSS.as_bytes()), Ok(())));
    let items = db.get_items_for_feed(f.id, 10, 0).unwrap();
    assert!(items.iter().all(|i| i.discussion_link.is_none()));
}

#[test]
fn refresh_feed_leaves_the_store_alone_where_the_payload_is_no_feed() {
    let mut db = store(&[("Tech", "https://technews.example.com/rss", true)]);
    let f = feed(&db, 0);
    db.upsert_row(f.id, "g", "t", "l", None, None).unwrap();
    let r = refresh_feed(&mut db, &f, b"this is no feed");
    assert!(matches!(r, Err(RefreshError::Parse(_))));
    assert_eq!(db.get_item_count_for_feed(f.id).unwrap(), 1);
}

#[test]
fn refresh_feed_reports_the_refusal_of_the_store() {
    let mut db = store(&[("Tech", "https://technews.example.com/rss", true)]);
    let mut f = feed(&db, 0);
    f.id = 99;
    let r = refresh_feed(&mut db, &f, RSS.as_bytes());
    assert!(matches!(r, Err(RefreshError::Storage(StorageError::UnknownFeed))));
}

#[test]
fn refresh_errors_have_words() {
    assert_eq!(RefreshError::Fetch("timed out".to_string()).message(), "timed out");
    assert_eq!(RefreshError::Parse("no root".to_string()).message(), "no root");
    assert_eq!(
        RefreshError::Storage(StorageError::UnknownFeed).message(),
        "storage error: no such feed"
    );
}

#[test]
fn record_outcome_records_success_and_failure() {
    let mut db = store(&[("a", "https://a", false)]);
    let f = feed(&db, 0);
    record_outcome(&mut db, f.id, &Err(RefreshError::Fetch("timed out".to_string())));
    let row = db.get_feed(f.id).unwrap().unwrap();
    assert!(row.last_fetched.is_some());
    assert_eq!(row.last_error, Some("timed out".to_string()));
    record_outcome(&mut db, f.id, &Ok(()));
    let row = db.get_feed(f.id).unwrap().unwrap();
    assert!(row.last_fetched.is_some());
    assert_eq!(row.last_error, None);
    assert_eq!(row.homepage_url, None);
    let mut empty = Database::new();
    record_outcome(&mut empty, 1, &Ok(()));
    assert!(empty.get_all_feeds().is_err());
}

// Payloads that are not handed to the parser

fn podcast(duration: &str) -> String {
    format!(
        r#"<?xml version="1.0" encoding="UTF-8"?>
<rss version="2.0" xmlns:itunes="http://www.itunes.com/dtds/podcast-1.0.dtd">
  <channel>
    <title>Cast</title>
    <item>
      <title>Episode</title>
      <link>https://cast.example.com/1</link>
      <guid>ep-1</guid>
      <itunes:duration>{}</itunes:duration>
    </item>
  </channel>
</rss>
"#,
        duration
    )
}

fn with_thumbnail(attribute: &str) -> String {
    format!(
        r#"<?xml version="1.0" encoding="UTF-8"?>
<rss version="2.0" xmlns:media="http://search.yahoo.com/mrss/">
  <channel>
    <title>Clips</title>
    <item>
      <title>Clip</title>
      <link>https://clips.example.com/1</link>
      <guid>clip-1</guid>
      <media:thumbnail url="https://clips.example.com/1.png" {}/>
    </item>
  </channel>
</rss>
"#,
        attribute
    )
}

#[test]
fn a_plain_play_time_is_safe_to_parse() {
    assert_eq!(MAX_DIGITS, 15);
    assert!(is_safe_to_parse(podcast("ten minutes").as_bytes()));
    assert!(is_safe_to_parse(podcast("00:00:00.000000000000000, or so").as_bytes()));
    assert!(is_safe_to_parse(podcast("123456789012345 123456789012345").as_bytes()));
    assert!(is_safe_to_parse(with_thumbnail(r#"time=5"#).as_bytes()));
    assert!(is_safe_to_parse(with_thumbnail(r#"time="five""#).as_bytes()));
    assert!(is_safe_to_parse(with_thumbnail(r#"time="2024-01-01T10:00:00Z""#).as_bytes()));
    assert!(is_safe_to_parse(b"<media:text a='1'end \n = '2x'>"));
    assert!(is_safe_to_parse(b"<pre> start = time.time()\n end = start + 99999999999999999999\n</pre>"));
    assert!(is_safe_to_parse(b" start = &quot;99999999999999999999&quot;"));
    assert!(is_safe_to_parse(b"<a time=>"));
    assert!(is_safe_to_parse(b"<a time="));
    assert!(is_safe_to_parse(podcast("10:00").as_bytes()));
    assert!(is_safe_to_parse(podcast("1:02:03.5").as_bytes()));
    assert!(is_safe_to_parse(podcast("3600").as_bytes()));
    assert!(is_safe_to_parse(podcast("").as_bytes()));
    assert!(is_safe_to_parse(podcast("\n  1:02:03.5 \n").as_bytes()));
    assert!(is_safe_to_parse(podcast("123456789012345").as_bytes()));
    assert!(is_safe_to_parse(b"<duration/>"));
    assert!(is_safe_to_parse(b"<itunes:duration/>"));
    assert!(is_safe_to_parse(b"<d:duration>7</d:duration>"));
    assert!(is_safe_to_parse(b"<duration>7</duration>"));
    assert!(is_safe_to_parse(with_thumbnail(r#"time="12:05:01.123""#).as_bytes()));
    assert!(is_safe_to_parse(with_thumbnail(r#"time = '5'"#).as_bytes()));
    assert!(is_safe_to_parse(with_thumbnail(r#"time="""#).as_bytes()));
    assert!(is_safe_to_parse(b"<media:text start='1' end=\"2.5\">"));
    assert!(is_safe_to_parse(b"<ol start=\"3\">"));
}

#[test]
fn a_play_time_that_is_long_or_not_plain_is_not_safe_to_parse() {
    assert!(!is_safe_to_parse(podcast("1234567890123456").as_bytes()));
    assert!(!is_safe_to_parse(podcast("123456789012345678901234567890").as_bytes()));
    assert!(!is_safe_to_parse(podcast("\u{661}\u{662}").as_bytes()));
    assert!(!is_safe_to_parse(podcast("\u{ff11}").as_bytes()));
    assert!(!is_safe_to_parse(podcast("10&#58;00").as_bytes()));
    assert!(!is_safe_to_parse(podcast("<![CDATA[10:00]]>").as_bytes()));
    assert!(!is_safe_to_parse(podcast("10:00<!-- -->99999999999999999999").as_bytes()));
    assert!(!is_safe_to_parse(podcast("10:00<b/>").as_bytes()));
    assert!(!is_safe_to_parse(podcast("ten minutes, 1234567890123456 seconds").as_bytes()));
    assert!(!is_safe_to_parse(podcast("caf\u{e9}").as_bytes()));
    assert!(!is_safe_to_parse(podcast("a > b").as_bytes()));
    assert!(!is_safe_to_parse(podcast("\"10\"").as_bytes()));
    assert!(!is_safe_to_parse(b"<a:duration>"));
    assert!(!is_safe_to_parse(b"<a:duration>12"));
    assert!(!is_safe_to_parse(b"<a:duration>12<"));
    assert!(!is_safe_to_parse(b"<duration\tx='1'>5</duration>"));
    assert!(!is_safe_to_parse(b"<duration />"));
    assert!(!is_safe_to_parse(b"<duration/ >"));
    assert!(!is_safe_to_parse(b"<a:duration>5</a:duration\n>"));
    assert!(!is_safe_to_parse(b"<a\"<a:duration>5</a:duration >"));
    assert!(!is_safe_to_parse(b"<x y=\"z\"</a:duration>"));
    assert!(!is_safe_to_parse(b"<x y='z'</a:duration>"));
    assert!(!is_safe_to_parse(b"text</a:duration>"));
    assert!(!is_safe_to_parse(with_thumbnail(r#"time="99999999999999999999999""#).as_bytes()));
    assert!(!is_safe_to_parse(with_thumbnail("time=\"\u{661}\"").as_bytes()));
    assert!(!is_safe_to_parse(with_thumbnail(r#"time="5'"#).as_bytes()));
    assert!(!is_safe_to_parse(with_thumbnail(r#"time="a&#49;b""#).as_bytes()));
    assert!(!is_safe_to_parse(with_thumbnail(r#"time="it's""#).as_bytes()));
    assert!(!is_safe_to_parse(b"<media:text a='1'end \n = '2\xff'>"));
    assert!(!is_safe_to_parse(b" start = \"99999999999999999999\""));
    assert!(!is_safe_to_parse(b"<t\rstart\t=\"1234567890123456\">"));
    assert!(!is_safe_to_parse(b"<t a=\"b\"time='1"));
}

#[test]
fn payloads_with_a_nul_or_an_escape_byte_are_not_safe_to_parse() {
    assert!(!is_safe_to_parse(b"<rss>\0</rss>"));
    assert!(!is_safe_to_parse(b"<rss>\x1b</rss>"));
    assert!(!is_safe_to_parse(&[0xFF, 0xFE, b'<', 0x00, b'a', 0x00, b'>', 0x00]));
}

#[test]
fn payloads_with_many_text_attributes_in_the_podcast_namespace_are_not_safe_to_parse() {
    let namespace = r#"<rss xmlns:itunes="http://www.itunes.com/dtds/podcast-1.0.dtd">"#;
    let one = r#"<itunes:category text="x">"#;
    assert_eq!(MAX_TEXT_ATTRIBUTES, 32);
    assert!(is_safe_to_parse(format!("{}{}", namespace, one.repeat(32)).as_bytes()));
    assert!(!is_safe_to_parse(format!("{}{}", namespace, one.repeat(33)).as_bytes()));
    assert!(!is_safe_to_parse(format!("{}{}", one.repeat(33), namespace).as_bytes()));
    assert!(is_safe_to_parse(one.repeat(33).as_bytes()));
    assert!(is_safe_to_parse(
        format!("{}{}", namespace, "<category>text = x</category> ".repeat(40)).as_bytes()
    ));
}

#[test]
fn payloads_with_many_content_elements_in_the_media_namespace_are_not_safe_to_parse() {
    let namespace = r#"<rss xmlns:media="http://search.yahoo.com/mrss/">"#;
    assert_eq!(MAX_CONTENT_ELEMENTS, 128);
    assert!(is_safe_to_parse(format!("{}{}", namespace, "<media:content>".repeat(128)).as_bytes()));
    assert!(!is_safe_to_parse(format!("{}{}", namespace, "<media:content>".repeat(129)).as_bytes()));
    assert!(!is_safe_to_parse(format!("{}{}", namespace, "<content url='x'/>".repeat(129)).as_bytes()));
    assert!(!is_safe_to_parse(
        format!("{}{}", namespace, "<media:content>x</media:content>".repeat(65)).as_bytes()
    ));
    assert!(is_safe_to_parse(
        format!("{}{}", namespace, "<media:content>x</media:content>".repeat(64)).as_bytes()
    ));
    // Without the namespace the parser does not go into them.
    assert!(is_safe_to_parse("<content type=\"html\">x</content>".repeat(1000).as_bytes()));
    assert!(is_safe_to_parse("<media:content>".repeat(5000).as_bytes()));
    // The closing tag of an element without prefix names no element.
    assert!(is_safe_to_parse(
        format!("{}{}", namespace, "<content>x</content>".repeat(128)).as_bytes()
    ));
}

#[test]
fn ordinary_payloads_are_safe_to_parse() {
    assert!(is_safe_to_parse(RSS.as_bytes()));
    assert!(is_safe_to_parse(b""));
    assert!(is_safe_to_parse(b"{\"version\": \"https://jsonfeed.org/version/1\"}"));
    assert!(is_safe_to_parse("h\u{e9}llo \u{1F600}".as_bytes()));
    // The words alone, or within longer names, name nothing.
    assert!(is_safe_to_parse(b"the duration of the end of time, at the start"));
    assert!(is_safe_to_parse(b"<p>duration: 5</p><td>duration</td>"));
    assert!(is_safe_to_parse(b"<media:content duration=\"185\"/>"));
    assert!(is_safe_to_parse(b"<time datetime=\"2024-01-01\">"));
    assert!(is_safe_to_parse(b"<a href=\"https://x/?start=3&amp;end=4&amp;time=5\">"));
    assert!(is_safe_to_parse(b"<x runtime=\"1\" weekend='2' restart=\"3\">"));
    assert!(is_safe_to_parse(b"time=1"));
    assert!(is_safe_to_parse(b" time 1"));
    assert!(is_safe_to_parse(b" end"));
    assert!(is_safe_to_parse(b"duration"));
    assert!(is_safe_to_parse(b"duration>"));
    assert!(is_safe_to_parse(b"</duration>"));
    assert!(is_safe_to_parse(b"<xduration>"));
    assert!(is_safe_to_parse(b"<durations>"));
    assert!(is_safe_to_parse(b"<duration"));
}

#[test]
fn refresh_feed_stores_the_items_of_a_podcast() {
    let mut db = store(&[("Cast", "https://cast.example.com/rss", true)]);
    let f = feed(&db, 0);
    let durations = [
        "10:00",
        "1:02:03",
        "3600",
        "12:05:35.123",
        "",
        "999999999999999",
        "999999999:99:99",
        "9999:99:99.9999",
        "9.9999999999999",
        "99999999999999.",
        ".99999999999999",
        "::..::..",
        " \t\r\n ",
        "1 2 3 4 5 6 7 8",
        "ten minutes",
        "999999999999999 999999999999999:99:99.999999999999999",
        "about 999999999999999.999999999999999 seconds",
    ];
    for duration in durations {
        let payload = podcast(duration);
        assert!(matches!(refresh_feed(&mut db, &f, payload.as_bytes()), Ok(())));
    }
    let items = db.get_items_for_feed(f.id, 10, 0).unwrap();
    assert_eq!(items.len(), 1);
    assert_eq!(items[0].guid, "ep-1");
    assert_eq!(items[0].title, "Episode");
    assert_eq!(items[0].link, "https://cast.example.com/1");
}

#[test]
fn refresh_feed_stores_the_items_of_a_payload_with_media_times() {
    let mut db = store(&[("Clips", "https://clips.example.com/rss", false)]);
    let f = feed(&db, 0);
    let times = [
        "12:05:01.123",
        "999999999999999",
        "999999999:99:99",
        "999999999999999:99:99.999999999999999",
        "0.9",
        "",
        ":",
        "soon",
    ];
    for time in times {
        let payload = with_thumbnail(&format!(r#"width="10" height="20" time="{}""#, time));
        assert!(matches!(refresh_feed(&mut db, &f, payload.as_bytes()), Ok(())));
        let payload = format!(
            r#"<rss version="2.0" xmlns:media="http://search.yahoo.com/mrss/"><channel><item>
<link>https://clips.example.com/1</link><guid>clip-1</guid>
<media:text start='{}' end = "{}">words</media:text></item></channel></rss>"#,
            time, time
        );
        assert!(matches!(refresh_feed(&mut db, &f, payload.as_bytes()), Ok(())));
    }
    let payload = with_thumbnail(r#"width="10" height="20""#);
    assert!(matches!(refresh_feed(&mut db, &f, payload.as_bytes()), Ok(())));
    let items = db.get_items_for_feed(f.id, 10, 0).unwrap();
    assert_eq!(items.len(), 1);
    assert_eq!(items[0].guid, "clip-1");
    assert_eq!(items[0].link, "https://clips.example.com/1");
}

#[test]
fn refresh_feed_does_not_hand_an_unsafe_play_time_to_the_parser() {
    let mut db = store(&[("Cast", "https://cast.example.com/rss", true)]);
    let f = feed(&db, 0);
    db.upsert_row(f.id, "g", "t", "l", None, None).unwrap();
    let payloads = [
        podcast("123456789012345678901234567890"),
        podcast("\u{661}"),
        podcast("99999999999999999999:00:00"),
        with_thumbnail(r#"time="123456789012345678901234567890""#),
        with_thumbnail("time=\"\u{ff11}\""),
    ];
    for payload in payloads.iter() {
        match refresh_feed(&mut db, &f, payload.as_bytes()) {
            Err(RefreshError::Parse(message)) => assert_eq!(message, NOT_PARSED),
            _ => panic!("the payload holds an unsafe play time"),
        }
    }
    assert_eq!(db.get_item_count_for_feed(f.id).unwrap(), 1);
    assert_eq!(NOT_PARSED, "unable to parse feed: the payload is not safe to parse");
}

#[test]
fn refresh_feed_reads_media_content_within_media_content() {
    let nested = |depth: usize| {
        format!(
            r#"<?xml version="1.0" encoding="UTF-8"?>
<rss version="2.0" xmlns:media="http://search.yahoo.com/mrss/">
  <channel>
    <title>Clips</title>
    <item>
      <title>Clip</title>
      <link>https://clips.example.com/1</link>
      <guid>clip-1</guid>
      {}{}
    </item>
  </channel>
</rss>
"#,
            "<media:content url=\"https://clips.example.com/1.mp4\">".repeat(depth),
            "</media:content>".repeat(depth)
        )
    };
    let mut db = store(&[("Clips", "https://clips.example.com/rss", false)]);
    let f = feed(&db, 0);
    assert!(matches!(refresh_feed(&mut db, &f, nested(64).as_bytes()), Ok(())));
    assert_eq!(db.get_item_count_for_feed(f.id).unwrap(), 1);
    // As deep as the test lets the parser go: it returns, with its own message.
    let open = format!(
        r#"<rss version="2.0" xmlns:media="http://search.yahoo.com/mrss/"><channel><item>{}"#,
        "<media:content>".repeat(128)
    );
    match refresh_feed(&mut db, &f, open.as_bytes()) {
        Err(RefreshError::Parse(message)) => assert_ne!(message, NOT_PARSED),
        _ => panic!("the payload ends within its elements"),
    }
    match refresh_feed(&mut db, &f, nested(5000).as_bytes()) {
        Err(RefreshError::Parse(message)) => assert_eq!(message, NOT_PARSED),
        _ => panic!("the payload goes too deep"),
    }
}

#[test]
fn a_cycle_records_a_payload_that_is_not_parsed_and_goes_on() {
    let mut db = store(&[("a", "https://a", false), ("b", "https://b", false)]);
    let mut fetcher = Fetcher::new();
    fetcher.refresh_all_feeds(&db).unwrap();
    let (step, outcome) =
        fetcher.feed_fetched(&mut db, Ok(podcast("99999999999999999999999").into_bytes()));
    assert!(matches!(outcome, Err(RefreshError::Parse(_))));
    assert_eq!(fetch_of(&step), Some("https://b".to_string()));
    let (step, outcome) = fetcher.feed_fetched(&mut db, Ok(RSS.as_bytes().to_vec()));
    assert!(outcome.is_ok());
    assert!(matches!(step, Step::Finished));
    let feeds = db.get_all_feeds().unwrap();
    assert_eq!(feeds[0].last_error, Some(NOT_PARSED.to_string()));
    assert_eq!(feeds[1].last_error, None);
    assert_eq!(db.get_item_count_for_feed(feeds[1].id).unwrap(), 2);
}

// The coordinator

fn fetch_of(step: &Step) -> Option<String> {
    match step {
        Step::Fetch(feed) => Some(feed.url.clone()),
        _ => None,
    }
}

#[test]
fn a_new_coordinator_is_idle() {
    let fetcher = Fetcher::new();
    assert!(!fetcher.is_refreshing());
}

#[test]
fn a_cycle_takes_each_feed_once_in_order() {
    let mut db = store(&[
        ("a", "https://a", false),
        ("b", "https://b", false),
        ("c", "https://c", false),
    ]);
    let mut fetcher = Fetcher::new();
    let step = fetcher.refresh_all_feeds(&db).unwrap();
    assert_eq!(fetch_of(&step), Some("https://a".to_string()));
    assert!(fetcher.is_refreshing());

    let (step, outcome) = fetcher.feed_fetched(&mut db, Ok(RSS.as_bytes().to_vec()));
    assert!(outcome.is_ok());
    assert_eq!(fetch_of(&step), Some("https://b".to_string()));
    assert!(fetcher.is_refreshing());

    let (step, outcome) = fetcher.feed_fetched(&mut db, Err("timed out".to_string()));
    assert!(matches!(outcome, Err(RefreshError::Fetch(_))));
    assert_eq!(fetch_of(&step), Some("https://c".to_string()));
    assert!(fetcher.is_refreshing());

    let (step, outcome) = fetcher.feed_fetched(&mut db, Ok(b"no feed".to_vec()));
    assert!(matches!(outcome, Err(RefreshError::Parse(_))));
    assert!(matches!(step, Step::Finished));
    assert!(!fetcher.is_refreshing());

    let feeds = db.get_all_feeds().unwrap();
    assert!(feeds.iter().all(|f| f.last_fetched.is_some()));
    assert_eq!(feeds[0].last_error, None);
    assert_eq!(feeds[1].last_error, Some("timed out".to_string()));
    assert!(feeds[2].last_error.as_ref().unwrap().starts_with("unable to parse feed"));
    assert_eq!(db.get_item_count_for_feed(feeds[0].id).unwrap(), 2);
    assert_eq!(db.get_item_count_for_feed(feeds[1].id).unwrap(), 0);
    assert_eq!(db.get_item_count_for_feed(feeds[2].id).unwrap(), 0);
}

#[test]
fn a_request_during_a_cycle_is_absorbed() {
    let mut db = store(&[("a", "https://a", false), ("b", "https://b", false)]);
    let mut fetcher = Fetcher::new();
    let step = fetcher.refresh_all_feeds(&db).unwrap();
    assert_eq!(fetch_of(&step), Some("https://a".to_string()));

    let again = fetcher.refresh_all_feeds(&db).unwrap();
    assert!(matches!(again, Step::Skipped));
    assert!(fetcher.is_refreshing());

    // The cycle goes on where it stood.
    let (step, _) = fetcher.feed_fetched(&mut db, Err("x".to_string()));
    assert_eq!(fetch_of(&step), Some("https://b".to_string()));
    let again = fetcher.refresh_all_feeds(&db).unwrap();
    assert!(matches!(again, Step::Skipped));
    let (step, _) = fetcher.feed_fetched(&mut db, Err("x".to_string()));
    assert!(matches!(step, Step::Finished));

    // Once it is over, a request starts the next.
    let step = fetcher.refresh_all_feeds(&db).unwrap();
    assert_eq!(fetch_of(&step), Some("https://a".to_string()));
}

#[test]
fn a_cycle_over_no_feeds_is_over_at_once() {
    let db = store(&[]);
    let mut fetcher = Fetcher::new();
    let step = fetcher.refresh_all_feeds(&db).unwrap();
    assert!(matches!(step, Step::Finished));
    assert!(!fetcher.is_refreshing());
}

#[test]
fn a_cycle_does_not_start_on_a_store_without_tables() {
    let db = Database::new();
    let mut fetcher = Fetcher::new();
    assert_eq!(
        fetcher.refresh_all_feeds(&db).err(),
        Some(StorageError::NotInitialized)
    );
    assert!(!fetcher.is_refreshing());
}

#[test]
fn a_report_without_a_cycle_changes_nothing() {
    let mut db = store(&[("a", "https://a", false)]);
    let mut fetcher = Fetcher::new();
    let (step, outcome) = fetcher.feed_fetched(&mut db, Ok(RSS.as_bytes().to_vec()));
    assert!(matches!(step, Step::Finished));
    assert!(outcome.is_ok());
    assert!(!fetcher.is_refreshing());
    let feeds = db.get_all_feeds().unwrap();
    assert_eq!(feeds[0].last_fetched, None);
    assert_eq!(db.get_item_count_for_feed(feeds[0].id).unwrap(), 0);
}

#[test]
fn release_ends_a_cycle_wherever_it_stands() {
    let mut db = store(&[("a", "https://a", false), ("b", "https://b", false)]);
    let mut fetcher = Fetcher::new();
    fetcher.refresh_all_feeds(&db).unwrap();
    fetcher.release();
    assert!(!fetcher.is_refreshing());
    let (step, _) = fetcher.feed_fetched(&mut db, Err("x".to_string()));
    assert!(matches!(step, Step::Finished));
    let step = fetcher.refresh_all_feeds(&db).unwrap();
    assert_eq!(fetch_of(&step), Some("https://a".to_string()));
    fetcher.release();
    fetcher.release();
    assert!(!fetcher.is_refreshing());
}

#[test]
fn a_cycle_works_on_the_feeds_it_started_with() {
    let mut db = store(&[("a", "https://a", false)]);
    let mut fetcher = Fetcher::new();
    fetcher.refresh_all_feeds(&db).unwrap();
    let more = vec![FeedConfig {
        name: "b".to_string(),
        url: "https://b".to_string(),
        has_discussion: false,
    }];
    db.sync_feeds(&more).unwrap();
    let (step, _) = fetcher.feed_fetched(&mut db, Err("x".to_string()));
    assert!(matches!(step, Step::Finished));
}

// The schedule

#[test]
fn the_schedule_starts_with_a_refresh_and_then_alternates() {
    let mut schedule = start_background_refresh(15);
    assert_eq!(schedule.interval_secs, 900);
    assert!(schedule.refresh_due);
    assert_eq!(schedule.next(), Wake::Refresh);
    assert_eq!(schedule.next(), Wake::Sleep(900));
    assert_eq!(schedule.next(), Wake::Refresh);
    assert_eq!(schedule.next(), Wake::Sleep(900));
    assert_eq!(schedule.next(), Wake::Refresh);
    assert_eq!(schedule, Schedule { interval_secs: 900, refresh_due: false });
}

#[test]
fn the_interval_is_sixty_seconds_a_minute() {
    assert_eq!(start_background_refresh(0).interval_secs, 0);
    assert_eq!(start_background_refresh(1).interval_secs, 60);
    assert_eq!(
        start_background_refresh(u64::MAX / 60).interval_secs,
        (u64::MAX / 60) * 60
    );
}

#[test]
fn requests_carry_a_name_and_a_time_limit() {
    assert_eq!(USER_AGENT, "MoarNews/1.0 (RSS Aggregator)");
    assert_eq!(FETCH_TIMEOUT_SECS, 30);
}
