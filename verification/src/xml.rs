//! A scan of a raw RSS payload for the `<comments>` link of each item.
//!
//! The scan reads the payload as text and splits it at each `<item>`. It is
//! no XML parser: an element is what stands between the first opening tag
//! and the first closing tag after it.

use crate::db::opt_text;
use crate::text::{
    find_in,
    first_match,
    lemma_first_match_some,
    string_of,
    to_chars,
    trim,
    trim_bounds,
};
use vstd::hash_map::StringHashMap;
use vstd::prelude::*;

verus! {

/// The delimiter that opens an item block.
pub open spec fn item_open() -> Seq<char> {
    seq!['<', 'i', 't', 'e', 'm', '>']
}

/// The delimiter that closes an item.
pub open spec fn item_close() -> Seq<char> {
    seq!['<', '/', 'i', 't', 'e', 'm', '>']
}

/// The name of the element that holds an item's link.
pub open spec fn link_tag() -> Seq<char> {
    seq!['l', 'i', 'n', 'k']
}

/// The name of the element that holds an item's comments link.
pub open spec fn comments_tag() -> Seq<char> {
    seq!['c', 'o', 'm', 'm', 'e', 'n', 't', 's']
}

/// The opening tag of the element named `tag`.
pub open spec fn open_tag(tag: Seq<char>) -> Seq<char> {
    seq!['<'] + tag + seq!['>']
}

/// The closing tag of the element named `tag`.
pub open spec fn close_tag(tag: Seq<char>) -> Seq<char> {
    seq!['<', '/'] + tag + seq!['>']
}

/// The text of the first element named `tag` in `xml`: what stands between
/// the first opening tag and the first closing tag after it, without the
/// whitespace around it. There is none where either tag is missing.
pub open spec fn element_text(xml: Seq<char>, tag: Seq<char>) -> Option<Seq<char>> {
    match first_match(xml, open_tag(tag)) {
        None => None,
        Some(i) => {
            let start = i + open_tag(tag).len();
            match first_match(xml.skip(start), close_tag(tag)) {
                None => None,
                Some(j) => Some(trim(xml.subrange(start, start + j))),
            }
        },
    }
}

/// `text` up to the first `stop`, or all of it where there is none.
pub open spec fn up_to(text: Seq<char>, stop: Seq<char>) -> Seq<char> {
    match first_match(text, stop) {
        Some(j) => text.take(j),
        None => text,
    }
}

/// The item blocks of a payload, in order: a block is what follows an
/// `<item>`, up to the next `<item>` or the end.
pub open spec fn item_blocks(text: Seq<char>) -> Seq<Seq<char>>
    decreases text.len(),
    via item_blocks_decreases
{
    match first_match(text, item_open()) {
        None => Seq::empty(),
        Some(i) => {
            let rest = text.skip(i + item_open().len());
            seq![up_to(rest, item_open())] + item_blocks(rest)
        },
    }
}

#[via_fn]
proof fn item_blocks_decreases(text: Seq<char>) {
    if first_match(text, item_open()) is Some {
        lemma_first_match_some(text, item_open());
        assert(item_open().len() == 6);
    }
}

/// The link and the comments link of an item block, where it has both. The
/// item ends at the first `</item>`, or with the block where there is none.
pub open spec fn block_pair(block: Seq<char>) -> Option<(Seq<char>, Seq<char>)> {
    let item = up_to(block, item_close());
    match (element_text(item, link_tag()), element_text(item, comments_tag())) {
        (Some(link), Some(comments)) => Some((link, comments)),
        _ => None,
    }
}

/// The mapping from link to comments link that the blocks give, a later
/// block replacing an earlier one with the same link.
pub open spec fn comments_in(blocks: Seq<Seq<char>>) -> Map<Seq<char>, Seq<char>>
    decreases blocks.len(),
{
    if blocks.len() == 0 {
        Map::empty()
    } else {
        let before = comments_in(blocks.drop_last());
        match block_pair(blocks.last()) {
            Some((link, comments)) => before.insert(link, comments),
            None => before,
        }
    }
}

/// The mapping from link to comments link of a payload.
pub open spec fn comments_map(text: Seq<char>) -> Map<Seq<char>, Seq<char>> {
    comments_in(item_blocks(text))
}

/// A map of strings as a map of their characters.
pub open spec fn texts(m: Map<Seq<char>, String>) -> Map<Seq<char>, Seq<char>> {
    m.map_values(|s: String| s@)
}

/// The opening tag of the element named `tag`.
fn make_open_tag(tag: &[char]) -> (r: Vec<char>)
    ensures
        r@ == open_tag(tag@),
{
    let mut out: Vec<char> = Vec::new();
    out.push('<');
    let mut i: usize = 0;
    while i < tag.len()
        invariant
            i <= tag@.len(),
            out@ == seq!['<'] + tag@.take(i as int),
        decreases tag@.len() - i,
    {
        out.push(tag[i]);
        proof {
            assert(tag@.take(i + 1) =~= tag@.take(i as int).push(tag@[i as int]));
            assert(out@ =~= seq!['<'] + tag@.take(i + 1));
        }
        i += 1;
    }
    out.push('>');
    proof {
        assert(tag@.take(i as int) =~= tag@);
        assert(out@ =~= open_tag(tag@));
    }
    out
}

/// The closing tag of the element named `tag`.
fn make_close_tag(tag: &[char]) -> (r: Vec<char>)
    ensures
        r@ == close_tag(tag@),
{
    let mut out: Vec<char> = Vec::new();
    out.push('<');
    out.push('/');
    let mut i: usize = 0;
    while i < tag.len()
        invariant
            i <= tag@.len(),
            out@ == seq!['<', '/'] + tag@.take(i as int),
        decreases tag@.len() - i,
    {
        out.push(tag[i]);
        proof {
            assert(tag@.take(i + 1) =~= tag@.take(i as int).push(tag@[i as int]));
            assert(out@ =~= seq!['<', '/'] + tag@.take(i + 1));
        }
        i += 1;
    }
    out.push('>');
    proof {
        assert(tag@.take(i as int) =~= tag@);
        assert(out@ =~= close_tag(tag@));
    }
    out
}

/// The text of the first element named `tag` in `text[lo..hi]`.
pub fn element_in(text: &[char], lo: usize, hi: usize, tag: &[char]) -> (r: Option<String>)
    requires
        lo <= hi <= text@.len(),
    ensures
        opt_text(r) == element_text(text@.subrange(lo as int, hi as int), tag@),
{
    let open = make_open_tag(tag);
    let close = make_close_tag(tag);
    let ghost window = text@.subrange(lo as int, hi as int);
    match find_in(text, lo, hi, open.as_slice()) {
        None => None,
        Some(i) => {
            let start = i + open.len();
            proof {
                assert(window.skip(start - lo) =~= text@.subrange(start as int, hi as int));
            }
            match find_in(text, start, hi, close.as_slice()) {
                None => None,
                Some(j) => {
                    let (a, b) = trim_bounds(text, start, j);
                    proof {
                        assert(window.subrange(start - lo, start - lo + (j - start))
                            =~= text@.subrange(start as int, j as int));
                    }
                    Some(string_of(text, a, b))
                },
            }
        },
    }
}

/// Where `text[lo..hi]` stops at the first `stop`: the position of that
/// `stop`, or `hi` where there is none.
fn stop_at(text: &[char], lo: usize, hi: usize, stop: &[char]) -> (end: usize)
    requires
        lo <= hi <= text@.len(),
    ensures
        lo <= end <= hi,
        text@.subrange(lo as int, end as int) == up_to(text@.subrange(lo as int, hi as int), stop@),
{
    let ghost window = text@.subrange(lo as int, hi as int);
    match find_in(text, lo, hi, stop) {
        Some(j) => {
            proof {
                assert(window.take(j - lo) =~= text@.subrange(lo as int, j as int));
            }
            j
        },
        None => hi,
    }
}

/// The mapping from link to comments link of a payload, given as text.
pub fn scan_comments(text: &[char]) -> (r: StringHashMap<String>)
    ensures
        texts(r@) == comments_map(text@),
{
    let opening = to_chars("<item>");
    let closing = to_chars("</item>");
    let link = to_chars("link");
    let comments = to_chars("comments");
    proof {
        reveal_strlit("<item>");
        reveal_strlit("</item>");
        reveal_strlit("link");
        reveal_strlit("comments");
        assert(opening@ =~= item_open());
        assert(closing@ =~= item_close());
        assert(link@ =~= link_tag());
        assert(comments@ =~= comments_tag());
    }
    let n = text.len();
    let mut map: StringHashMap<String> = StringHashMap::new();
    let mut pos: usize = 0;
    let ghost mut done: Seq<Seq<char>> = Seq::empty();
    proof {
        assert(text@.skip(0) =~= text@);
        assert(texts(map@) =~= comments_in(done));
        assert(done + item_blocks(text@) =~= item_blocks(text@));
    }
    loop
        invariant
            pos <= n,
            n == text@.len(),
            opening@ == item_open(),
            closing@ == item_close(),
            link@ == link_tag(),
            comments@ == comments_tag(),
            item_blocks(text@) == done + item_blocks(text@.skip(pos as int)),
            texts(map@) == comments_in(done),
        decreases n - pos,
    {
        let ghost cur = text@.skip(pos as int);
        proof {
            assert(cur =~= text@.subrange(pos as int, n as int));
        }
        match find_in(text, pos, n, opening.as_slice()) {
            None => {
                proof {
                    assert(item_blocks(cur) =~= Seq::empty());
                    assert(done + item_blocks(cur) =~= done);
                }
                return map;
            },
            Some(i) => {
                let start = i + opening.len();
                let ghost rest = text@.skip(start as int);
                proof {
                    assert(item_open().len() == 6);
                    assert(cur.skip(i - pos + item_open().len()) =~= rest);
                    assert(rest =~= text@.subrange(start as int, n as int));
                }
                let block_end = stop_at(text, start, n, opening.as_slice());
                let ghost block = text@.subrange(start as int, block_end as int);
                let item_end = stop_at(text, start, block_end, closing.as_slice());
                let found_link = element_in(text, start, item_end, link.as_slice());
                let found_comments = element_in(text, start, item_end, comments.as_slice());
                let ghost before = map@;
                match (found_link, found_comments) {
                    (Some(l), Some(c)) => {
                        proof {
                            assert(block_pair(block) == Some((l@, c@)));
                        }
                        let ghost lv = l@;
                        let ghost cv = c@;
                        map.insert(l, c);
                        proof {
                            assert(texts(map@) =~= texts(before).insert(lv, cv));
                        }
                    },
                    _ => {
                        proof {
                            assert(block_pair(block) is None);
                        }
                    },
                }
                proof {
                    let grown = done.push(block);
                    assert(grown.drop_last() =~= done);
                    assert(grown.last() == block);
                    assert(item_blocks(cur) == seq![block] + item_blocks(rest));
                    assert(done + (seq![block] + item_blocks(rest)) =~= grown + item_blocks(
                        rest,
                    ));
                    done = grown;
                }
                pos = start;
            },
        }
    }
}

} // verus!
