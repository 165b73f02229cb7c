//! Which payloads are handed to the feed parser.
//!
//! The parser panics on a play time whose digits do not fit its numbers,
//! and it calls itself for elements that stand within one another. The test
//! here reads the raw bytes and admits a payload only where every play time
//! that the parser could read is plain text with short runs of digits, and
//! where the elements for which it calls itself are few.

use vstd::prelude::*;

verus! {

/// How many digits may stand in a row in a play time.
pub const MAX_DIGITS: usize = 15;

/// At how many places an attribute may be named `text` in a payload that
/// names the podcast namespace.
pub const MAX_TEXT_ATTRIBUTES: usize = 32;

/// At how many places an element may be named `content` in a payload that
/// names the media namespace.
pub const MAX_CONTENT_ELEMENTS: usize = 128;

// ---------------------------------------------------------------------------
// Words
// ---------------------------------------------------------------------------

/// The bytes of the word `duration`.
pub open spec fn duration_word() -> Seq<u8> {
    seq![0x64u8, 0x75u8, 0x72u8, 0x61u8, 0x74u8, 0x69u8, 0x6Fu8, 0x6Eu8]
}

/// The bytes of the word `time`.
pub open spec fn time_word() -> Seq<u8> {
    seq![0x74u8, 0x69u8, 0x6Du8, 0x65u8]
}

/// The bytes of the word `start`.
pub open spec fn start_word() -> Seq<u8> {
    seq![0x73u8, 0x74u8, 0x61u8, 0x72u8, 0x74u8]
}

/// The bytes of the word `end`.
pub open spec fn end_word() -> Seq<u8> {
    seq![0x65u8, 0x6Eu8, 0x64u8]
}

/// The bytes of the word `text`.
pub open spec fn text_word() -> Seq<u8> {
    seq![0x74u8, 0x65u8, 0x78u8, 0x74u8]
}

/// The bytes of the word `content`.
pub open spec fn content_word() -> Seq<u8> {
    seq![0x63u8, 0x6Fu8, 0x6Eu8, 0x74u8, 0x65u8, 0x6Eu8, 0x74u8]
}

/// The bytes of the name of the podcast namespace,
/// `http://www.itunes.com/dtds/podcast-1.0.dtd`.
pub open spec fn podcast_namespace() -> Seq<u8> {
    seq![
        0x68u8, 0x74u8, 0x74u8, 0x70u8, 0x3Au8, 0x2Fu8, 0x2Fu8, 0x77u8, 0x77u8, 0x77u8, 0x2Eu8,
        0x69u8, 0x74u8, 0x75u8, 0x6Eu8, 0x65u8, 0x73u8, 0x2Eu8, 0x63u8, 0x6Fu8, 0x6Du8, 0x2Fu8,
        0x64u8, 0x74u8, 0x64u8, 0x73u8, 0x2Fu8, 0x70u8, 0x6Fu8, 0x64u8, 0x63u8, 0x61u8, 0x73u8,
        0x74u8, 0x2Du8, 0x31u8, 0x2Eu8, 0x30u8, 0x2Eu8, 0x64u8, 0x74u8, 0x64u8,
    ]
}

/// The bytes of the name of the media namespace,
/// `http://search.yahoo.com/mrss/`.
pub open spec fn media_namespace() -> Seq<u8> {
    seq![
        0x68u8, 0x74u8, 0x74u8, 0x70u8, 0x3Au8, 0x2Fu8, 0x2Fu8, 0x73u8, 0x65u8, 0x61u8, 0x72u8,
        0x63u8, 0x68u8, 0x2Eu8, 0x79u8, 0x61u8, 0x68u8, 0x6Fu8, 0x6Fu8, 0x2Eu8, 0x63u8, 0x6Fu8,
        0x6Du8, 0x2Fu8, 0x6Du8, 0x72u8, 0x73u8, 0x73u8, 0x2Fu8,
    ]
}

// ---------------------------------------------------------------------------
// Bytes
// ---------------------------------------------------------------------------

/// A space, a tab, a line feed or a carriage return.
pub open spec fn is_xml_space(b: u8) -> bool {
    b == 0x20 || b == 0x09 || b == 0x0A || b == 0x0D
}

/// A double or a single quote.
pub open spec fn is_quote(b: u8) -> bool {
    b == 0x22 || b == 0x27
}

/// A byte that ends the name of an element in a tag: whitespace, `>` or `/`.
pub open spec fn ends_name(b: u8) -> bool {
    is_xml_space(b) || b == 0x3E || b == 0x2F
}

/// A byte after which the name of an element, without its prefix, begins:
/// `<` or `:`.
pub open spec fn opens_name(b: u8) -> bool {
    b == 0x3C || b == 0x3A
}

/// A byte after which the name of an attribute can begin: whitespace, or the
/// quote that closes the value before it.
pub open spec fn precedes_key(b: u8) -> bool {
    is_xml_space(b) || is_quote(b)
}

/// The kinds of bytes that the test passes over.
#[derive(Debug, Clone, Copy, PartialEq, Eq, Structural)]
pub enum Class {
    /// Whitespace.
    Space,
    /// What plain text is made of: any ASCII byte but `&`, `<`, `>` and
    /// quotes.
    Plain,
    /// What the test takes for the prefix of a name: any byte but
    /// whitespace, quotes, `<`, `>` and `/`.
    Prefix,
}

/// The byte is of the class.
pub open spec fn in_class(class: Class, b: u8) -> bool {
    match class {
        Class::Space => is_xml_space(b),
        Class::Plain => b < 0x80 && b != 0x26 && b != 0x3C && b != 0x3E && !is_quote(b),
        Class::Prefix => !is_xml_space(b) && !is_quote(b) && b != 0x3C && b != 0x3E && b != 0x2F,
    }
}

/// The first place at or after `from` whose byte is not of the class, or the
/// end of the bytes.
pub open spec fn skip_fwd(bytes: Seq<u8>, from: int, class: Class) -> int
    decreases bytes.len() - from,
{
    if 0 <= from < bytes.len() && in_class(class, bytes[from]) {
        skip_fwd(bytes, from + 1, class)
    } else {
        from
    }
}

/// The first place of the run of bytes of the class that ends before `to`.
pub open spec fn skip_back(bytes: Seq<u8>, to: int, class: Class) -> int
    decreases to,
{
    if 0 < to <= bytes.len() && in_class(class, bytes[to - 1]) {
        skip_back(bytes, to - 1, class)
    } else {
        to
    }
}

/// `word` stands in `bytes` at `p`.
pub open spec fn word_at(bytes: Seq<u8>, p: int, word: Seq<u8>) -> bool {
    &&& 0 <= p
    &&& p + word.len() <= bytes.len()
    &&& bytes.subrange(p, p + word.len()) == word
}

/// `word` stands somewhere in `bytes`.
pub open spec fn holds_word(bytes: Seq<u8>, word: Seq<u8>) -> bool {
    exists|p: int| word_at(bytes, p, word)
}

// ---------------------------------------------------------------------------
// Names and play times
// ---------------------------------------------------------------------------

/// At `p` an element can be named `word`, with or without a prefix: the
/// word stands there, after `<` or `:`, and the byte after it ends a name.
pub open spec fn may_name_element(bytes: Seq<u8>, p: int, word: Seq<u8>) -> bool {
    &&& word_at(bytes, p, word)
    &&& p > 0
    &&& opens_name(bytes[p - 1])
    &&& p + word.len() < bytes.len()
    &&& ends_name(bytes[p + word.len()])
}

/// At `p` an attribute can be named `word`: the word stands there, after
/// whitespace or a quote, and whitespace at most parts it from a `=`.
pub open spec fn may_name_attribute(bytes: Seq<u8>, p: int, word: Seq<u8>) -> bool {
    &&& word_at(bytes, p, word)
    &&& p > 0
    &&& precedes_key(bytes[p - 1])
    &&& skip_fwd(bytes, p + word.len(), Class::Space) < bytes.len()
    &&& bytes[skip_fwd(bytes, p + word.len(), Class::Space)] == 0x3D
}

/// An ASCII digit.
pub open spec fn is_digit(b: u8) -> bool {
    0x30 <= b <= 0x39
}

/// How many digits stand in a row right before `i`.
pub open spec fn digits_before(bytes: Seq<u8>, i: int) -> nat
    decreases i,
{
    if 0 < i <= bytes.len() && is_digit(bytes[i - 1]) {
        1 + digits_before(bytes, i - 1)
    } else {
        0
    }
}

/// From `from` up to `to` no more than 15 digits stand in a row.
pub open spec fn short_runs(bytes: Seq<u8>, from: int, to: int) -> bool {
    forall|i: int| from < i <= to ==> #[trigger] digits_before(bytes, i) <= MAX_DIGITS
}

/// Plain text with short runs of digits stands from `from` up to `to`, and
/// the byte at `to` is not plain.
pub open spec fn plain_until(bytes: Seq<u8>, from: int, to: int) -> bool {
    &&& to == skip_fwd(bytes, from, Class::Plain)
    &&& short_runs(bytes, from, to)
}

/// Where the value of the attribute begins whose name ends before `after`:
/// the first byte after the `=` that is no whitespace.
pub open spec fn value_start(bytes: Seq<u8>, after: int) -> int {
    skip_fwd(bytes, skip_fwd(bytes, after, Class::Space) + 1, Class::Space)
}

/// The attribute whose name ends before `after` has a value in quotes. The
/// parser drops an attribute without one.
pub open spec fn has_quoted_value(bytes: Seq<u8>, after: int) -> bool {
    &&& 0 <= value_start(bytes, after) < bytes.len()
    &&& is_quote(bytes[value_start(bytes, after)])
}

/// The value in quotes of the attribute whose name ends before `after` is
/// plain text with short runs of digits, up to the same quote.
pub open spec fn has_plain_value(bytes: Seq<u8>, after: int) -> bool {
    let open = value_start(bytes, after);
    let close = skip_fwd(bytes, open + 1, Class::Plain);
    &&& has_quoted_value(bytes, after)
    &&& plain_until(bytes, open + 1, close)
    &&& close < bytes.len()
    &&& bytes[close] == bytes[open]
}

/// The tag that ends the name at `after` is that of an empty element: `/>`
/// stands there.
pub open spec fn is_empty_tag(bytes: Seq<u8>, after: int) -> bool {
    &&& 0 <= after
    &&& after + 1 < bytes.len()
    &&& bytes[after] == 0x2F
    &&& bytes[after + 1] == 0x3E
}

/// The tag that ends the name at `after` opens an element whose content is
/// plain text with short runs of digits: `>` stands there, then the text,
/// then `</`.
pub open spec fn opens_plain_time(bytes: Seq<u8>, after: int) -> bool {
    let close = skip_fwd(bytes, after + 1, Class::Plain);
    &&& 0 <= after < bytes.len()
    &&& bytes[after] == 0x3E
    &&& plain_until(bytes, after + 1, close)
    &&& close + 1 < bytes.len()
    &&& bytes[close] == 0x3C
    &&& bytes[close + 1] == 0x2F
}

/// The name at `p`, which ends at `after`, stands in a closing tag after
/// plain text: `>` ends the tag; before the name stands its prefix, before
/// that `</`, before that a run of plain bytes, and before that a `>`.
pub open spec fn closes_plain_time(bytes: Seq<u8>, p: int, after: int) -> bool {
    let prefix = skip_back(bytes, p, Class::Prefix);
    let time = skip_back(bytes, prefix - 2, Class::Plain);
    &&& 0 <= after < bytes.len()
    &&& bytes[after] == 0x3E
    &&& 2 <= prefix <= p
    &&& bytes[prefix - 2] == 0x3C
    &&& bytes[prefix - 1] == 0x2F
    &&& 1 <= time
    &&& bytes[time - 1] == 0x3E
}

/// At `p` an element can be named `duration`, and nothing shows that the
/// parser reads no play time there, or plain text with short runs of digits.
pub open spec fn unsafe_duration(bytes: Seq<u8>, p: int) -> bool {
    let after = p + duration_word().len();
    &&& may_name_element(bytes, p, duration_word())
    &&& !is_empty_tag(bytes, after)
    &&& !opens_plain_time(bytes, after)
    &&& !closes_plain_time(bytes, p, after)
}

/// At `p` an attribute can be named `word`, and it has a value in quotes
/// that is no plain text with short runs of digits.
pub open spec fn unsafe_attribute(bytes: Seq<u8>, p: int, word: Seq<u8>) -> bool {
    &&& may_name_attribute(bytes, p, word)
    &&& has_quoted_value(bytes, p + word.len())
    &&& !has_plain_value(bytes, p + word.len())
}

/// What `safe_to_parse` asks of the place `p`.
pub open spec fn safe_at(bytes: Seq<u8>, p: int) -> bool {
    &&& bytes[p] != 0x00
    &&& bytes[p] != 0x1B
    &&& !unsafe_duration(bytes, p)
    &&& !unsafe_attribute(bytes, p, time_word())
    &&& !unsafe_attribute(bytes, p, start_word())
    &&& !unsafe_attribute(bytes, p, end_word())
}

/// At how many places before `n` an attribute can be named `word`.
pub open spec fn attribute_places(bytes: Seq<u8>, word: Seq<u8>, n: int) -> nat
    decreases n,
{
    if n <= 0 {
        0
    } else {
        attribute_places(bytes, word, n - 1) + if may_name_attribute(bytes, n - 1, word) {
            1nat
        } else {
            0nat
        }
    }
}

/// At how many places before `n` an element can be named `word`.
pub open spec fn element_places(bytes: Seq<u8>, word: Seq<u8>, n: int) -> nat
    decreases n,
{
    if n <= 0 {
        0
    } else {
        element_places(bytes, word, n - 1) + if may_name_element(bytes, n - 1, word) {
            1nat
        } else {
            0nat
        }
    }
}

/// The payloads that are handed to the parser.
///
/// - No byte is a NUL or an escape byte.
/// - Where an element can be named `duration`, its tag is that of an empty
///   element, or it opens plain text with short runs of digits that a
///   closing tag follows, or it is the closing tag after plain text.
/// - Where an attribute can be named `time`, `start` or `end` and has a
///   value in quotes, that value is plain text with short runs of digits.
/// - Where the payload names the podcast namespace, an attribute can be
///   named `text` at 32 places at most.
/// - Where the payload names the media namespace, an element can be named
///   `content` at 128 places at most.
pub open spec fn safe_to_parse(bytes: Seq<u8>) -> bool {
    &&& forall|p: int| 0 <= p < bytes.len() ==> safe_at(bytes, p)
    &&& holds_word(bytes, podcast_namespace()) ==> attribute_places(
        bytes,
        text_word(),
        bytes.len() as int,
    ) <= MAX_TEXT_ATTRIBUTES
    &&& holds_word(bytes, media_namespace()) ==> element_places(
        bytes,
        content_word(),
        bytes.len() as int,
    ) <= MAX_CONTENT_ELEMENTS
}

// ---------------------------------------------------------------------------
// The test
// ---------------------------------------------------------------------------

/// Whether the byte is of the class.
fn byte_in_class(class: Class, b: u8) -> (r: bool)
    ensures
        r == in_class(class, b),
{
    let space = b == 0x20 || b == 0x09 || b == 0x0A || b == 0x0D;
    match class {
        Class::Space => space,
        Class::Plain => b < 0x80 && b != 0x26 && b != 0x3C && b != 0x3E && b != 0x22 && b != 0x27,
        Class::Prefix => !space && b != 0x22 && b != 0x27 && b != 0x3C && b != 0x3E && b != 0x2F,
    }
}

/// The first place at or after `from` whose byte is not of the class.
fn scan_fwd(bytes: &[u8], from: usize, class: Class) -> (r: usize)
    requires
        from <= bytes@.len(),
    ensures
        r == skip_fwd(bytes@, from as int, class),
        from <= r <= bytes@.len(),
{
    let mut k: usize = from;
    while k < bytes.len() && byte_in_class(class, bytes[k])
        invariant
            from <= k <= bytes@.len(),
            skip_fwd(bytes@, from as int, class) == skip_fwd(bytes@, k as int, class),
        decreases bytes@.len() - k,
    {
        k += 1;
    }
    k
}

/// The first place of the run of bytes of the class that ends before `to`.
fn scan_back(bytes: &[u8], to: usize, class: Class) -> (r: usize)
    requires
        to <= bytes@.len(),
    ensures
        r == skip_back(bytes@, to as int, class),
        r <= to,
{
    let mut k: usize = to;
    while k > 0 && byte_in_class(class, bytes[k - 1])
        invariant
            k <= to <= bytes@.len(),
            skip_back(bytes@, to as int, class) == skip_back(bytes@, k as int, class),
        decreases k,
    {
        k -= 1;
    }
    k
}

/// Whether `word` stands in `bytes` at `p`.
fn has_word(bytes: &[u8], p: usize, word: &[u8]) -> (r: bool)
    requires
        p <= bytes@.len(),
    ensures
        r == word_at(bytes@, p as int, word@),
{
    if word.len() > bytes.len() - p {
        return false;
    }
    let mut k: usize = 0;
    while k < word.len()
        invariant
            p + word@.len() <= bytes@.len() <= usize::MAX,
            k <= word@.len(),
            forall|j: int| 0 <= j < k ==> bytes@[p + j] == word@[j],
        decreases word@.len() - k,
    {
        if bytes[p + k] != word[k] {
            proof {
                assert(bytes@.subrange(p as int, p + word@.len())[k as int] == bytes@[p + k]);
            }
            return false;
        }
        k += 1;
    }
    proof {
        assert(bytes@.subrange(p as int, p + word@.len()) =~= word@);
    }
    true
}

/// Whether `word` stands somewhere in `bytes`.
fn finds_word(bytes: &[u8], word: &[u8]) -> (r: bool)
    ensures
        r == holds_word(bytes@, word@),
{
    let mut p: usize = 0;
    loop
        invariant
            p <= bytes@.len(),
            forall|q: int| 0 <= q < p ==> !word_at(bytes@, q, word@),
        decreases bytes@.len() - p,
    {
        if has_word(bytes, p, word) {
            return true;
        }
        if p == bytes.len() {
            assert forall|q: int| !word_at(bytes@, q, word@) by {
                if 0 <= q && q + word@.len() <= bytes@.len() {
                    assert(q <= p);
                }
            }
            return false;
        }
        p += 1;
    }
}

/// Whether an element can be named `word` at `p`.
fn names_element(bytes: &[u8], p: usize, word: &[u8]) -> (r: bool)
    requires
        p < bytes@.len(),
    ensures
        r == may_name_element(bytes@, p as int, word@),
{
    let n = bytes.len();
    if p == 0 || !has_word(bytes, p, word) {
        return false;
    }
    let before = bytes[p - 1];
    if !(before == 0x3C || before == 0x3A) {
        return false;
    }
    let after = p + word.len();
    if after >= n {
        return false;
    }
    let b = bytes[after];
    b == 0x20 || b == 0x09 || b == 0x0A || b == 0x0D || b == 0x3E || b == 0x2F
}

/// Whether an attribute can be named `word` at `p`.
fn names_attribute(bytes: &[u8], p: usize, word: &[u8]) -> (r: bool)
    requires
        p < bytes@.len(),
    ensures
        r == may_name_attribute(bytes@, p as int, word@),
{
    let n = bytes.len();
    if p == 0 || !has_word(bytes, p, word) {
        return false;
    }
    let before = bytes[p - 1];
    if !(before == 0x20 || before == 0x09 || before == 0x0A || before == 0x0D || before == 0x22
        || before == 0x27) {
        return false;
    }
    let eq = scan_fwd(bytes, p + word.len(), Class::Space);
    eq < n && bytes[eq] == 0x3D
}

/// Where the plain text that begins at `from` ends, and whether its runs of
/// digits are short.
fn scan_plain(bytes: &[u8], from: usize) -> (r: (usize, bool))
    requires
        from <= bytes@.len(),
        digits_before(bytes@, from as int) == 0,
    ensures
        r.0 == skip_fwd(bytes@, from as int, Class::Plain),
        from <= r.0 <= bytes@.len(),
        r.1 == short_runs(bytes@, from as int, r.0 as int),
{
    let mut k: usize = from;
    let mut run: usize = 0;
    let mut short = true;
    while k < bytes.len() && byte_in_class(Class::Plain, bytes[k])
        invariant
            from <= k <= bytes@.len(),
            skip_fwd(bytes@, from as int, Class::Plain) == skip_fwd(
                bytes@,
                k as int,
                Class::Plain,
            ),
            run == digits_before(bytes@, k as int),
            run <= k,
            short == short_runs(bytes@, from as int, k as int),
        decreases bytes@.len() - k,
    {
        let b = bytes[k];
        if 0x30 <= b && b <= 0x39 {
            run += 1;
        } else {
            run = 0;
        }
        k += 1;
        if run > MAX_DIGITS {
            short = false;
        }
    }
    (k, short)
}

/// Whether the attribute whose name ends before `after` has a value in
/// quotes that is no plain text with short runs of digits.
fn value_is_unsafe(bytes: &[u8], after: usize) -> (r: bool)
    requires
        after <= bytes@.len(),
        skip_fwd(bytes@, after as int, Class::Space) < bytes@.len(),
    ensures
        r == (has_quoted_value(bytes@, after as int) && !has_plain_value(bytes@, after as int)),
{
    let n = bytes.len();
    let eq = scan_fwd(bytes, after, Class::Space);
    let open = scan_fwd(bytes, eq + 1, Class::Space);
    if open >= n {
        return false;
    }
    let quote = bytes[open];
    if !(quote == 0x22 || quote == 0x27) {
        return false;
    }
    let (close, short) = scan_plain(bytes, open + 1);
    !(short && close < n && bytes[close] == quote)
}

/// Whether nothing shows that the element named `duration` at `p` holds no
/// play time, or plain text with short runs of digits.
fn duration_is_unsafe(bytes: &[u8], p: usize, word: &[u8]) -> (r: bool)
    requires
        p < bytes@.len(),
        word@ == duration_word(),
    ensures
        r == unsafe_duration(bytes@, p as int),
{
    if !names_element(bytes, p, word) {
        return false;
    }
    let n = bytes.len();
    let after = p + word.len();
    let b = bytes[after];
    if b == 0x2F {
        return !(after + 1 < n && bytes[after + 1] == 0x3E);
    }
    if b != 0x3E {
        return true;
    }
    // An opening tag before plain text and a closing tag.
    let (close, short) = scan_plain(bytes, after + 1);
    if short && close < n - 1 && bytes[close] == 0x3C && bytes[close + 1] == 0x2F {
        return false;
    }
    // A closing tag after plain text.
    let prefix = scan_back(bytes, p, Class::Prefix);
    if prefix < 2 || bytes[prefix - 2] != 0x3C || bytes[prefix - 1] != 0x2F {
        return true;
    }
    let time = scan_back(bytes, prefix - 2, Class::Plain);
    !(time >= 1 && bytes[time - 1] == 0x3E)
}

/// Whether the attribute named `word` at `p` has a value in quotes that is
/// no plain text with short runs of digits.
fn attribute_is_unsafe(bytes: &[u8], p: usize, word: &[u8]) -> (r: bool)
    requires
        p < bytes@.len(),
    ensures
        r == unsafe_attribute(bytes@, p as int, word@),
{
    let n = bytes.len();
    if !names_attribute(bytes, p, word) {
        return false;
    }
    let after = p + word.len();
    after <= n && value_is_unsafe(bytes, after)
}

/// Whether a payload is one that is handed to the parser.
pub fn is_safe_to_parse(bytes: &[u8]) -> (r: bool)
    ensures
        r == safe_to_parse(bytes@),
{
    let duration: Vec<u8> = vec![0x64u8, 0x75u8, 0x72u8, 0x61u8, 0x74u8, 0x69u8, 0x6Fu8, 0x6Eu8];
    let time: Vec<u8> = vec![0x74u8, 0x69u8, 0x6Du8, 0x65u8];
    let start: Vec<u8> = vec![0x73u8, 0x74u8, 0x61u8, 0x72u8, 0x74u8];
    let end: Vec<u8> = vec![0x65u8, 0x6Eu8, 0x64u8];
    let text: Vec<u8> = vec![0x74u8, 0x65u8, 0x78u8, 0x74u8];
    let content: Vec<u8> = vec![0x63u8, 0x6Fu8, 0x6Eu8, 0x74u8, 0x65u8, 0x6Eu8, 0x74u8];
    let podcast: Vec<u8> = vec![
        0x68u8, 0x74u8, 0x74u8, 0x70u8, 0x3Au8, 0x2Fu8, 0x2Fu8, 0x77u8, 0x77u8, 0x77u8, 0x2Eu8,
        0x69u8, 0x74u8, 0x75u8, 0x6Eu8, 0x65u8, 0x73u8, 0x2Eu8, 0x63u8, 0x6Fu8, 0x6Du8, 0x2Fu8,
        0x64u8, 0x74u8, 0x64u8, 0x73u8, 0x2Fu8, 0x70u8, 0x6Fu8, 0x64u8, 0x63u8, 0x61u8, 0x73u8,
        0x74u8, 0x2Du8, 0x31u8, 0x2Eu8, 0x30u8, 0x2Eu8, 0x64u8, 0x74u8, 0x64u8,
    ];
    let media: Vec<u8> = vec![
        0x68u8, 0x74u8, 0x74u8, 0x70u8, 0x3Au8, 0x2Fu8, 0x2Fu8, 0x73u8, 0x65u8, 0x61u8, 0x72u8,
        0x63u8, 0x68u8, 0x2Eu8, 0x79u8, 0x61u8, 0x68u8, 0x6Fu8, 0x6Fu8, 0x2Eu8, 0x63u8, 0x6Fu8,
        0x6Du8, 0x2Fu8, 0x6Du8, 0x72u8, 0x73u8, 0x73u8, 0x2Fu8,
    ];
    proof {
        assert(duration@ =~= duration_word());
        assert(time@ =~= time_word());
        assert(start@ =~= start_word());
        assert(end@ =~= end_word());
        assert(text@ =~= text_word());
        assert(content@ =~= content_word());
        assert(podcast@ =~= podcast_namespace());
        assert(media@ =~= media_namespace());
    }
    let mut texts: usize = 0;
    let mut contents: usize = 0;
    let mut p: usize = 0;
    while p < bytes.len()
        invariant
            p <= bytes@.len(),
            duration@ == duration_word(),
            time@ == time_word(),
            start@ == start_word(),
            end@ == end_word(),
            text@ == text_word(),
            content@ == content_word(),
            forall|q: int| 0 <= q < p ==> safe_at(bytes@, q),
            texts == attribute_places(bytes@, text_word(), p as int),
            contents == element_places(bytes@, content_word(), p as int),
            texts <= p,
            contents <= p,
        decreases bytes@.len() - p,
    {
        let b = bytes[p];
        if b == 0x00 || b == 0x1B || duration_is_unsafe(bytes, p, duration.as_slice())
            || attribute_is_unsafe(bytes, p, time.as_slice()) || attribute_is_unsafe(
            bytes,
            p,
            start.as_slice(),
        ) || attribute_is_unsafe(bytes, p, end.as_slice()) {
            proof {
                assert(!safe_at(bytes@, p as int));
            }
            return false;
        }
        if names_attribute(bytes, p, text.as_slice()) {
            texts += 1;
        }
        if names_element(bytes, p, content.as_slice()) {
            contents += 1;
        }
        p += 1;
    }
    if texts > MAX_TEXT_ATTRIBUTES && finds_word(bytes, podcast.as_slice()) {
        return false;
    }
    if contents > MAX_CONTENT_ELEMENTS && finds_word(bytes, media.as_slice()) {
        return false;
    }
    true
}

} // verus!
