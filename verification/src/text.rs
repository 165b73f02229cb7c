//! Text as sequences of characters: search, trimming and comparison.
//!
//! The functions here work on `&[char]`, so that positions are character
//! positions and every contract can be stated over `Seq<char>`, the view of
//! `str` and `String`.

use vstd::prelude::*;
use vstd::utf8::*;

verus! {

// ---------------------------------------------------------------------------
// Substring search
// ---------------------------------------------------------------------------

/// `needle` stands in `hay` at position `i`.
pub open spec fn matches_at(hay: Seq<char>, needle: Seq<char>, i: int) -> bool {
    &&& 0 <= i
    &&& i + needle.len() <= hay.len()
    &&& hay.subrange(i, i + needle.len()) == needle
}

/// `needle` stands somewhere in `hay`.
pub open spec fn occurs_in(needle: Seq<char>, hay: Seq<char>) -> bool {
    exists|i: int| matches_at(hay, needle, i)
}

/// `i` is the leftmost position at which `needle` stands in `hay`.
pub open spec fn is_first_match(hay: Seq<char>, needle: Seq<char>, i: int) -> bool {
    &&& matches_at(hay, needle, i)
    &&& forall|j: int| 0 <= j < i ==> !matches_at(hay, needle, j)
}

/// The leftmost position at which `needle` stands in `hay`, if there is one.
pub open spec fn first_match(hay: Seq<char>, needle: Seq<char>) -> Option<int> {
    if occurs_in(needle, hay) {
        Some(choose|i: int| is_first_match(hay, needle, i))
    } else {
        None
    }
}

/// A leftmost match is the one that `first_match` names.
pub proof fn lemma_first_match_is(hay: Seq<char>, needle: Seq<char>, i: int)
    requires
        is_first_match(hay, needle, i),
    ensures
        first_match(hay, needle) == Some(i),
{
    assert(matches_at(hay, needle, i));
    let k = choose|k: int| is_first_match(hay, needle, k);
    assert(is_first_match(hay, needle, k));
    if k < i {
        assert(!matches_at(hay, needle, k));
    } else if i < k {
        assert(!matches_at(hay, needle, i));
    }
}

/// Where `first_match` names a position, it is a leftmost match.
pub proof fn lemma_first_match_some(hay: Seq<char>, needle: Seq<char>)
    requires
        occurs_in(needle, hay),
    ensures
        first_match(hay, needle) is Some,
        is_first_match(hay, needle, first_match(hay, needle)->0),
{
    let w = choose|i: int| matches_at(hay, needle, i);
    lemma_least_match(hay, needle, w);
}

/// Below any match there is a leftmost one.
proof fn lemma_least_match(hay: Seq<char>, needle: Seq<char>, w: int)
    requires
        matches_at(hay, needle, w),
    ensures
        exists|i: int| is_first_match(hay, needle, i),
    decreases w,
{
    if exists|j: int| 0 <= j < w && matches_at(hay, needle, j) {
        let j = choose|j: int| 0 <= j < w && matches_at(hay, needle, j);
        lemma_least_match(hay, needle, j);
    } else {
        assert(is_first_match(hay, needle, w));
    }
}

/// Whether `needle` stands in `text` at `at` and ends at or before `hi`.
fn match_here(text: &[char], at: usize, hi: usize, needle: &[char]) -> (r: bool)
    requires
        at <= hi <= text@.len(),
    ensures
        r == (at + needle@.len() <= hi && text@.subrange(at as int, at + needle@.len())
            == needle@),
{
    if needle.len() > hi - at {
        return false;
    }
    let mut k: usize = 0;
    while k < needle.len()
        invariant
            at + needle@.len() <= hi <= text@.len(),
            k <= needle@.len(),
            forall|j: int| 0 <= j < k ==> text@[at + j] == needle@[j],
        decreases needle@.len() - k,
    {
        if text[at + k] != needle[k] {
            proof {
                let part = text@.subrange(at as int, at + needle@.len());
                assert(part[k as int] == text@[at + k]);
            }
            return false;
        }
        k += 1;
    }
    proof {
        assert(text@.subrange(at as int, at + needle@.len()) =~= needle@);
    }
    true
}

/// The leftmost position of `needle` in `text[lo..hi]`, as a position in
/// `text`.
pub fn find_in(text: &[char], lo: usize, hi: usize, needle: &[char]) -> (r: Option<usize>)
    requires
        lo <= hi <= text@.len(),
    ensures
        match r {
            Some(i) => lo <= i && i + needle@.len() <= hi && first_match(
                text@.subrange(lo as int, hi as int),
                needle@,
            ) == Some(i - lo),
            None => first_match(text@.subrange(lo as int, hi as int), needle@) is None,
        },
{
    let ghost window = text@.subrange(lo as int, hi as int);
    let ghost n = needle@.len() as int;
    let mut i: usize = lo;
    loop
        invariant
            lo <= i <= hi <= text@.len(),
            window == text@.subrange(lo as int, hi as int),
            n == needle@.len(),
            forall|j: int| 0 <= j < i - lo ==> !matches_at(window, needle@, j),
        decreases hi - i,
    {
        let here = match_here(text, i, hi, needle);
        proof {
            if i + n <= hi {
                assert(window.subrange(i - lo, i - lo + n) =~= text@.subrange(
                    i as int,
                    i + n,
                ));
            }
        }
        if here {
            proof {
                lemma_first_match_is(window, needle@, i - lo);
            }
            return Some(i);
        }
        assert(!matches_at(window, needle@, i - lo));
        if i == hi {
            assert forall|j: int| !matches_at(window, needle@, j) by {
                if 0 <= j && j + n <= window.len() {
                    assert(j <= i - lo);
                }
            }
            return None;
        }
        i += 1;
    }
}

/// The leftmost position of `needle` in `hay`.
pub fn find(hay: &[char], needle: &[char]) -> (r: Option<usize>)
    ensures
        match r {
            Some(i) => i + needle@.len() <= hay@.len() && first_match(hay@, needle@) == Some(
                i as int,
            ),
            None => first_match(hay@, needle@) is None,
        },
{
    proof {
        assert(hay@.subrange(0, hay@.len() as int) =~= hay@);
    }
    find_in(hay, 0, hay.len(), needle)
}

/// Whether `needle` stands somewhere in `hay`.
pub fn contains(hay: &str, needle: &str) -> (r: bool)
    ensures
        r == occurs_in(needle@, hay@),
{
    let h = to_chars(hay);
    let n = to_chars(needle);
    let found = find(h.as_slice(), n.as_slice());
    proof {
        if occurs_in(needle@, hay@) {
            lemma_first_match_some(hay@, needle@);
        }
    }
    found.is_some()
}

// ---------------------------------------------------------------------------
// Whitespace
// ---------------------------------------------------------------------------

/// The characters with the Unicode property `White_Space`.
pub open spec fn is_whitespace(c: char) -> bool {
    let u = c as u32;
    ||| 0x09 <= u <= 0x0D
    ||| u == 0x20
    ||| u == 0x85
    ||| u == 0xA0
    ||| u == 0x1680
    ||| 0x2000 <= u <= 0x200A
    ||| u == 0x2028
    ||| u == 0x2029
    ||| u == 0x202F
    ||| u == 0x205F
    ||| u == 0x3000
}

/// `s` without its leading whitespace.
pub open spec fn trim_start(s: Seq<char>) -> Seq<char>
    decreases s.len(),
{
    if s.len() > 0 && is_whitespace(s[0]) {
        trim_start(s.skip(1))
    } else {
        s
    }
}

/// `s` without its trailing whitespace.
pub open spec fn trim_end(s: Seq<char>) -> Seq<char>
    decreases s.len(),
{
    if s.len() > 0 && is_whitespace(s.last()) {
        trim_end(s.drop_last())
    } else {
        s
    }
}

/// `s` without the whitespace around it.
pub open spec fn trim(s: Seq<char>) -> Seq<char> {
    trim_end(trim_start(s))
}

/// Whether `c` has the Unicode property `White_Space`.
pub fn char_is_whitespace(c: char) -> (r: bool)
    ensures
        r == is_whitespace(c),
{
    let u: u32 = c as u32;
    (0x09 <= u && u <= 0x0D) || u == 0x20 || u == 0x85 || u == 0xA0 || u == 0x1680 || (0x2000
        <= u && u <= 0x200A) || u == 0x2028 || u == 0x2029 || u == 0x202F || u == 0x205F || u
        == 0x3000
}

/// The bounds of `text[lo..hi]` without the whitespace around it.
pub fn trim_bounds(text: &[char], lo: usize, hi: usize) -> (r: (usize, usize))
    requires
        lo <= hi <= text@.len(),
    ensures
        lo <= r.0 <= r.1 <= hi,
        text@.subrange(r.0 as int, r.1 as int) == trim(text@.subrange(lo as int, hi as int)),
{
    let mut a: usize = lo;
    while a < hi && char_is_whitespace(text[a])
        invariant
            lo <= a <= hi <= text@.len(),
            trim_start(text@.subrange(lo as int, hi as int)) == trim_start(
                text@.subrange(a as int, hi as int),
            ),
        decreases hi - a,
    {
        proof {
            let s = text@.subrange(a as int, hi as int);
            assert(s[0] == text@[a as int]);
            assert(s.skip(1) =~= text@.subrange(a + 1, hi as int));
        }
        a += 1;
    }
    proof {
        let s = text@.subrange(a as int, hi as int);
        if a < hi {
            assert(s[0] == text@[a as int]);
        }
        assert(trim_start(s) == s);
    }
    let mut b: usize = hi;
    while a < b && char_is_whitespace(text[b - 1])
        invariant
            a <= b <= hi <= text@.len(),
            trim_end(text@.subrange(a as int, hi as int)) == trim_end(
                text@.subrange(a as int, b as int),
            ),
        decreases b - a,
    {
        proof {
            let s = text@.subrange(a as int, b as int);
            assert(s.last() == text@[b - 1]);
            assert(s.drop_last() =~= text@.subrange(a as int, b - 1));
        }
        b -= 1;
    }
    proof {
        let s = text@.subrange(a as int, b as int);
        if a < b {
            assert(s.last() == text@[b - 1]);
        }
        assert(trim_end(s) == s);
    }
    (a, b)
}

// ---------------------------------------------------------------------------
// Between `str` and `[char]`
// ---------------------------------------------------------------------------

/// The characters of `s`, in order.
pub fn to_chars(s: &str) -> (chars: Vec<char>)
    ensures
        chars@ == s@,
{
    let mut out: Vec<char> = Vec::new();
    let it = s.chars();
    for c in iter: it
        invariant
            out@ == iter.seq().take(iter.index@),
    {
        out.push(c);
    }
    out
}

/// `String::push` appends one character.
pub assume_specification[ String::push ](s: &mut String, ch: char)
    ensures
        final(s)@ == old(s)@.push(ch),
;

/// The string made of `text[lo..hi]`.
pub fn string_of(text: &[char], lo: usize, hi: usize) -> (s: String)
    requires
        lo <= hi <= text@.len(),
    ensures
        s@ == text@.subrange(lo as int, hi as int),
{
    let mut out = String::new();
    let mut i: usize = lo;
    while i < hi
        invariant
            lo <= i <= hi <= text@.len(),
            out@ == text@.subrange(lo as int, i as int),
        decreases hi - i,
    {
        out.push(text[i]);
        proof {
            assert(text@.subrange(lo as int, i as int).push(text@[i as int]) =~= text@.subrange(
                lo as int,
                i + 1,
            ));
        }
        i += 1;
    }
    out
}

/// Whether two strings hold the same characters.
pub fn text_eq(a: &str, b: &str) -> (r: bool)
    ensures
        r == (a@ == b@),
{
    let x = a.to_owned();
    let y = b.to_owned();
    x == y
}

// ---------------------------------------------------------------------------
// UTF-8 and case
// ---------------------------------------------------------------------------

/// `std::str::from_utf8`: the bytes as text where they are well-formed UTF-8,
/// and nothing where they are not. The text's bytes are the bytes given.
#[verifier::external_body]
fn utf8_text(bytes: &[u8]) -> (r: Option<&str>)
    ensures
        r is Some <==> valid_utf8(bytes@),
        r matches Some(s) ==> encode_utf8(s@) == bytes@,
{
    match std::str::from_utf8(bytes) {
        Ok(s) => Some(s),
        Err(_) => None,
    }
}

/// The characters that `bytes` encode, where `bytes` is well-formed UTF-8.
pub fn decode(bytes: &[u8]) -> (r: Option<Vec<char>>)
    ensures
        r is Some <==> valid_utf8(bytes@),
        r matches Some(chars) ==> chars@ == decode_utf8(bytes@),
{
    match utf8_text(bytes) {
        Some(s) => {
            proof {
                encode_utf8_decode_utf8(s@);
            }
            Some(to_chars(s))
        },
        None => None,
    }
}

/// What `str::to_lowercase` makes of a text: its lowercase equivalent, as
/// Unicode defines it.
pub uninterp spec fn lowercase_text(s: Seq<char>) -> Seq<char>;

/// `str::to_lowercase`: the lowercase equivalent of `s`, a function of the
/// characters of `s` alone.
#[verifier::external_body]
pub(crate) fn lowercase(s: &str) -> (r: String)
    ensures
        r@ == lowercase_text(s@),
{
    s.to_lowercase()
}

// ---------------------------------------------------------------------------
// Order
// ---------------------------------------------------------------------------

/// `a` comes strictly before `b` when both are read as byte strings, byte by
/// byte from the left; a proper prefix comes before what it is a prefix of.
pub open spec fn bytes_less(a: Seq<u8>, b: Seq<u8>) -> bool
    decreases a.len(),
{
    if b.len() == 0 {
        false
    } else if a.len() == 0 {
        true
    } else if a[0] != b[0] {
        a[0] < b[0]
    } else {
        bytes_less(a.skip(1), b.skip(1))
    }
}

/// `a` comes strictly before `b` in the order of their UTF-8 bytes.
pub open spec fn text_less(a: Seq<char>, b: Seq<char>) -> bool {
    bytes_less(encode_utf8(a), encode_utf8(b))
}

/// No byte string comes before itself.
pub proof fn lemma_bytes_less_irreflexive(a: Seq<u8>)
    ensures
        !bytes_less(a, a),
    decreases a.len(),
{
    if a.len() > 0 {
        lemma_bytes_less_irreflexive(a.skip(1));
    }
}

/// The order is transitive.
pub proof fn lemma_bytes_less_transitive(a: Seq<u8>, b: Seq<u8>, c: Seq<u8>)
    requires
        bytes_less(a, b),
        bytes_less(b, c),
    ensures
        bytes_less(a, c),
    decreases a.len(),
{
    if a.len() > 0 && a[0] == b[0] && b[0] == c[0] {
        lemma_bytes_less_transitive(a.skip(1), b.skip(1), c.skip(1));
    }
}

/// Of two different byte strings one comes before the other.
pub proof fn lemma_bytes_less_total(a: Seq<u8>, b: Seq<u8>)
    ensures
        bytes_less(a, b) || bytes_less(b, a) || a == b,
    decreases a.len(),
{
    if a.len() > 0 && b.len() > 0 && a[0] == b[0] {
        lemma_bytes_less_total(a.skip(1), b.skip(1));
        if a.skip(1) == b.skip(1) {
            assert(a =~= seq![a[0]] + a.skip(1));
            assert(b =~= seq![b[0]] + b.skip(1));
        }
    } else if a.len() == 0 && b.len() == 0 {
        assert(a =~= b);
    }
}

/// Past a common prefix the order is that of what follows.
proof fn lemma_bytes_less_skip(a: Seq<u8>, b: Seq<u8>, k: int)
    requires
        0 <= k <= a.len(),
        k <= b.len(),
        a.take(k) == b.take(k),
    ensures
        bytes_less(a, b) == bytes_less(a.skip(k), b.skip(k)),
    decreases k,
{
    if k == 0 {
        assert(a.skip(0) =~= a);
        assert(b.skip(0) =~= b);
    } else {
        assert(a.take(k - 1) =~= a.take(k).take(k - 1));
        assert(b.take(k - 1) =~= b.take(k).take(k - 1));
        lemma_bytes_less_skip(a, b, k - 1);
        let x = a.skip(k - 1);
        let y = b.skip(k - 1);
        assert(x[0] == a.take(k)[k - 1]);
        assert(y[0] == b.take(k)[k - 1]);
        assert(x.skip(1) =~= a.skip(k));
        assert(y.skip(1) =~= b.skip(k));
    }
}

/// Whether `a` comes strictly before `b` in the order of their UTF-8 bytes.
pub fn text_before(a: &str, b: &str) -> (r: bool)
    ensures
        r == text_less(a@, b@),
{
    let x = a.as_bytes();
    let y = b.as_bytes();
    let mut k: usize = 0;
    while k < x.len() && k < y.len()
        invariant
            k <= x@.len(),
            k <= y@.len(),
            x@.take(k as int) == y@.take(k as int),
            x@ == encode_utf8(a@),
            y@ == encode_utf8(b@),
        decreases x@.len() - k,
    {
        if x[k] != y[k] {
            proof {
                lemma_bytes_less_skip(x@, y@, k as int);
                let p = x@.skip(k as int);
                let q = y@.skip(k as int);
                assert(p.len() > 0 && q.len() > 0);
                assert(p[0] == x@[k as int]);
                assert(q[0] == y@[k as int]);
                assert(bytes_less(p, q) == (p[0] < q[0]));
            }
            return x[k] < y[k];
        }
        proof {
            assert(x@.take(k + 1) =~= x@.take(k as int).push(x@[k as int]));
            assert(y@.take(k + 1) =~= y@.take(k as int).push(y@[k as int]));
        }
        k += 1;
    }
    proof {
        lemma_bytes_less_skip(x@, y@, k as int);
    }
    k < y.len()
}

} // verus!
