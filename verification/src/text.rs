//! Text primitives: searching, trimming, splitting, decimal numbers.
//!
//! Everything is specified over `Seq<char>`, the view of `str` and `String`.
use vstd::prelude::*;
use vstd::string::*;

verus! {

/// `String::push` appends one character at the end.
pub assume_specification[ String::push ](s: &mut String, c: char)
    ensures
        final(s)@ == old(s)@.push(c),
;

/// `std::str::from_utf8` succeeds exactly on well-formed UTF-8 and then yields
/// the characters that the bytes encode.
#[verifier::external_body]
pub(crate) fn utf8_text(data: &[u8]) -> (r: Option<String>)
    ensures
        r is Some <==> vstd::utf8::valid_utf8(data@),
        r matches Some(s) ==> s@ == vstd::utf8::decode_utf8(data@),
{
    std::str::from_utf8(data).ok().map(String::from)
}

/// What `String::from_utf8_lossy` yields for a byte sequence.
pub uninterp spec fn utf8_lossy(data: Seq<u8>) -> Seq<char>;

/// `String::from_utf8_lossy` decodes well-formed UTF-8 as it stands; what it
/// puts in place of malformed bytes is left to its name.
#[verifier::external_body]
pub(crate) fn utf8_lossy_text(data: &[u8]) -> (r: String)
    ensures
        r@ == utf8_lossy(data@),
        vstd::utf8::valid_utf8(data@) ==> r@ == vstd::utf8::decode_utf8(data@),
{
    String::from_utf8_lossy(data).into_owned()
}

/// What `format!` writes for a text under `{:?}`: the text in quotes, with escapes.
pub uninterp spec fn debug_form(s: Seq<char>) -> Seq<char>;

/// `format!` of a text under `{:?}`.
#[verifier::external_body]
pub(crate) fn debug_text(s: &str) -> (r: String)
    ensures
        r@ == debug_form(s@),
{
    format!("{:?}", s)
}

/// The characters of a string, as a vector.
pub fn chars_of(s: &str) -> (r: Vec<char>)
    ensures
        r@ == s@,
{
    let mut out: Vec<char> = Vec::new();
    for c in it: s.chars()
        invariant
            out@ == it.seq().take(it.index()),
            it.seq() == s@,
    {
        out.push(c);
    }
    assert(s@.take(s@.len() as int) == s@);
    out
}

/// The string that holds the given characters.
pub fn string_of(s: &[char]) -> (r: String)
    ensures
        r@ == s@,
{
    let mut out = String::new();
    let mut i: usize = 0;
    while i < s.len()
        invariant
            i <= s@.len(),
            out@ == s@.take(i as int),
        decreases s@.len() - i,
    {
        out.push(s[i]);
        proof {
            assert(s@.take(i + 1) == s@.take(i as int).push(s@[i as int]));
        }
        i = i + 1;
    }
    assert(s@.take(s@.len() as int) == s@);
    out
}

/// The encoding of two texts put together is their encodings put together.
pub proof fn lemma_encode_concat(a: Seq<char>, b: Seq<char>)
    ensures
        vstd::utf8::encode_utf8(a + b) == vstd::utf8::encode_utf8(a) + vstd::utf8::encode_utf8(b),
    decreases a.len(),
{
    if a.len() == 0 {
        assert(a + b =~= b);
    } else {
        assert((a + b).drop_first() =~= a.drop_first() + b);
        lemma_encode_concat(a.drop_first(), b);
    }
}

/// A text without a newline is encoded without a newline.
pub proof fn lemma_encode_keeps_lines_whole(s: Seq<char>)
    requires
        forall|i: int| 0 <= i < s.len() ==> #[trigger] s[i] != '\n',
    ensures
        forall|i: int|
            0 <= i < vstd::utf8::encode_utf8(s).len() ==> #[trigger] vstd::utf8::encode_utf8(s)[i]
                != 10,
    decreases s.len(),
{
    if s.len() > 0 {
        let c: u32 = s[0] as u32;
        let rest = s.drop_first();
        assert forall|i: int| 0 <= i < rest.len() implies #[trigger] rest[i] != '\n' by {
            assert(rest[i] == s[i + 1]);
        }
        lemma_encode_keeps_lines_whole(rest);
        vstd::utf8::char_is_scalar(s[0]);
        vstd::utf8::char_u32_cast(s[0], c);
        assert(c != 10);
        assert(c < 0x80 && c != 10 ==> (c & 0x7F) as u8 != 10) by (bit_vector);
        assert(forall|v: u8| #[trigger] (0xC0u8 | v) != 10) by (bit_vector);
        assert(forall|v: u8| #[trigger] (0xE0u8 | v) != 10) by (bit_vector);
        assert(forall|v: u8| #[trigger] (0xF0u8 | v) != 10) by (bit_vector);
        assert(forall|v: u8| #[trigger] (0x80u8 | v) != 10) by (bit_vector);
        let head = vstd::utf8::encode_scalar(c);
        let whole = vstd::utf8::encode_utf8(s);
        assert(whole == head + vstd::utf8::encode_utf8(rest));
        assert forall|i: int| 0 <= i < whole.len() implies #[trigger] whole[i] != 10 by {
            if i < head.len() {
                assert(whole[i] == head[i]);
            } else {
                assert(whole[i] == vstd::utf8::encode_utf8(rest)[i - head.len()]);
            }
        }
    }
}

// ── Searching ────────────────────────────────────────────────────────────────

/// `p` stands in `s` at position `i`.
pub open spec fn occurs_at(s: Seq<char>, p: Seq<char>, i: int) -> bool {
    &&& 0 <= i
    &&& i + p.len() <= s.len()
    &&& s.subrange(i, i + p.len()) == p
}

/// `p` stands somewhere in `s`.
pub open spec fn contains_text(s: Seq<char>, p: Seq<char>) -> bool {
    exists|i: int| occurs_at(s, p, i)
}

/// The first position from `i` on at which `p` stands in `s`.
pub open spec fn find_from(s: Seq<char>, p: Seq<char>, i: int) -> Option<int>
    decreases s.len() - i + 1,
{
    if i < 0 || i + p.len() > s.len() {
        None
    } else if occurs_at(s, p, i) {
        Some(i)
    } else {
        find_from(s, p, i + 1)
    }
}

/// The first position at which `p` stands in `s`.
pub open spec fn find(s: Seq<char>, p: Seq<char>) -> Option<int> {
    find_from(s, p, 0)
}

/// `find_from` gives the least position, and `None` only where there is none.
pub proof fn lemma_find_from(s: Seq<char>, p: Seq<char>, i: int)
    requires
        0 <= i,
    ensures
        find_from(s, p, i) matches Some(k) ==> i <= k && occurs_at(s, p, k) && (forall|j: int|
            i <= j < k ==> !occurs_at(s, p, j)),
        find_from(s, p, i) is None ==> (forall|j: int| i <= j ==> !occurs_at(s, p, j)),
    decreases s.len() - i + 1,
{
    if i + p.len() > s.len() {
    } else if occurs_at(s, p, i) {
    } else {
        lemma_find_from(s, p, i + 1);
    }
}

/// A position at which `p` stands, with none before it, is what `find` gives.
pub proof fn lemma_find_is(s: Seq<char>, p: Seq<char>, k: int)
    requires
        occurs_at(s, p, k),
        forall|j: int| 0 <= j < k ==> !occurs_at(s, p, j),
    ensures
        find(s, p) == Some(k),
{
    lemma_find_from(s, p, 0);
    match find_from(s, p, 0) {
        Some(m) => {
            if m < k {
                assert(!occurs_at(s, p, m));
            }
            if k < m {
                assert(!occurs_at(s, p, k));
            }
        },
        None => {
            assert(!occurs_at(s, p, k));
        },
    }
}

/// Tests whether `p` stands in `s` at position `i`.
pub fn matches_at(s: &[char], p: &[char], i: usize) -> (r: bool)
    ensures
        r == occurs_at(s@, p@, i as int),
{
    if i > s.len() || s.len() - i < p.len() {
        return false;
    }
    let mut k: usize = 0;
    while k < p.len()
        invariant
            k <= p@.len(),
            i + p@.len() <= s@.len() <= usize::MAX,
            forall|j: int| 0 <= j < k ==> s@[i + j] == p@[j],
        decreases p@.len() - k,
    {
        if s[i + k] != p[k] {
            proof {
                assert(s@.subrange(i as int, i + p@.len())[k as int] != p@[k as int]);
            }
            return false;
        }
        k = k + 1;
    }
    assert(s@.subrange(i as int, i + p@.len()) =~= p@);
    true
}

/// The first position at which `p` stands in `s`.
pub fn find_text(s: &[char], p: &str) -> (r: Option<usize>)
    ensures
        r matches Some(k) ==> find(s@, p@) == Some(k as int),
        r is None ==> find(s@, p@) is None,
{
    let pat = chars_of(p);
    if pat.len() > s.len() {
        return None;
    }
    let last: usize = s.len() - pat.len();
    let mut i: usize = 0;
    while i < last
        invariant
            i <= last,
            last + p@.len() == s@.len(),
            pat@ == p@,
            find(s@, p@) == find_from(s@, p@, i as int),
        decreases last - i,
    {
        if matches_at(s, pat.as_slice(), i) {
            return Some(i);
        }
        i = i + 1;
    }
    if matches_at(s, pat.as_slice(), last) {
        Some(last)
    } else {
        proof {
            assert(find_from(s@, p@, last + 1) is None);
        }
        None
    }
}

/// Tests whether `p` stands somewhere in `s`.
pub fn has_text(s: &[char], p: &str) -> (r: bool)
    ensures
        r == contains_text(s@, p@),
{
    let k = find_text(s, p);
    proof {
        lemma_find_from(s@, p@, 0);
        if let Some(j) = find(s@, p@) {
            assert(occurs_at(s@, p@, j));
        } else {
            assert forall|j: int| !occurs_at(s@, p@, j) by {
                if 0 <= j {
                }
            }
        }
    }
    k.is_some()
}

/// `s` begins with `p`.
pub open spec fn begins_with(s: Seq<char>, p: Seq<char>) -> bool {
    occurs_at(s, p, 0)
}

/// Tests whether `s` begins with `p`.
pub fn has_prefix(s: &[char], p: &str) -> (r: bool)
    ensures
        r == begins_with(s@, p@),
{
    let pat = chars_of(p);
    matches_at(s, pat.as_slice(), 0)
}

/// Tests whether two strings hold the same characters.
pub fn same_text(a: &str, b: &str) -> (r: bool)
    ensures
        r == (a@ == b@),
{
    let x = chars_of(a);
    let y = chars_of(b);
    if x.len() != y.len() {
        return false;
    }
    let r = matches_at(x.as_slice(), y.as_slice(), 0);
    proof {
        assert(x@.subrange(0, x@.len() as int) =~= x@);
    }
    r
}

// ── Trimming ─────────────────────────────────────────────────────────────────

/// `s` without the `c`s at its end.
pub open spec fn without_trailing(s: Seq<char>, c: char) -> Seq<char>
    decreases s.len(),
{
    if s.len() > 0 && s.last() == c {
        without_trailing(s.drop_last(), c)
    } else {
        s
    }
}

/// `s` without the `c`s at its start.
pub open spec fn without_leading(s: Seq<char>, c: char) -> Seq<char>
    decreases s.len(),
{
    if s.len() > 0 && s[0] == c {
        without_leading(s.drop_first(), c)
    } else {
        s
    }
}

/// The characters of Unicode's `White_Space` property.
pub open spec fn is_space(c: char) -> bool {
    ||| '\u{9}' <= c <= '\u{d}'
    ||| c == '\u{20}'
    ||| c == '\u{85}'
    ||| c == '\u{a0}'
    ||| c == '\u{1680}'
    ||| '\u{2000}' <= c <= '\u{200a}'
    ||| c == '\u{2028}'
    ||| c == '\u{2029}'
    ||| c == '\u{202f}'
    ||| c == '\u{205f}'
    ||| c == '\u{3000}'
}

/// Tests for a character of Unicode's `White_Space` property.
pub fn space(c: char) -> (r: bool)
    ensures
        r == is_space(c),
{
    ('\u{9}' <= c && c <= '\u{d}') || c == '\u{20}' || c == '\u{85}' || c == '\u{a0}' || c
        == '\u{1680}' || ('\u{2000}' <= c && c <= '\u{200a}') || c == '\u{2028}' || c == '\u{2029}'
        || c == '\u{202f}' || c == '\u{205f}' || c == '\u{3000}'
}

/// How many white-space characters `s` begins with.
pub open spec fn space_len(s: Seq<char>) -> nat
    decreases s.len(),
{
    if s.len() > 0 && is_space(s[0]) {
        1 + space_len(s.drop_first())
    } else {
        0
    }
}

/// How many characters that are not white space `s` begins with.
pub open spec fn word_len(s: Seq<char>) -> nat
    decreases s.len(),
{
    if s.len() > 0 && !is_space(s[0]) {
        1 + word_len(s.drop_first())
    } else {
        0
    }
}

/// `s` without the white space at its end.
pub open spec fn without_trailing_space(s: Seq<char>) -> Seq<char>
    decreases s.len(),
{
    if s.len() > 0 && is_space(s.last()) {
        without_trailing_space(s.drop_last())
    } else {
        s
    }
}

/// `s` without the white space at either end.
pub open spec fn trimmed(s: Seq<char>) -> Seq<char> {
    let t = without_trailing_space(s);
    t.skip(space_len(t) as int)
}

pub proof fn lemma_space_len(s: Seq<char>)
    ensures
        space_len(s) <= s.len(),
        forall|i: int| 0 <= i < space_len(s) ==> is_space(#[trigger] s[i]),
        space_len(s) < s.len() ==> !is_space(s[space_len(s) as int]),
    decreases s.len(),
{
    if s.len() > 0 && is_space(s[0]) {
        let t = s.drop_first();
        lemma_space_len(t);
        assert forall|i: int| 0 <= i < space_len(s) implies is_space(#[trigger] s[i]) by {
            if i > 0 {
                assert(t[i - 1] == s[i]);
            }
        }
        if space_len(s) < s.len() {
            assert(t[space_len(t) as int] == s[space_len(s) as int]);
        }
    }
}

pub proof fn lemma_word_len(s: Seq<char>)
    ensures
        word_len(s) <= s.len(),
        forall|i: int| 0 <= i < word_len(s) ==> !is_space(#[trigger] s[i]),
        word_len(s) < s.len() ==> is_space(s[word_len(s) as int]),
    decreases s.len(),
{
    if s.len() > 0 && !is_space(s[0]) {
        let t = s.drop_first();
        lemma_word_len(t);
        assert forall|i: int| 0 <= i < word_len(s) implies !is_space(#[trigger] s[i]) by {
            if i > 0 {
                assert(t[i - 1] == s[i]);
            }
        }
        if word_len(s) < s.len() {
            assert(t[word_len(t) as int] == s[word_len(s) as int]);
        }
    }
}

/// A run of white space that a word or the end follows is what `space_len` counts.
pub proof fn lemma_space_len_is(s: Seq<char>, k: nat)
    requires
        k <= s.len(),
        forall|i: int| 0 <= i < k ==> is_space(#[trigger] s[i]),
        k < s.len() ==> !is_space(s[k as int]),
    ensures
        space_len(s) == k,
{
    lemma_space_len(s);
    if space_len(s) < k {
        assert(is_space(s[space_len(s) as int]));
    }
    if k < space_len(s) {
        assert(is_space(s[k as int]));
    }
}

/// A run without white space that white space or the end follows is what
/// `word_len` counts.
pub proof fn lemma_word_len_is(s: Seq<char>, k: nat)
    requires
        k <= s.len(),
        forall|i: int| 0 <= i < k ==> !is_space(#[trigger] s[i]),
        k < s.len() ==> is_space(s[k as int]),
    ensures
        word_len(s) == k,
{
    lemma_word_len(s);
    if word_len(s) < k {
        assert(!is_space(s[word_len(s) as int]));
    }
    if k < word_len(s) {
        assert(!is_space(s[k as int]));
    }
}

/// The part of `s` from `a` up to, not including, `b`.
pub fn part(s: &[char], a: usize, b: usize) -> (r: Vec<char>)
    requires
        a <= b <= s@.len(),
    ensures
        r@ == s@.subrange(a as int, b as int),
{
    let mut out: Vec<char> = Vec::new();
    let mut i: usize = a;
    while i < b
        invariant
            a <= i <= b <= s@.len(),
            out@ == s@.subrange(a as int, i as int),
        decreases b - i,
    {
        out.push(s[i]);
        proof {
            assert(s@.subrange(a as int, i + 1) == s@.subrange(a as int, i as int).push(
                s@[i as int],
            ));
        }
        i = i + 1;
    }
    out
}

/// `s` without the `c`s at its end.
pub fn trim_end_char(s: &[char], c: char) -> (r: Vec<char>)
    ensures
        r@ == without_trailing(s@, c),
{
    let mut n: usize = s.len();
    assert(s@.take(n as int) == s@);
    while n > 0 && s[n - 1] == c
        invariant
            n <= s@.len(),
            without_trailing(s@.take(n as int), c) == without_trailing(s@, c),
        decreases n,
    {
        proof {
            assert(s@.take(n as int).drop_last() == s@.take(n - 1));
        }
        n = n - 1;
    }
    proof {
        assert(s@.take(n as int) == s@.subrange(0, n as int));
    }
    part(s, 0, n)
}

/// `s` without the `c`s at its start.
pub fn trim_start_char(s: &[char], c: char) -> (r: Vec<char>)
    ensures
        r@ == without_leading(s@, c),
{
    let mut n: usize = 0;
    assert(s@.skip(0) == s@);
    while n < s.len() && s[n] == c
        invariant
            n <= s@.len(),
            without_leading(s@.skip(n as int), c) == without_leading(s@, c),
        decreases s@.len() - n,
    {
        proof {
            assert(s@.skip(n as int).drop_first() == s@.skip(n + 1));
        }
        n = n + 1;
    }
    proof {
        assert(s@.skip(n as int) == s@.subrange(n as int, s@.len() as int));
    }
    part(s, n, s.len())
}

/// The end of the white space that begins at position `a`.
pub fn skip_space(s: &[char], a: usize) -> (b: usize)
    requires
        a <= s@.len(),
    ensures
        b == a + space_len(s@.skip(a as int)),
        b <= s@.len(),
{
    let mut n: usize = a;
    while n < s.len() && space(s[n])
        invariant
            a <= n <= s@.len(),
            forall|i: int| a <= i < n ==> is_space(#[trigger] s@[i]),
        decreases s@.len() - n,
    {
        n = n + 1;
    }
    proof {
        lemma_space_len_is(s@.skip(a as int), (n - a) as nat);
    }
    n
}

/// The end of the word that begins at position `a`.
pub fn skip_word(s: &[char], a: usize) -> (b: usize)
    requires
        a <= s@.len(),
    ensures
        b == a + word_len(s@.skip(a as int)),
        b <= s@.len(),
{
    let mut n: usize = a;
    while n < s.len() && !space(s[n])
        invariant
            a <= n <= s@.len(),
            forall|i: int| a <= i < n ==> !is_space(#[trigger] s@[i]),
        decreases s@.len() - n,
    {
        n = n + 1;
    }
    proof {
        lemma_word_len_is(s@.skip(a as int), (n - a) as nat);
    }
    n
}

/// `s` without the white space at either end.
pub fn trim(s: &[char]) -> (r: Vec<char>)
    ensures
        r@ == trimmed(s@),
{
    let mut n: usize = s.len();
    assert(s@.take(n as int) == s@);
    while n > 0 && space(s[n - 1])
        invariant
            n <= s@.len(),
            without_trailing_space(s@.take(n as int)) == without_trailing_space(s@),
        decreases n,
    {
        proof {
            assert(s@.take(n as int).drop_last() == s@.take(n - 1));
        }
        n = n - 1;
    }
    proof {
        assert(s@.take(n as int) == s@.subrange(0, n as int));
    }
    let t = part(s, 0, n);
    let a = skip_space(t.as_slice(), 0);
    proof {
        assert(t@.skip(0) == t@);
        assert(t@.skip(a as int) == t@.subrange(a as int, t@.len() as int));
    }
    part(t.as_slice(), a, t.len())
}

/// What follows the last `c` of `s`; without a `c`, the whole of `s`.
pub open spec fn after_last(s: Seq<char>, c: char) -> Seq<char>
    decreases s.len(),
{
    if s.len() == 0 || s.last() == c {
        seq![]
    } else {
        after_last(s.drop_last(), c).push(s.last())
    }
}

/// A piece without `c` that stands at the end, after a `c` or alone, is what
/// `after_last` gives.
pub proof fn lemma_after_last_is(s: Seq<char>, c: char, k: int)
    requires
        0 <= k <= s.len(),
        forall|i: int| k <= i < s.len() ==> #[trigger] s[i] != c,
        k == 0 || s[k - 1] == c,
    ensures
        after_last(s, c) == s.skip(k),
    decreases s.len(),
{
    if k < s.len() {
        assert(s.last() == s[s.len() - 1]);
        lemma_after_last_is(s.drop_last(), c, k);
        assert(s.drop_last().skip(k).push(s.last()) =~= s.skip(k));
    } else {
        assert(s.skip(k) =~= seq![]);
    }
}

/// What follows the last `c` of `s`.
pub fn last_segment(s: &[char], c: char) -> (r: Vec<char>)
    ensures
        r@ == after_last(s@, c),
{
    let mut k: usize = s.len();
    while k > 0 && s[k - 1] != c
        invariant
            k <= s@.len(),
            forall|i: int| k <= i < s@.len() ==> #[trigger] s@[i] != c,
        decreases k,
    {
        k = k - 1;
    }
    proof {
        lemma_after_last_is(s@, c, k as int);
        assert(s@.skip(k as int) =~= s@.subrange(k as int, s@.len() as int));
    }
    part(s, k, s.len())
}

// ── Affixes ──────────────────────────────────────────────────────────────────

/// `s` without `p` at its start, as often as it stands there.
pub open spec fn without_prefixes(s: Seq<char>, p: Seq<char>) -> Seq<char>
    decreases s.len(),
{
    if p.len() > 0 && begins_with(s, p) {
        without_prefixes(s.skip(p.len() as int), p)
    } else {
        s
    }
}

/// `s` without `p` at its end, as often as it stands there.
pub open spec fn without_suffixes(s: Seq<char>, p: Seq<char>) -> Seq<char>
    decreases s.len(),
{
    if p.len() > 0 && occurs_at(s, p, s.len() - p.len()) {
        without_suffixes(s.take(s.len() - p.len()), p)
    } else {
        s
    }
}

/// What follows `p` at the start of `s`.
pub open spec fn after_prefix(s: Seq<char>, p: Seq<char>) -> Option<Seq<char>> {
    if begins_with(s, p) {
        Some(s.skip(p.len() as int))
    } else {
        None
    }
}

/// `s` without the `c`s at either end.
pub open spec fn without_around(s: Seq<char>, c: char) -> Seq<char> {
    without_leading(without_trailing(s, c), c)
}

/// `s` without `p` at its start, as often as it stands there.
pub fn trim_prefixes(s: &[char], p: &str) -> (r: Vec<char>)
    ensures
        r@ == without_prefixes(s@, p@),
{
    let pat = chars_of(p);
    let mut a: usize = 0;
    assert(s@.skip(0) =~= s@);
    while pat.len() > 0 && pat.len() <= s.len() - a && matches_at(s, pat.as_slice(), a)
        invariant
            pat@ == p@,
            a <= s@.len(),
            without_prefixes(s@, p@) == without_prefixes(s@.skip(a as int), p@),
        decreases s@.len() - a,
    {
        proof {
            let rest = s@.skip(a as int);
            assert(rest.subrange(0, p@.len() as int) =~= s@.subrange(a as int, a + p@.len()));
            assert(rest.skip(p@.len() as int) =~= s@.skip(a + p@.len()));
        }
        a = a + pat.len();
    }
    proof {
        let rest = s@.skip(a as int);
        if p@.len() > 0 && begins_with(rest, p@) {
            assert(rest.subrange(0, p@.len() as int) =~= s@.subrange(a as int, a + p@.len()));
        }
        assert(rest =~= s@.subrange(a as int, s@.len() as int));
    }
    part(s, a, s.len())
}

/// `s` without `p` at its end, as often as it stands there.
pub fn trim_suffixes(s: &[char], p: &str) -> (r: Vec<char>)
    ensures
        r@ == without_suffixes(s@, p@),
{
    let pat = chars_of(p);
    let mut e: usize = s.len();
    assert(s@.take(s@.len() as int) =~= s@);
    while pat.len() > 0 && pat.len() <= e && matches_at(s, pat.as_slice(), e - pat.len())
        invariant
            pat@ == p@,
            e <= s@.len(),
            without_suffixes(s@, p@) == without_suffixes(s@.take(e as int), p@),
        decreases e,
    {
        proof {
            let rest = s@.take(e as int);
            let k = e - p@.len();
            assert(rest.subrange(k, k + p@.len()) =~= s@.subrange(k, k + p@.len()));
            assert(rest.take(k) =~= s@.take(k));
        }
        e = e - pat.len();
    }
    proof {
        let rest = s@.take(e as int);
        let k = e - p@.len();
        if p@.len() > 0 && occurs_at(rest, p@, k) {
            assert(rest.subrange(k, k + p@.len()) =~= s@.subrange(k, k + p@.len()));
        }
        assert(rest =~= s@.subrange(0, e as int));
    }
    part(s, 0, e)
}

/// What follows `p` at the start of `s`.
pub fn strip_prefix(s: &[char], p: &str) -> (r: Option<Vec<char>>)
    ensures
        match r {
            Some(rest) => after_prefix(s@, p@) == Some(rest@),
            None => after_prefix(s@, p@) is None,
        },
{
    let pat = chars_of(p);
    if has_prefix(s, p) {
        let rest = part(s, pat.len(), s.len());
        assert(rest@ =~= s@.skip(p@.len() as int));
        Some(rest)
    } else {
        None
    }
}

/// `s` without the `c`s at either end.
pub fn trim_around(s: &[char], c: char) -> (r: Vec<char>)
    ensures
        r@ == without_around(s@, c),
{
    let t = trim_end_char(s, c);
    trim_start_char(t.as_slice(), c)
}

// ── Splitting ────────────────────────────────────────────────────────────────

/// The position of the first `c` in `s`, or the length of `s` where it has none.
pub open spec fn index_of_char(s: Seq<char>, c: char) -> nat
    decreases s.len(),
{
    if s.len() == 0 || s[0] == c {
        0
    } else {
        1 + index_of_char(s.drop_first(), c)
    }
}

pub proof fn lemma_index_of_char(s: Seq<char>, c: char)
    ensures
        index_of_char(s, c) <= s.len(),
        forall|i: int| 0 <= i < index_of_char(s, c) ==> #[trigger] s[i] != c,
        index_of_char(s, c) < s.len() ==> s[index_of_char(s, c) as int] == c,
    decreases s.len(),
{
    if s.len() > 0 && s[0] != c {
        let t = s.drop_first();
        lemma_index_of_char(t, c);
        assert forall|i: int| 0 <= i < index_of_char(s, c) implies #[trigger] s[i] != c by {
            if i > 0 {
                assert(t[i - 1] == s[i]);
            }
        }
        if index_of_char(s, c) < s.len() {
            assert(t[index_of_char(t, c) as int] == s[index_of_char(s, c) as int]);
        }
    }
}

pub proof fn lemma_index_of_char_is(s: Seq<char>, c: char, k: nat)
    requires
        k <= s.len(),
        forall|i: int| 0 <= i < k ==> #[trigger] s[i] != c,
        k < s.len() ==> s[k as int] == c,
    ensures
        index_of_char(s, c) == k,
{
    lemma_index_of_char(s, c);
    if index_of_char(s, c) < k {
        assert(s[index_of_char(s, c) as int] != c);
    }
    if k < index_of_char(s, c) {
        assert(s[k as int] != c);
    }
}

/// The position of the first `c` from `a` on, or the length.
pub fn skip_to_char(s: &[char], c: char, a: usize) -> (b: usize)
    requires
        a <= s@.len(),
    ensures
        b == a + index_of_char(s@.skip(a as int), c),
        b <= s@.len(),
{
    let mut n: usize = a;
    while n < s.len() && s[n] != c
        invariant
            a <= n <= s@.len(),
            forall|i: int| a <= i < n ==> #[trigger] s@[i] != c,
        decreases s@.len() - n,
    {
        n = n + 1;
    }
    proof {
        lemma_index_of_char_is(s@.skip(a as int), c, (n - a) as nat);
    }
    n
}

/// The pieces of `s` between its `c`s; without a `c`, the whole of `s`.
pub open spec fn split_on(s: Seq<char>, c: char) -> Seq<Seq<char>>
    decreases s.len(),
{
    let k = index_of_char(s, c) as int;
    if k < 0 || k >= s.len() {
        seq![s]
    } else {
        seq![s.take(k)] + split_on(s.skip(k + 1), c)
    }
}

/// The lines of `s`: each ends before a line feed, or before the carriage
/// return in front of it; what follows the last line feed is a line unless it
/// is empty.
pub open spec fn lines(s: Seq<char>) -> Seq<Seq<char>>
    decreases s.len(),
{
    let k = index_of_char(s, '\n') as int;
    if s.len() == 0 {
        seq![]
    } else if k < 0 || k >= s.len() {
        seq![s]
    } else {
        seq![without_return(s.take(k))] + lines(s.skip(k + 1))
    }
}

/// `s` without the carriage return at its end.
pub open spec fn without_return(s: Seq<char>) -> Seq<char> {
    if s.len() > 0 && s.last() == '\r' {
        s.drop_last()
    } else {
        s
    }
}

/// The words of `s`: its longest pieces without white space.
pub open spec fn words(s: Seq<char>) -> Seq<Seq<char>>
    decreases s.len(),
    via words_terminates
{
    let t = s.skip(space_len(s) as int);
    if t.len() == 0 {
        seq![]
    } else {
        seq![t.take(word_len(t) as int)] + words(t.skip(word_len(t) as int))
    }
}

#[via_fn]
proof fn words_terminates(s: Seq<char>) {
    lemma_space_len(s);
    let t = s.skip(space_len(s) as int);
    lemma_word_len(t);
    if t.len() > 0 {
        assert(t[0] == s[space_len(s) as int]);
    }
}

/// The text is one word: not empty, and without white space.
pub open spec fn is_word(w: Seq<char>) -> bool {
    w.len() > 0 && forall|i: int| 0 <= i < w.len() ==> !is_space(#[trigger] w[i])
}

/// A word at the start, with nothing or white space behind it, is the first word.
pub proof fn lemma_words_first(w: Seq<char>, rest: Seq<char>)
    requires
        is_word(w),
        rest.len() > 0 ==> is_space(rest[0]),
    ensures
        words(w + rest) == seq![w] + words(rest),
{
    let s = w + rest;
    assert(s[0] == w[0]);
    lemma_space_len_is(s, 0);
    assert(s.skip(0) =~= s);
    assert forall|i: int| 0 <= i < w.len() implies !is_space(#[trigger] s[i]) by {
        assert(s[i] == w[i]);
    }
    lemma_word_len_is(s, w.len());
    assert(s.take(w.len() as int) =~= w);
    assert(s.skip(w.len() as int) =~= rest);
}

/// White space before a text adds no word.
pub proof fn lemma_words_after_space(c: char, s: Seq<char>)
    requires
        is_space(c),
    ensures
        words(seq![c] + s) == words(s),
{
    let t = seq![c] + s;
    assert(t.drop_first() =~= s);
    lemma_space_len(s);
    assert(t.skip(space_len(t) as int) =~= s.skip(space_len(s) as int));
}

/// The contents of a vector of character vectors.
pub open spec fn pieces(v: Seq<Vec<char>>) -> Seq<Seq<char>> {
    v.map_values(|w: Vec<char>| w@)
}

/// The pieces of `s` between its `c`s.
pub fn split(s: &[char], c: char) -> (r: Vec<Vec<char>>)
    ensures
        pieces(r@) == split_on(s@, c),
        r@.len() > 0,
{
    let mut out: Vec<Vec<char>> = Vec::new();
    let mut a: usize = 0;
    assert(s@.skip(0) == s@);
    loop
        invariant
            a <= s@.len(),
            split_on(s@, c) == pieces(out@) + split_on(s@.skip(a as int), c),
        decreases s@.len() - a,
    {
        let b = skip_to_char(s, c, a);
        let piece = part(s, a, b);
        let ghost before = out@;
        proof {
            assert(s@.subrange(a as int, b as int) == s@.skip(a as int).take(b - a));
        }
        out.push(piece);
        proof {
            assert(pieces(out@) == pieces(before).push(piece@));
        }
        if b == s.len() {
            proof {
                assert(s@.skip(a as int).take(b - a) == s@.skip(a as int));
                assert(pieces(out@) == split_on(s@, c));
            }
            return out;
        }
        proof {
            assert(s@.skip(a as int).skip(b - a + 1) == s@.skip(b + 1));
            assert(split_on(s@, c) == pieces(out@) + split_on(s@.skip(b + 1), c));
        }
        a = b + 1;
    }
}

/// The lines of `s`.
pub fn split_lines(s: &[char]) -> (r: Vec<Vec<char>>)
    ensures
        pieces(r@) == lines(s@),
{
    let mut out: Vec<Vec<char>> = Vec::new();
    let mut a: usize = 0;
    assert(s@.skip(0) == s@);
    while a < s.len()
        invariant
            a <= s@.len(),
            lines(s@) == pieces(out@) + lines(s@.skip(a as int)),
        decreases s@.len() - a,
    {
        let b = skip_to_char(s, '\n', a);
        let ghost before = out@;
        let ghost rest = s@.skip(a as int);
        if b == s.len() {
            let piece = part(s, a, b);
            out.push(piece);
            proof {
                assert(piece@ == rest);
                assert(pieces(out@) == pieces(before).push(piece@));
                assert(s@.skip(b as int) == Seq::<char>::empty());
                assert(lines(s@) == pieces(out@) + lines(s@.skip(b as int)));
            }
            a = b;
        } else {
            let e: usize = if a < b && s[b - 1] == '\r' {
                b - 1
            } else {
                b
            };
            let piece = part(s, a, e);
            out.push(piece);
            proof {
                let line = rest.take(b - a);
                if a < b {
                    assert(line.last() == s@[b - 1]);
                }
                assert(piece@ == without_return(line));
                assert(pieces(out@) == pieces(before).push(piece@));
                assert(rest.skip(b - a + 1) == s@.skip(b + 1));
                assert(lines(s@) == pieces(out@) + lines(s@.skip(b + 1)));
            }
            a = b + 1;
        }
    }
    proof {
        assert(s@.skip(a as int) == Seq::<char>::empty());
        assert(pieces(out@) == lines(s@));
    }
    out
}

/// The words of `s`.
pub fn split_words(s: &[char]) -> (r: Vec<Vec<char>>)
    ensures
        pieces(r@) == words(s@),
{
    let mut out: Vec<Vec<char>> = Vec::new();
    let mut a: usize = 0;
    assert(s@.skip(0) == s@);
    loop
        invariant
            a <= s@.len(),
            words(s@) == pieces(out@) + words(s@.skip(a as int)),
        decreases s@.len() - a,
    {
        let ghost rest = s@.skip(a as int);
        let b = skip_space(s, a);
        proof {
            assert(rest.skip(b - a) == s@.skip(b as int));
        }
        if b == s.len() {
            proof {
                assert(pieces(out@) == words(s@));
            }
            return out;
        }
        let e = skip_word(s, b);
        let piece = part(s, b, e);
        let ghost before = out@;
        let ghost t = s@.skip(b as int);
        out.push(piece);
        proof {
            lemma_space_len(rest);
            lemma_word_len(t);
            assert(t[0] == rest[b - a]);
            assert(piece@ == t.take(e - b));
            assert(pieces(out@) == pieces(before).push(piece@));
            assert(t.skip(e - b) == s@.skip(e as int));
            assert(words(s@) == pieces(out@) + words(s@.skip(e as int)));
        }
        a = e;
    }
}

// ── Letters and digits ───────────────────────────────────────────────────────

/// The ASCII lower-case form of a character; others stay as they are.
pub open spec fn lower(c: char) -> char {
    if 'A' <= c <= 'Z' {
        ((c as u32) + 32) as char
    } else {
        c
    }
}

/// `s` with its ASCII letters in lower case.
pub open spec fn lowered(s: Seq<char>) -> Seq<char> {
    s.map_values(|c: char| lower(c))
}

/// The ASCII lower-case form of a character.
pub fn to_lower(c: char) -> (r: char)
    ensures
        r == lower(c),
{
    if 'A' <= c && c <= 'Z' {
        ((c as u8) + 32) as char
    } else {
        c
    }
}

/// `s` with its ASCII letters in lower case.
pub fn lower_case(s: &[char]) -> (r: Vec<char>)
    ensures
        r@ == lowered(s@),
{
    let mut out: Vec<char> = Vec::new();
    let mut i: usize = 0;
    while i < s.len()
        invariant
            i <= s@.len(),
            out@ == lowered(s@).take(i as int),
        decreases s@.len() - i,
    {
        out.push(to_lower(s[i]));
        proof {
            assert(lowered(s@).take(i + 1) == lowered(s@).take(i as int).push(lowered(s@)[i as int]));
        }
        i = i + 1;
    }
    assert(lowered(s@).take(s@.len() as int) == lowered(s@));
    out
}

/// The digit that stands for a number below ten.
pub open spec fn digit(n: nat) -> char {
    (48 + n) as char
}

/// The character is a decimal digit.
pub open spec fn is_digit(c: char) -> bool {
    '0' <= c <= '9'
}

/// Tests whether a character is an ASCII digit.
pub fn digit_char(c: char) -> (r: bool)
    ensures
        r == is_digit(c),
{
    '0' <= c && c <= '9'
}

/// The number that a digit stands for.
pub open spec fn digit_value(c: char) -> int {
    c as int - 48
}

/// `n` in decimal, without leading zeros.
pub open spec fn decimal(n: nat) -> Seq<char>
    decreases n,
{
    if n < 10 {
        seq![digit(n)]
    } else {
        decimal(n / 10).push(digit(n % 10))
    }
}

/// Every character is a decimal digit.
pub open spec fn all_digits(s: Seq<char>) -> bool {
    forall|i: int| 0 <= i < s.len() ==> is_digit(#[trigger] s[i])
}

/// The number that a run of digits stands for.
pub open spec fn digits_value(s: Seq<char>) -> int
    decreases s.len(),
{
    if s.len() == 0 {
        0
    } else {
        digits_value(s.drop_last()) * 10 + digit_value(s.last())
    }
}

/// The unsigned number that `s` stands for: digits, after at most one plus
/// sign, with a value of at most `max`.
pub open spec fn number(s: Seq<char>, max: int) -> Option<int> {
    let d = if s.len() > 0 && s[0] == '+' {
        s.skip(1)
    } else {
        s
    };
    if d.len() > 0 && all_digits(d) && digits_value(d) <= max {
        Some(digits_value(d))
    } else {
        None
    }
}

/// `digit` gives digits, which stand for the number they were made from.
pub proof fn lemma_digit(n: nat)
    requires
        n < 10,
    ensures
        is_digit(digit(n)),
        digit_value(digit(n)) == n,
{
}

/// A number written in decimal reads back as itself.
pub proof fn lemma_decimal(n: nat)
    ensures
        decimal(n).len() > 0,
        all_digits(decimal(n)),
        digits_value(decimal(n)) == n,
    decreases n,
{
    if n < 10 {
        lemma_digit(n);
        assert(decimal(n).drop_last() == Seq::<char>::empty());
        assert(digits_value(Seq::<char>::empty()) == 0);
    } else {
        lemma_decimal(n / 10);
        lemma_digit(n % 10);
        assert(decimal(n).drop_last() == decimal(n / 10));
    }
}

/// `number` reads back what `decimal` wrote.
pub proof fn lemma_number_of_decimal(n: nat, max: int)
    requires
        n <= max,
    ensures
        number(decimal(n), max) == Some(n as int),
{
    lemma_decimal(n);
    assert(is_digit(decimal(n)[0]));
}

/// A run of digits stands for at least what its beginning stands for.
pub proof fn lemma_digits_value_grows(s: Seq<char>, i: int)
    requires
        all_digits(s),
        0 <= i <= s.len(),
    ensures
        0 <= digits_value(s.take(i)) <= digits_value(s),
    decreases s.len(),
{
    if i == s.len() {
        assert(s.take(i) == s);
        if s.len() > 0 {
            assert(is_digit(s.last()));
            lemma_digits_value_grows(s.drop_last(), s.len() - 1);
            assert(s.drop_last().take(s.len() - 1) == s.drop_last());
        }
    } else {
        assert(is_digit(s.last()));
        lemma_digits_value_grows(s.drop_last(), i);
        assert(s.drop_last().take(i) == s.take(i));
    }
}

/// Appends `n` in decimal.
pub fn push_number(out: &mut String, n: u64)
    ensures
        final(out)@ == old(out)@ + decimal(n as nat),
    decreases n,
{
    if n >= 10 {
        push_number(out, n / 10);
    }
    let d: u8 = (n % 10) as u8;
    out.push((48 + d) as char);
}

/// `n` in decimal.
pub fn number_text(n: u64) -> (r: String)
    ensures
        r@ == decimal(n as nat),
{
    let mut out = String::new();
    push_number(&mut out, n);
    proof {
        assert(Seq::<char>::empty() + decimal(n as nat) == decimal(n as nat));
    }
    out
}

/// The unsigned number of at most `max` that `s` stands for.
pub fn parse_number(s: &[char], max: u32) -> (r: Option<u32>)
    ensures
        r matches Some(n) ==> number(s@, max as int) == Some(n as int),
        r is None ==> number(s@, max as int) is None,
{
    let start: usize = if s.len() > 0 && s[0] == '+' {
        1
    } else {
        0
    };
    let ghost d = s@.skip(start as int);
    assert(start == 0 ==> d == s@);
    if start == s.len() {
        return None;
    }
    let mut value: u64 = 0;
    let mut i: usize = start;
    assert(d.take(0) == Seq::<char>::empty());
    while i < s.len()
        invariant
            start <= i <= s@.len(),
            start < s@.len(),
            d == s@.skip(start as int),
            d == (if s@.len() > 0 && s@[0] == '+' {
                s@.skip(1)
            } else {
                s@
            }),
            forall|j: int| 0 <= j < i - start ==> is_digit(#[trigger] d[j]),
            value == digits_value(d.take(i - start)),
            value <= max,
        decreases s@.len() - i,
    {
        let c = s[i];
        assert(c == d[i - start]);
        if !('0' <= c && c <= '9') {
            assert(!is_digit(d[i - start]));
            return None;
        }
        value = value * 10 + ((c as u8) - 48) as u64;
        proof {
            assert(d.take(i - start + 1).drop_last() == d.take(i - start));
            assert(d.take(i - start + 1).last() == c);
        }
        i = i + 1;
        if value > max as u64 {
            proof {
                if all_digits(d) {
                    lemma_digits_value_grows(d, i - start);
                }
            }
            return None;
        }
    }
    assert(d.take(d.len() as int) == d);
    Some(value as u32)
}

/// The port number that `s` stands for.
pub fn parse_port(s: &[char]) -> (r: Option<u16>)
    ensures
        r matches Some(n) ==> number(s@, 65535) == Some(n as int),
        r is None ==> number(s@, 65535) is None,
{
    match parse_number(s, 65535) {
        Some(n) => Some(n as u16),
        None => None,
    }
}

/// The lower-case hexadecimal digit of a number below sixteen.
pub open spec fn hex_digit(n: int) -> char {
    if n < 10 {
        (48 + n) as char
    } else {
        (87 + n) as char
    }
}

/// Two hexadecimal digits for each byte.
pub open spec fn hex(data: Seq<u8>) -> Seq<char>
    decreases data.len(),
{
    if data.len() == 0 {
        seq![]
    } else {
        hex(data.drop_last()) + seq![
            hex_digit(data.last() as int / 16),
            hex_digit(data.last() as int % 16),
        ]
    }
}

/// Hexadecimal text has two digits, and no other characters, for each byte.
pub proof fn lemma_hex(data: Seq<u8>)
    ensures
        hex(data).len() == 2 * data.len(),
        forall|i: int|
            0 <= i < hex(data).len() ==> is_digit(#[trigger] hex(data)[i]) || 'a' <= hex(data)[i]
                <= 'f',
    decreases data.len(),
{
    if data.len() > 0 {
        lemma_hex(data.drop_last());
    }
}

fn push_hex_digit(out: &mut String, n: u8)
    requires
        n < 16,
    ensures
        final(out)@ == old(out)@.push(hex_digit(n as int)),
{
    if n < 10 {
        out.push((48 + n) as char);
    } else {
        out.push((87 + n) as char);
    }
}

/// Two hexadecimal digits for each byte.
pub fn hex_text(data: &[u8]) -> (r: String)
    ensures
        r@ == hex(data@),
{
    let mut out = String::new();
    let mut i: usize = 0;
    assert(data@.take(0) == Seq::<u8>::empty());
    assert(hex(data@.take(0)) == Seq::<char>::empty());
    while i < data.len()
        invariant
            i <= data@.len(),
            out@ == hex(data@.take(i as int)),
        decreases data@.len() - i,
    {
        let b = data[i];
        push_hex_digit(&mut out, b / 16);
        push_hex_digit(&mut out, b % 16);
        proof {
            assert(data@.take(i + 1).drop_last() == data@.take(i as int));
            assert(out@ == hex(data@.take(i + 1)));
        }
        i = i + 1;
    }
    assert(data@.take(data@.len() as int) == data@);
    out
}

// ── Laws ─────────────────────────────────────────────────────────────────────

/// Digits are read to the base ten, from `0` for nothing to `9` for nine: one more digit
/// makes ten times as much and its own value.
pub proof fn law_digits_are_read_to_the_base_ten(s: Seq<char>, c: char)
    ensures
        digits_value(Seq::<char>::empty()) == 0,
        digits_value(s.push(c)) == 10 * digits_value(s) + (c as int - '0' as int),
        is_digit(c) <==> 0 <= c as int - '0' as int <= 9,
        all_digits(s.push(c)) <==> all_digits(s) && is_digit(c),
{
    assert(s.push(c).drop_last() =~= s);
    let t = s.push(c);
    if all_digits(t) {
        assert(is_digit(t[s.len() as int]));
        assert forall|i: int| 0 <= i < s.len() implies is_digit(#[trigger] s[i]) by {
            assert(t[i] == s[i]);
        }
    }
}

/// A number in decimal is digits alone, stands for that number, and has no zero in
/// front unless it is nothing but zero. So no two numbers are written alike.
pub proof fn law_decimals_stand_for_their_number(n: nat, m: nat)
    ensures
        all_digits(decimal(n)),
        digits_value(decimal(n)) == n,
        decimal(n).len() > 1 ==> decimal(n)[0] != '0',
        decimal(n) == decimal(m) ==> n == m,
    decreases n,
{
    lemma_decimal(n);
    lemma_decimal(m);
    if n >= 10 {
        law_decimals_stand_for_their_number(n / 10, 0);
        if n / 10 < 10 {
            lemma_digit(n / 10);
            assert(decimal(n / 10) =~= seq![digit(n / 10)]);
            assert(digit_value('0') == 0);
        } else {
            lemma_decimal(n / 10 / 10);
        }
        assert(decimal(n)[0] == decimal(n / 10)[0]);
    }
}

/// A text is a number if it is digits alone, after a plus sign or not, and does not
/// stand for more than is allowed; then it is the number that the digits stand for.
pub proof fn law_numbers_are_digits(d: Seq<char>, max: int)
    requires
        d.len() > 0,
        d[0] != '+',
    ensures
        number(d, max) == number(seq!['+'] + d, max),
        number(d, max) is Some <==> all_digits(d) && digits_value(d) <= max,
        number(d, max) matches Some(n) ==> n == digits_value(d),
        number(Seq::<char>::empty(), max) is None,
        number(seq!['+'], max) is None,
{
    let p = seq!['+'] + d;
    assert(p.skip(1) =~= d);
    assert(seq!['+'].skip(1) =~= Seq::<char>::empty());
}

/// Trimming takes the white space off both ends and nothing else: what is left begins
/// and ends with something else, and the text is white space, what is left, and white
/// space.
pub proof fn law_trimming_takes_the_ends_alone(s: Seq<char>)
    ensures
        exists|a: Seq<char>, b: Seq<char>|
            all_space(a) && all_space(b) && s == #[trigger] (a + trimmed(s) + b),
        trimmed(s).len() > 0 ==> !is_space(trimmed(s)[0]) && !is_space(trimmed(s).last()),
{
    let t = without_trailing_space(s);
    lemma_without_trailing_space(s);
    lemma_space_len(t);
    let k = space_len(t) as int;
    let a = t.take(k);
    let b = s.skip(t.len() as int);
    assert forall|i: int| 0 <= i < a.len() implies is_space(#[trigger] a[i]) by {
        assert(a[i] == t[i]);
    }
    assert forall|i: int| 0 <= i < b.len() implies is_space(#[trigger] b[i]) by {
        assert(b[i] == s[t.len() + i]);
    }
    assert(s =~= a + trimmed(s) + b);
    assert(all_space(a) && all_space(b));
    if trimmed(s).len() > 0 {
        assert(trimmed(s)[0] == t[k]);
        assert(trimmed(s).last() == t.last());
    }
}

/// Nothing but white space.
pub open spec fn all_space(s: Seq<char>) -> bool {
    forall|i: int| 0 <= i < s.len() ==> is_space(#[trigger] s[i])
}

proof fn lemma_without_trailing_space(s: Seq<char>)
    ensures
        without_trailing_space(s).len() <= s.len(),
        without_trailing_space(s) == s.take(without_trailing_space(s).len() as int),
        forall|i: int|
            without_trailing_space(s).len() <= i < s.len() ==> is_space(#[trigger] s[i]),
        without_trailing_space(s).len() > 0 ==> !is_space(without_trailing_space(s).last()),
    decreases s.len(),
{
    if s.len() > 0 && is_space(s.last()) {
        let r = s.drop_last();
        lemma_without_trailing_space(r);
        let n = without_trailing_space(r).len() as int;
        assert(r.take(n) =~= s.take(n));
        assert forall|i: int| n <= i < s.len() implies is_space(#[trigger] s[i]) by {
            if i < r.len() {
                assert(r[i] == s[i]);
            } else {
                assert(s[i] == s.last());
            }
        }
    } else {
        assert(s.take(s.len() as int) =~= s);
    }
}

/// A text that neither begins nor ends with white space is what trimming leaves of it,
/// with any white space around it.
pub proof fn law_trimmed_is_what_stands_between(a: Seq<char>, s: Seq<char>, b: Seq<char>)
    requires
        all_space(a),
        all_space(b),
        s.len() > 0 ==> !is_space(s[0]) && !is_space(s.last()),
    ensures
        trimmed(a + s + b) == s,
    decreases b.len(),
{
    let w = a + s + b;
    if b.len() > 0 {
        assert(w.last() == b[b.len() - 1]);
        assert(w.drop_last() =~= a + s + b.drop_last());
        assert forall|i: int| 0 <= i < b.drop_last().len() implies is_space(
            #[trigger] b.drop_last()[i],
        ) by {
            assert(b.drop_last()[i] == b[i]);
        }
        law_trimmed_is_what_stands_between(a, s, b.drop_last());
    } else {
        assert(w =~= a + s);
        if s.len() > 0 {
            assert(w.last() == s.last());
            assert(without_trailing_space(w) == w);
            assert forall|i: int| 0 <= i < a.len() implies is_space(#[trigger] w[i]) by {
                assert(w[i] == a[i]);
            }
            assert(w[a.len() as int] == s[0]);
            lemma_space_len_is(w, a.len());
            assert(w.skip(a.len() as int) =~= s);
        } else {
            lemma_without_trailing_space(w);
            let t = without_trailing_space(w);
            if t.len() > 0 {
                assert(t.last() == w[t.len() - 1]);
                assert(w[t.len() - 1] == a[t.len() - 1]);
            }
            assert(trimmed(w) =~= s);
        }
    }
}

/// The words of a text: white space parts them and does not count otherwise, and there
/// is none in nothing.
pub proof fn law_words_are_parted_by_space(w: Seq<char>, c: char, s: Seq<char>)
    requires
        is_word(w),
        is_space(c),
    ensures
        words(w + seq![c] + s) == seq![w] + words(s),
        words(seq![c] + s) == words(s),
        words(w) == seq![w],
        words(Seq::<char>::empty()) == Seq::<Seq<char>>::empty(),
{
    let e = Seq::<char>::empty();
    assert(words(e) =~= Seq::<Seq<char>>::empty()) by {
        lemma_space_len(e);
    }
    lemma_words_first(w, seq![c] + s);
    lemma_words_after_space(c, s);
    assert(w + seq![c] + s =~= w + (seq![c] + s));
    lemma_words_first(w, e);
    assert(w + e =~= w);
    assert(words(w) =~= seq![w]);
}

/// The lines of a text: a line feed ends a line, and with a carriage return before it
/// ends it before that; the last line needs none.
pub proof fn law_lines_are_ended_by_line_feeds(line: Seq<char>, rest: Seq<char>)
    requires
        forall|i: int| 0 <= i < line.len() ==> #[trigger] line[i] != '\n',
        line.len() > 0 ==> line.last() != '\r',
    ensures
        lines(line + seq!['\n'] + rest) == seq![line] + lines(rest),
        lines(line + seq!['\r', '\n'] + rest) == seq![line] + lines(rest),
        line.len() > 0 ==> lines(line) == seq![line],
        lines(Seq::<char>::empty()) == Seq::<Seq<char>>::empty(),
{
    let a = line + seq!['\n'] + rest;
    let n = line.len() as int;
    assert forall|i: int| 0 <= i < n implies #[trigger] a[i] != '\n' by {
        assert(a[i] == line[i]);
    }
    lemma_index_of_char_is(a, '\n', n as nat);
    assert(a.take(n) =~= line);
    assert(a.skip(n + 1) =~= rest);
    let b = line + seq!['\r', '\n'] + rest;
    assert forall|i: int| 0 <= i < n + 1 implies #[trigger] b[i] != '\n' by {
        if i < n {
            assert(b[i] == line[i]);
        }
    }
    lemma_index_of_char_is(b, '\n', (n + 1) as nat);
    assert(b.take(n + 1) =~= line.push('\r'));
    assert(line.push('\r').drop_last() =~= line);
    assert(b.skip(n + 2) =~= rest);
    lemma_index_of_char_is(line, '\n', n as nat);
}

/// The pieces between marks: a mark ends a piece, and what holds none is one piece.
pub proof fn law_pieces_are_parted_by_marks(piece: Seq<char>, c: char, rest: Seq<char>)
    requires
        forall|i: int| 0 <= i < piece.len() ==> #[trigger] piece[i] != c,
    ensures
        split_on(piece + seq![c] + rest, c) == seq![piece] + split_on(rest, c),
        split_on(piece, c) == seq![piece],
{
    let a = piece + seq![c] + rest;
    let n = piece.len() as int;
    assert forall|i: int| 0 <= i < n implies #[trigger] a[i] != c by {
        assert(a[i] == piece[i]);
    }
    lemma_index_of_char_is(a, c, n as nat);
    assert(a.take(n) =~= piece);
    assert(a.skip(n + 1) =~= rest);
    lemma_index_of_char_is(piece, c, n as nat);
}

/// Marks around a text are taken off, all of them, and the text itself is left alone.
pub proof fn law_marks_around_are_taken_off(s: Seq<char>, c: char, n: nat, m: nat)
    requires
        s.len() > 0,
        s[0] != c,
        s.last() != c,
    ensures
        without_trailing(s + Seq::new(n, |i: int| c), c) == s,
        without_around(Seq::new(m, |i: int| c) + s + Seq::new(n, |i: int| c), c) == s,
{
    let lead = Seq::new(m, |i: int| c);
    lemma_trailing_marks(s, c, n);
    assert((lead + s).last() == s.last());
    lemma_trailing_marks(lead + s, c, n);
    lemma_leading_marks(s, c, m);
}

proof fn lemma_trailing_marks(s: Seq<char>, c: char, n: nat)
    requires
        s.len() > 0,
        s.last() != c,
    ensures
        without_trailing(s + Seq::new(n, |i: int| c), c) == s,
    decreases n,
{
    let t = s + Seq::new(n, |i: int| c);
    if n > 0 {
        assert(t.last() == c);
        assert(t.drop_last() =~= s + Seq::new((n - 1) as nat, |i: int| c));
        lemma_trailing_marks(s, c, (n - 1) as nat);
    } else {
        assert(t =~= s);
    }
}

proof fn lemma_leading_marks(s: Seq<char>, c: char, n: nat)
    requires
        s.len() > 0,
        s[0] != c,
    ensures
        without_leading(Seq::new(n, |i: int| c) + s, c) == s,
    decreases n,
{
    let t = Seq::new(n, |i: int| c) + s;
    if n > 0 {
        assert(t[0] == c);
        assert(t.drop_first() =~= Seq::new((n - 1) as nat, |i: int| c) + s);
        lemma_leading_marks(s, c, (n - 1) as nat);
    } else {
        assert(t =~= s);
    }
}

/// Lower case: each of the 26 capitals becomes its small letter, everything else stays.
pub proof fn law_capitals_become_small(i: nat, c: char)
    requires
        i < 26,
    ensures
        lower(('A' as u32 + i) as char) == ('a' as u32 + i) as char,
        !('A' <= c <= 'Z') ==> lower(c) == c,
        lower(lower(c)) == lower(c),
{
}

/// A text is found where it stands first, and not where it does not stand.
pub proof fn law_texts_are_found_where_they_stand(a: Seq<char>, p: Seq<char>, b: Seq<char>)
    ensures
        contains_text(a + p + b, p),
        begins_with(p + b, p),
        find(a + p + b, p) matches Some(k) && k <= a.len() && occurs_at(a + p + b, p, k),
        after_prefix(p + b, p) == Some(b),
{
    let s = a + p + b;
    assert(s.subrange(a.len() as int, a.len() as int + p.len()) =~= p);
    assert(occurs_at(s, p, a.len() as int));
    lemma_find_from(s, p, 0);
    assert((p + b).subrange(0, p.len() as int) =~= p);
    assert((p + b).skip(p.len() as int) =~= b);
}

/// What follows the last mark is what holds none and stands behind one, or alone.
pub proof fn law_last_piece_is_found(a: Seq<char>, c: char, piece: Seq<char>)
    requires
        forall|i: int| 0 <= i < piece.len() ==> #[trigger] piece[i] != c,
    ensures
        after_last(a + seq![c] + piece, c) == piece,
        after_last(piece, c) == piece,
{
    let s = a + seq![c] + piece;
    let k = a.len() + 1;
    assert forall|i: int| k <= i < s.len() implies #[trigger] s[i] != c by {
        assert(s[i] == piece[i - k]);
    }
    lemma_after_last_is(s, c, k as int);
    assert(s.skip(k as int) =~= piece);
    lemma_after_last_is(piece, c, 0);
    assert(piece.skip(0) =~= piece);
}

/// The number that a lower-case hexadecimal digit stands for.
pub open spec fn hex_value(c: char) -> int {
    if is_digit(c) {
        c as int - '0' as int
    } else {
        10 + (c as int - 'a' as int)
    }
}

/// Bytes in hexadecimal can be read back: each is written behind those before it, in
/// two digits, of which the first stands for sixteens.
pub proof fn law_hexadecimals_stand_for_their_bytes(data: Seq<u8>, b: u8)
    ensures
        hex(data.push(b)).len() == hex(data).len() + 2,
        hex(data.push(b)).take(hex(data).len() as int) == hex(data),
        ({
            let x = hex(data.push(b))[hex(data).len() as int];
            let y = hex(data.push(b))[hex(data).len() as int + 1];
            hex_value(x) * 16 + hex_value(y) == b
        }),
        hex(Seq::<u8>::empty()).len() == 0,
{
    assert(data.push(b).drop_last() =~= data);
    let h = hex(data.push(b));
    assert(h.take(hex(data).len() as int) =~= hex(data));
    assert(h[hex(data).len() as int] == hex_digit(b as int / 16));
    assert(h[hex(data).len() as int + 1] == hex_digit(b as int % 16));
    assert(hex_value(hex_digit(b as int / 16)) == b as int / 16);
    assert(hex_value(hex_digit(b as int % 16)) == b as int % 16);
}

/// Of the ASCII characters the space and the five controls from the tab to the carriage
/// return are white space; no letter, digit or mark is.
pub proof fn law_ascii_space(c: char)
    requires
        (c as u32) < 128,
    ensures
        is_space(c) <==> c == ' ' || 9 <= c as u32 <= 13,
{
}

/// White space is what Unicode calls so: the controls from 9 to 13, the next line, and the
/// spaces and separators.
pub proof fn law_unicode_space(c: char)
    ensures
        is_space(c) <==> {
            let n = c as int;
            ||| 9 <= n <= 13
            ||| n == 32
            ||| n == 133
            ||| n == 160
            ||| n == 5760
            ||| 8192 <= n <= 8202
            ||| n == 8232
            ||| n == 8233
            ||| n == 8239
            ||| n == 8287
            ||| n == 12288
        },
{
}

/// A beginning that is taken off is taken off as often as it stands there, be it one
/// character long; nothing else is taken off. So it is with an end.
pub proof fn law_beginnings_and_ends_are_taken_off(s: Seq<char>, p: Seq<char>)
    requires
        p.len() > 0,
    ensures
        without_prefixes(p + s, p) == without_prefixes(s, p),
        !begins_with(s, p) ==> without_prefixes(s, p) == s,
        without_suffixes(s + p, p) == without_suffixes(s, p),
        !occurs_at(s, p, s.len() - p.len()) ==> without_suffixes(s, p) == s,
{
    let a = p + s;
    assert(a.subrange(0, p.len() as int) =~= p);
    assert(a.skip(p.len() as int) =~= s);
    assert(begins_with(a, p));
    let b = s + p;
    assert(b.subrange(s.len() as int, s.len() as int + p.len()) =~= p);
    assert(occurs_at(b, p, b.len() - p.len()));
    assert(b.take(b.len() - p.len()) =~= s);
}

} // verus!
