//! Text as the library reads it: a sequence of `char`s, searched by
//! position. The spec functions here say what a search or a trim finds;
//! the executable ones compute it over a `Vec<char>` copy of the text.

use vstd::prelude::*;
use vstd::string::*;
use vstd::utf8::*;

verus! {

/// The Unicode `White_Space` characters: what `str::trim` and
/// `char::is_whitespace` take for white space.
pub open spec fn is_space(c: char) -> bool {
    ||| c == '\t'
    ||| c == '\n'
    ||| c == '\x0B'
    ||| c == '\x0C'
    ||| c == '\r'
    ||| c == ' '
    ||| c == '\u{85}'
    ||| c == '\u{a0}'
    ||| c == '\u{1680}'
    ||| ('\u{2000}' <= c && c <= '\u{200a}')
    ||| c == '\u{2028}'
    ||| c == '\u{2029}'
    ||| c == '\u{202f}'
    ||| c == '\u{205f}'
    ||| c == '\u{3000}'
}

/// Whether `c` is white space.
pub fn space(c: char) -> (r: bool)
    ensures
        r == is_space(c),
{
    c == '\t' || c == '\n' || c == '\x0B' || c == '\x0C' || c == '\r' || c == ' ' || c
        == '\u{85}' || c == '\u{a0}' || c == '\u{1680}' || ('\u{2000}' <= c && c <= '\u{200a}')
        || c == '\u{2028}' || c == '\u{2029}' || c == '\u{202f}' || c == '\u{205f}' || c
        == '\u{3000}'
}

/// Whether some character of `s` is white space.
pub open spec fn has_space(s: Seq<char>) -> bool {
    exists|k: int| 0 <= k < s.len() && is_space(#[trigger] s[k])
}

/// `p` stands in `s` at `i`.
pub open spec fn matches_at(s: Seq<char>, p: Seq<char>, i: int) -> bool {
    &&& 0 <= i
    &&& i + p.len() <= s.len()
    &&& forall|k: int| 0 <= k < p.len() ==> s[i + k] == #[trigger] p[k]
}

/// The first position at or after `i` where `p` stands in `s` and ends by
/// `hi`.
pub open spec fn find_in(s: Seq<char>, p: Seq<char>, i: int, hi: int) -> Option<int>
    decreases hi - i,
{
    if i < 0 || i + p.len() > hi {
        None
    } else if matches_at(s, p, i) {
        Some(i)
    } else if i >= hi {
        None
    } else {
        find_in(s, p, i + 1, hi)
    }
}

/// Where `p` stands at `k` and nowhere in the window before it, that is
/// what `find_in` gives.
pub proof fn lemma_find_in_at(s: Seq<char>, p: Seq<char>, i: int, hi: int, k: int)
    requires
        0 <= i <= k,
        k + p.len() <= hi,
        matches_at(s, p, k),
        forall|j: int| i <= j < k ==> !matches_at(s, p, j),
    ensures
        find_in(s, p, i, hi) == Some(k),
    decreases k - i,
{
    if i < k {
        lemma_find_in_at(s, p, i + 1, hi, k);
    }
}

/// A position `find_in` gives is where `p` stands, within the window, and
/// `p` stands nowhere before it.
pub proof fn lemma_find_in(s: Seq<char>, p: Seq<char>, i: int, hi: int)
    requires
        0 <= i,
    ensures
        find_in(s, p, i, hi) matches Some(k) ==> {
            &&& i <= k
            &&& k + p.len() <= hi
            &&& matches_at(s, p, k)
            &&& forall|j: int| i <= j < k ==> !matches_at(s, p, j)
        },
        find_in(s, p, i, hi) is None ==> forall|j: int|
            i <= j && j + p.len() <= hi ==> !matches_at(s, p, j),
    decreases hi - i,
{
    if i < 0 || i + p.len() > hi {
    } else if matches_at(s, p, i) {
    } else if i >= hi {
    } else {
        lemma_find_in(s, p, i + 1, hi);
    }
}

/// The first position of `p` in `s`.
pub open spec fn find(s: Seq<char>, p: Seq<char>) -> Option<int> {
    find_in(s, p, 0, s.len() as int)
}

/// The last position at or before `i` where `p` stands in `s`.
pub open spec fn rfind_to(s: Seq<char>, p: Seq<char>, i: int) -> Option<int>
    decreases i + 1,
{
    if i < 0 {
        None
    } else if matches_at(s, p, i) {
        Some(i)
    } else {
        rfind_to(s, p, i - 1)
    }
}

/// The last position of `p` in `s`.
pub open spec fn rfind(s: Seq<char>, p: Seq<char>) -> Option<int> {
    rfind_to(s, p, s.len() - p.len())
}

/// A position `rfind_to` gives is where `p` stands in `s`.
pub proof fn lemma_rfind_to(s: Seq<char>, p: Seq<char>, i: int)
    ensures
        rfind_to(s, p, i) matches Some(k) ==> 0 <= k <= i && matches_at(s, p, k),
    decreases i + 1,
{
    if i >= 0 && !matches_at(s, p, i) {
        lemma_rfind_to(s, p, i - 1);
    }
}

/// A position `rfind` gives is where `p` stands in `s`.
pub proof fn lemma_rfind(s: Seq<char>, p: Seq<char>)
    ensures
        rfind(s, p) matches Some(k) ==> 0 <= k && k + p.len() <= s.len() && matches_at(s, p, k),
{
    lemma_rfind_to(s, p, s.len() - p.len());
}

/// The first position at or after `lo`, before `hi`, that is not white
/// space; `hi` where there is none.
pub open spec fn skip_space(s: Seq<char>, lo: int, hi: int) -> int
    decreases hi - lo,
{
    if lo < hi && is_space(s[lo]) {
        skip_space(s, lo + 1, hi)
    } else {
        lo
    }
}

/// The end of `s[lo..hi]` once the white space at its end is dropped.
pub open spec fn drop_space(s: Seq<char>, lo: int, hi: int) -> int
    decreases hi - lo,
{
    if lo < hi && is_space(s[hi - 1]) {
        drop_space(s, lo, hi - 1)
    } else {
        hi
    }
}

/// Skipping white space stays within the window.
pub proof fn lemma_skip_space(s: Seq<char>, lo: int, hi: int)
    requires
        lo <= hi,
    ensures
        lo <= skip_space(s, lo, hi) <= hi,
        forall|k: int| lo <= k < skip_space(s, lo, hi) ==> is_space(#[trigger] s[k]),
        skip_space(s, lo, hi) < hi ==> !is_space(s[skip_space(s, lo, hi)]),
    decreases hi - lo,
{
    if lo < hi && is_space(s[lo]) {
        lemma_skip_space(s, lo + 1, hi);
    }
}

/// Dropping white space stays within the window.
pub proof fn lemma_drop_space(s: Seq<char>, lo: int, hi: int)
    requires
        lo <= hi,
    ensures
        lo <= drop_space(s, lo, hi) <= hi,
        forall|k: int| drop_space(s, lo, hi) <= k < hi ==> is_space(#[trigger] s[k]),
        lo < drop_space(s, lo, hi) ==> !is_space(s[drop_space(s, lo, hi) - 1]),
    decreases hi - lo,
{
    if lo < hi && is_space(s[hi - 1]) {
        lemma_drop_space(s, lo, hi - 1);
    }
}

/// `s` with the white space around it trimmed.
pub open spec fn trim(s: Seq<char>) -> Seq<char> {
    let a = skip_space(s, 0, s.len() as int);
    s.subrange(a, drop_space(s, a, s.len() as int))
}

/// `String::push` appends one `char` to the end of the string.
pub assume_specification[ String::push ](s: &mut String, ch: char)
    ensures
        final(s)@ == old(s)@.push(ch),
;

/// `std::str::from_utf8`: the bytes as text where they are UTF-8. The
/// contract claims that it returns text exactly where the bytes are
/// valid UTF-8 (as `vstd::utf8::valid_utf8` defines it), and that the
/// text it returns is made of those very bytes.
#[verifier::external_body]
pub(crate) fn utf8(bytes: &[u8]) -> (r: Option<&str>)
    ensures
        r is Some <==> valid_utf8(bytes@),
        r matches Some(t) ==> t.spec_bytes() == bytes@,
{
    std::str::from_utf8(bytes).ok()
}

/// The text `utf8` gives back is what the bytes decode to.
pub proof fn lemma_utf8_text(t: &str, bytes: Seq<u8>)
    requires
        t.spec_bytes() == bytes,
    ensures
        valid_utf8(bytes),
        t@ == decode_utf8(bytes),
{
    encode_utf8_valid_utf8(t@);
    encode_utf8_decode_utf8(t@);
}

/// The spec view of an index found by an executable search.
pub open spec fn at(r: Option<usize>) -> Option<int> {
    match r {
        Some(k) => Some(k as int),
        None => None,
    }
}

/// The characters of `s`, in order.
pub fn chars_of(s: &str) -> (v: Vec<char>)
    ensures
        v@ == s@,
{
    let mut v: Vec<char> = Vec::new();
    for c in it: s.chars()
        invariant
            it.seq() == s@,
            v@ == it.seq().take(it.index() as int),
    {
        v.push(c);
    }
    v
}

/// Whether `p` stands in `s` at `i`.
pub fn matches_exec(s: &Vec<char>, p: &Vec<char>, i: usize) -> (r: bool)
    ensures
        r == matches_at(s@, p@, i as int),
{
    if i > s.len() || p.len() > s.len() - i {
        return false;
    }
    let mut k: usize = 0;
    while k < p.len()
        invariant
            i + p.len() <= s.len(),
            k <= p.len(),
            forall|j: int| 0 <= j < k ==> s@[i + j] == #[trigger] p@[j],
        decreases p.len() - k,
    {
        if s[i + k] != p[k] {
            return false;
        }
        k = k + 1;
    }
    true
}

/// The first position of `p` in `s[i..hi]`.
pub fn find_exec(s: &Vec<char>, p: &Vec<char>, i: usize, hi: usize) -> (r: Option<usize>)
    requires
        hi <= s.len(),
    ensures
        at(r) == find_in(s@, p@, i as int, hi as int),
        r matches Some(k) ==> i <= k && k + p.len() <= hi && matches_at(s@, p@, k as int),
{
    proof {
        lemma_find_in(s@, p@, i as int, hi as int);
    }
    let mut k = i;
    while k <= hi && p.len() <= hi - k
        invariant
            i <= k,
            hi <= s.len(),
            find_in(s@, p@, i as int, hi as int) == find_in(s@, p@, k as int, hi as int),
        decreases hi - k,
    {
        if matches_exec(s, p, k) {
            return Some(k);
        }
        k = k + 1;
    }
    None
}

/// The last position of `p` in `s`.
pub fn rfind_exec(s: &Vec<char>, p: &Vec<char>) -> (r: Option<usize>)
    ensures
        at(r) == rfind(s@, p@),
{
    if p.len() > s.len() {
        return None;
    }
    let mut k = s.len() - p.len();
    loop
        invariant
            k + p.len() <= s.len(),
            rfind(s@, p@) == rfind_to(s@, p@, k as int),
        decreases k,
    {
        if matches_exec(s, p, k) {
            return Some(k);
        }
        if k == 0 {
            assert(rfind_to(s@, p@, -1) is None);
            return None;
        }
        k = k - 1;
    }
}

/// The first position at or after `lo`, before `hi`, that is not white
/// space.
pub fn skip_space_exec(s: &Vec<char>, lo: usize, hi: usize) -> (r: usize)
    requires
        hi <= s.len(),
    ensures
        r == skip_space(s@, lo as int, hi as int),
{
    let mut k = lo;
    while k < hi && space(s[k])
        invariant
            hi <= s.len(),
            skip_space(s@, lo as int, hi as int) == skip_space(s@, k as int, hi as int),
        decreases hi - k,
    {
        k = k + 1;
    }
    k
}

/// The end of `s[lo..hi]` once the white space at its end is dropped.
pub fn drop_space_exec(s: &Vec<char>, lo: usize, hi: usize) -> (r: usize)
    requires
        hi <= s.len(),
    ensures
        r == drop_space(s@, lo as int, hi as int),
{
    let mut k = hi;
    while lo < k && space(s[k - 1])
        invariant
            k <= hi <= s.len(),
            drop_space(s@, lo as int, hi as int) == drop_space(s@, lo as int, k as int),
        decreases k,
    {
        k = k - 1;
    }
    k
}

/// `a` followed by `b`.
pub fn join(a: &str, b: &str) -> (r: String)
    ensures
        r@ == a@ + b@,
{
    let mut r = a.to_owned();
    r.append(b);
    r
}

/// The UTF-8 bytes of `s`.
pub fn bytes_of(s: &str) -> (r: Vec<u8>)
    ensures
        r@ == encode_utf8(s@),
{
    s.as_bytes_vec()
}

} // verus!
