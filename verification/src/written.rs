//! XML as this library writes it: a sequence of pieces (the declaration,
//! start tags with or without one attribute, closing tags, text, and the
//! business document as it stands), and what the reading of
//! [`crate::xml`] finds in such a sequence.

use vstd::prelude::*;
use vstd::string::*;

use crate::text::{find, find_in, is_space, lemma_find_in, lemma_find_in_at, matches_at};
use crate::xml::{
    after_colon, closing, element_at, element_in, ends_name, name_end, start_tag, tag_in,
};

verus! {

/// One piece of written XML.
pub enum Piece {
    /// `<?xml version="1.0" encoding="UTF-8"?>`
    Declaration,
    /// `<name>`
    Open(Seq<char>),
    /// `<name attribute="value">`
    Attributed(Seq<char>, Seq<char>, Seq<char>),
    /// `</name>`
    Close(Seq<char>),
    /// Text with no markup character in it.
    Text(Seq<char>),
    /// Text as it stands.
    Raw(Seq<char>),
}

/// The XML declaration this library writes.
pub open spec fn declaration() -> Seq<char> {
    "<?xml version=\"1.0\" encoding=\"UTF-8\"?>"@
}

/// The characters of one piece.
pub open spec fn piece_text(p: Piece) -> Seq<char> {
    match p {
        Piece::Declaration => declaration(),
        Piece::Open(n) => seq!['<'] + n + seq!['>'],
        Piece::Attributed(n, a, v) => seq!['<'] + n + seq![' '] + a + seq!['=', '"'] + v + seq![
            '"',
            '>',
        ],
        Piece::Close(n) => seq!['<', '/'] + n + seq!['>'],
        Piece::Text(x) => x,
        Piece::Raw(x) => x,
    }
}

/// The characters of the pieces, in order.
pub open spec fn render(ps: Seq<Piece>) -> Seq<char>
    decreases ps.len(),
{
    if ps.len() == 0 {
        seq![]
    } else {
        render(ps.drop_last()) + piece_text(ps.last())
    }
}

/// Where the piece `k` begins in the rendering of `ps`.
pub open spec fn start(ps: Seq<Piece>, k: int) -> int {
    render(ps.take(k)).len() as int
}

/// A character that may stand in a name this library writes.
pub open spec fn name_char(c: char) -> bool {
    !ends_name(c) && c != ':' && c != '<' && c != '"' && c != '=' && c != '?' && c != '!'
}

/// A name this library writes: not empty, of name characters.
pub open spec fn plain_name(n: Seq<char>) -> bool {
    n.len() > 0 && forall|i: int| 0 <= i < n.len() ==> name_char(#[trigger] n[i])
}

/// Text with no markup character in it.
pub open spec fn plain_text(x: Seq<char>) -> bool {
    forall|i: int| 0 <= i < x.len() ==> (#[trigger] x[i]) != '<' && x[i] != '>' && x[i] != '"'
}

/// A piece as this library writes it.
pub open spec fn wf_piece(p: Piece) -> bool {
    match p {
        Piece::Declaration => true,
        Piece::Open(n) => plain_name(n),
        Piece::Attributed(n, a, v) => plain_name(n) && plain_name(a) && plain_text(v),
        Piece::Close(n) => plain_name(n),
        Piece::Text(x) => plain_text(x),
        Piece::Raw(x) => true,
    }
}

/// Every piece as this library writes it.
pub open spec fn wf_pieces(ps: Seq<Piece>) -> bool {
    forall|k: int| 0 <= k < ps.len() ==> wf_piece(#[trigger] ps[k])
}

/// A piece that opens an element named `n`.
pub open spec fn opens(p: Piece, n: Seq<char>) -> bool {
    match p {
        Piece::Open(m) => m == n,
        Piece::Attributed(m, _, _) => m == n,
        _ => false,
    }
}

/// Rendering two runs of pieces renders one after the other.
pub proof fn lemma_render_add(a: Seq<Piece>, b: Seq<Piece>)
    ensures
        render(a + b) == render(a) + render(b),
    decreases b.len(),
{
    if b.len() == 0 {
        assert(a + b =~= a);
    } else {
        lemma_render_add(a, b.drop_last());
        assert((a + b).drop_last() =~= a + b.drop_last());
        assert((a + b).last() == b.last());
    }
}

/// Where a piece stands in the rendering, its characters are.
pub proof fn lemma_piece_at(ps: Seq<Piece>, k: int)
    requires
        0 <= k < ps.len(),
    ensures
        start(ps, k + 1) == start(ps, k) + piece_text(ps[k]).len(),
        start(ps, k + 1) <= render(ps).len(),
        forall|j: int|
            0 <= j < piece_text(ps[k]).len() ==> render(ps)[start(ps, k) + j] == #[trigger] piece_text(
                ps[k],
            )[j],
{
    let head = ps.take(k);
    let tail = ps.skip(k + 1);
    assert(ps.take(k + 1).drop_last() =~= head);
    assert(ps.take(k + 1).last() == ps[k]);
    assert(ps =~= ps.take(k + 1) + tail);
    lemma_render_add(ps.take(k + 1), tail);
    assert forall|j: int| 0 <= j < piece_text(ps[k]).len() implies render(ps)[start(ps, k) + j]
        == #[trigger] piece_text(ps[k])[j] by {
        assert(render(ps.take(k + 1))[start(ps, k) + j] == piece_text(ps[k])[j]);
    }
}

/// The pieces begin in order.
pub proof fn lemma_start_mono(ps: Seq<Piece>, k: int, m: int)
    requires
        0 <= k <= m <= ps.len(),
    ensures
        start(ps, k) <= start(ps, m),
        start(ps, m) <= render(ps).len(),
    decreases m - k,
{
    if k < m {
        lemma_piece_at(ps, m - 1);
        lemma_start_mono(ps, k, m - 1);
    } else {
        if m < ps.len() {
            lemma_piece_at(ps, m);
        } else {
            assert(ps.take(m) =~= ps);
        }
    }
}

/// Every character of the rendering lies in one piece.
pub proof fn lemma_locate(ps: Seq<Piece>, lo: int, hi: int, j: int) -> (m: int)
    requires
        0 <= lo <= hi <= ps.len(),
        start(ps, lo) <= j < start(ps, hi),
    ensures
        lo <= m < hi,
        start(ps, m) <= j < start(ps, m + 1),
    decreases hi - lo,
{
    lemma_start_mono(ps, lo + 1, hi);
    lemma_piece_at(ps, lo);
    if j < start(ps, lo + 1) {
        lo
    } else {
        lemma_locate(ps, lo + 1, hi, j)
    }
}

/// A name ends where the first name-ending character stands.
pub proof fn lemma_name_end_at(s: Seq<char>, j: int, e: int, hi: int)
    requires
        j <= e < hi,
        forall|x: int| j <= x < e ==> !ends_name(#[trigger] s[x]),
        ends_name(s[e]),
    ensures
        name_end(s, j, hi) == e,
    decreases e - j,
{
    if j < e {
        lemma_name_end_at(s, j + 1, e, hi);
    }
}

/// A name with no colon is its own local part.
pub proof fn lemma_after_colon_none(s: Seq<char>, a: int, q: int)
    requires
        a <= q,
        forall|x: int| a <= x < q ==> #[trigger] s[x] != ':',
    ensures
        after_colon(s, a, q) == a,
    decreases q - a,
{
    if a < q {
        lemma_after_colon_none(s, a, q - 1);
    }
}

/// The characters of the declaration.
pub proof fn lemma_declaration()
    ensures
        declaration().len() == 38,
        declaration()[0] == '<',
        declaration()[1] == '?',
        declaration()[5] == ' ',
        forall|j: int| 1 <= j < 38 ==> #[trigger] declaration()[j] != '<',
        forall|j: int| 1 <= j < 5 ==> !ends_name(#[trigger] declaration()[j]),
        forall|j: int| 1 <= j < 5 ==> #[trigger] declaration()[j] != ':',
{
    reveal_strlit("<?xml version=\"1.0\" encoding=\"UTF-8\"?>");
}

/// Within a written piece other than text as it stands, `<` stands only
/// at its first character, and not even there in text.
pub proof fn lemma_no_lt(p: Piece, j: int)
    requires
        wf_piece(p),
        !(p is Raw),
        0 <= j < piece_text(p).len(),
        j > 0 || p is Text,
    ensures
        piece_text(p)[j] != '<',
{
    match p {
        Piece::Declaration => {
            lemma_declaration();
        },
        Piece::Open(n) => {
            if 1 <= j < 1 + n.len() {
                assert(piece_text(p)[j] == n[j - 1]);
            }
        },
        Piece::Attributed(n, a, v) => {
            let t = piece_text(p);
            if 1 <= j < 1 + n.len() {
                assert(t[j] == n[j - 1]);
            } else if 2 + n.len() <= j < 2 + n.len() + a.len() {
                assert(t[j] == a[j - 2 - n.len()]);
            } else if 4 + n.len() + a.len() <= j < 4 + n.len() + a.len() + v.len() {
                assert(t[j] == v[j - 4 - n.len() - a.len()]);
            }
        },
        Piece::Close(n) => {
            if 2 <= j < 2 + n.len() {
                assert(piece_text(p)[j] == n[j - 2]);
            }
        },
        Piece::Text(x) => {},
        Piece::Raw(x) => {},
    }
}

/// No element named `n` starts at a piece that does not open one.
pub proof fn lemma_no_start_tag(ps: Seq<Piece>, k: int, hi: int, n: Seq<char>)
    requires
        0 <= k < ps.len(),
        wf_piece(ps[k]),
        !(ps[k] is Raw),
        !opens(ps[k], n),
        plain_name(n),
        start(ps, k) < start(ps, k + 1) <= hi <= render(ps).len(),
    ensures
        start_tag(render(ps), start(ps, k), hi, n) is None,
{
    let s = render(ps);
    let i = start(ps, k);
    let p = ps[k];
    let t = piece_text(p);
    lemma_piece_at(ps, k);
    if t.len() > 0 && s[i] == '<' && i < hi {
        match p {
            Piece::Declaration => {
                lemma_declaration();
                assert forall|x: int| i + 1 <= x < i + 5 implies !ends_name(#[trigger] s[x]) by {
                    assert(s[x] == t[x - i]);
                }
                assert(s[i + 5] == t[5]);
                lemma_name_end_at(s, i + 1, i + 5, hi);
                assert forall|x: int| i + 1 <= x < i + 5 implies #[trigger] s[x] != ':' by {
                    assert(s[x] == t[x - i]);
                }
                lemma_after_colon_none(s, i + 1, i + 5);
                if 4 == n.len() && matches_at(s, n, i + 1) {
                    assert(s[i + 1 + 0] == n[0]);
                    assert(s[i + 1] == t[1]);
                    assert(name_char(n[0]));
                }
            },
            Piece::Open(m) => {
                assert forall|x: int| i + 1 <= x < i + 1 + m.len() implies !ends_name(
                    #[trigger] s[x],
                ) && s[x] != ':' by {
                    assert(s[x] == t[x - i]);
                    assert(t[x - i] == m[x - i - 1]);
                    assert(name_char(m[x - i - 1]));
                }
                assert(s[i + 1 + m.len()] == t[1 + m.len() as int]);
                lemma_name_end_at(s, i + 1, i + 1 + m.len(), hi);
                lemma_after_colon_none(s, i + 1, i + 1 + m.len());
                if m.len() == n.len() && matches_at(s, n, i + 1) {
                    assert forall|x: int| 0 <= x < m.len() implies m[x] == n[x] by {
                        assert(s[i + 1 + x] == n[x]);
                        assert(s[i + 1 + x] == t[1 + x]);
                    }
                    assert(m =~= n);
                }
            },
            Piece::Attributed(m, a, v) => {
                assert forall|x: int| i + 1 <= x < i + 1 + m.len() implies !ends_name(
                    #[trigger] s[x],
                ) && s[x] != ':' by {
                    assert(s[x] == t[x - i]);
                    assert(t[x - i] == m[x - i - 1]);
                    assert(name_char(m[x - i - 1]));
                }
                assert(s[i + 1 + m.len()] == t[1 + m.len() as int]);
                lemma_name_end_at(s, i + 1, i + 1 + m.len(), hi);
                lemma_after_colon_none(s, i + 1, i + 1 + m.len());
                if m.len() == n.len() && matches_at(s, n, i + 1) {
                    assert forall|x: int| 0 <= x < m.len() implies m[x] == n[x] by {
                        assert(s[i + 1 + x] == n[x]);
                        assert(s[i + 1 + x] == t[1 + x]);
                    }
                    assert(m =~= n);
                }
            },
            Piece::Close(m) => {
                assert(s[i + 1] == t[1]);
                lemma_name_end_at(s, i + 1, i + 1, hi);
                lemma_after_colon_none(s, i + 1, i + 1);
            },
            Piece::Text(x) => {
                assert(s[i] == t[0]);
                lemma_no_lt(p, 0);
            },
            Piece::Raw(x) => {},
        }
    }
}

/// No element named `n` starts anywhere within a piece that does not
/// open one.
pub proof fn lemma_no_start_tag_within(ps: Seq<Piece>, k: int, hi: int, n: Seq<char>, j: int)
    requires
        0 <= k < ps.len(),
        wf_piece(ps[k]),
        !(ps[k] is Raw),
        !opens(ps[k], n),
        plain_name(n),
        start(ps, k + 1) <= hi <= render(ps).len(),
        start(ps, k) <= j < start(ps, k + 1),
    ensures
        start_tag(render(ps), j, hi, n) is None,
        element_at(render(ps), j, hi, n) is None,
{
    lemma_piece_at(ps, k);
    if j == start(ps, k) {
        lemma_no_start_tag(ps, k, hi, n);
    } else {
        lemma_no_lt(ps[k], j - start(ps, k));
        assert(render(ps)[j] == piece_text(ps[k])[j - start(ps, k)]);
    }
}

/// A search from `lo` for an element that does not start before `m`
/// goes on from `m`.
pub proof fn lemma_element_in_skip(s: Seq<char>, lo: int, m: int, hi: int, n: Seq<char>)
    requires
        0 <= lo <= m <= hi,
        forall|j: int| lo <= j < m ==> (#[trigger] element_at(s, j, hi, n)) is None,
    ensures
        element_in(s, lo, hi, n) == element_in(s, m, hi, n),
    decreases m - lo,
{
    if lo < m {
        assert(element_at(s, lo, hi, n) is None);
        lemma_element_in_skip(s, lo + 1, m, hi, n);
    }
}

/// A search from `lo` for a start tag that does not stand before `m`
/// goes on from `m`.
pub proof fn lemma_tag_in_skip(s: Seq<char>, lo: int, m: int, hi: int, n: Seq<char>)
    requires
        0 <= lo <= m <= hi,
        forall|j: int| lo <= j < m ==> (#[trigger] start_tag(s, j, hi, n)) is None,
    ensures
        tag_in(s, lo, hi, n) == tag_in(s, m, hi, n),
    decreases m - lo,
{
    if lo < m {
        assert(start_tag(s, lo, hi, n) is None);
        lemma_tag_in_skip(s, lo + 1, m, hi, n);
    }
}

/// No piece from `lo` to `m` opens an element named `n`, and none of them
/// is text as it stands.
pub open spec fn passes(ps: Seq<Piece>, lo: int, m: int, n: Seq<char>) -> bool {
    forall|x: int| lo <= x < m ==> !opens(#[trigger] ps[x], n) && !(ps[x] is Raw)
}

/// A search for an element named `n` passes over pieces that do not open
/// one.
pub proof fn lemma_element_pass(ps: Seq<Piece>, lo: int, m: int, hi: int, n: Seq<char>)
    requires
        0 <= lo <= m <= ps.len(),
        wf_pieces(ps),
        passes(ps, lo, m, n),
        plain_name(n),
        start(ps, m) <= hi <= render(ps).len(),
    ensures
        element_in(render(ps), start(ps, lo), hi, n) == element_in(render(ps), start(ps, m), hi, n),
        tag_in(render(ps), start(ps, lo), hi, n) == tag_in(render(ps), start(ps, m), hi, n),
{
    lemma_start_mono(ps, lo, m);
    assert forall|j: int| start(ps, lo) <= j < start(ps, m) implies (#[trigger] element_at(
        render(ps),
        j,
        hi,
        n,
    )) is None && start_tag(render(ps), j, hi, n) is None by {
        let x = lemma_locate(ps, lo, m, j);
        lemma_start_mono(ps, x + 1, m);
        lemma_no_start_tag_within(ps, x, hi, n, j);
    }
    lemma_element_in_skip(render(ps), start(ps, lo), start(ps, m), hi, n);
    assert forall|j: int| start(ps, lo) <= j < start(ps, m) implies (#[trigger] start_tag(
        render(ps),
        j,
        hi,
        n,
    )) is None by {
        assert(element_at(render(ps), j, hi, n) is None && start_tag(render(ps), j, hi, n) is None);
    }
    lemma_tag_in_skip(render(ps), start(ps, lo), start(ps, m), hi, n);
}


/// A closing tag for another name is no closing tag for `n`.
pub proof fn lemma_close_mismatch(ps: Seq<Piece>, x: int, n: Seq<char>)
    requires
        0 <= x < ps.len(),
        ps[x] is Close,
        wf_piece(ps[x]),
        ps[x]->Close_0 != n,
        plain_name(n),
    ensures
        !matches_at(render(ps), piece_text(Piece::Close(n)), start(ps, x)),
{
    let s = render(ps);
    let j = start(ps, x);
    let m = ps[x]->Close_0;
    let t = piece_text(ps[x]);
    let p = piece_text(Piece::Close(n));
    lemma_piece_at(ps, x);
    if matches_at(s, p, j) {
        if m.len() == n.len() {
            assert forall|y: int| 0 <= y < m.len() implies m[y] == n[y] by {
                assert(s[j + 2 + y] == p[2 + y]);
                assert(s[j + 2 + y] == t[2 + y]);
            }
            assert(m =~= n);
        } else if m.len() < n.len() {
            assert(t[2 + m.len() as int] == '>');
            assert(s[j + 2 + m.len()] == t[2 + m.len() as int]);
            assert(s[j + 2 + m.len()] == p[2 + m.len() as int]);
            assert(p[2 + m.len() as int] == n[m.len() as int]);
            assert(name_char(n[m.len() as int]));
            assert(false);
        } else {
            assert(p[2 + n.len() as int] == '>');
            assert(s[j + 2 + n.len()] == p[2 + n.len() as int]);
            assert(s[j + 2 + n.len()] == t[2 + n.len() as int]);
            assert(t[2 + n.len() as int] == m[n.len() as int]);
            assert(name_char(m[n.len() as int]));
            assert(false);
        }
    }
}

/// No closing tag for `n` begins within a piece that is not one, nor
/// text as it stands.
pub proof fn lemma_no_close_within(ps: Seq<Piece>, x: int, n: Seq<char>, j: int)
    requires
        0 <= x < ps.len(),
        wf_piece(ps[x]),
        !(ps[x] is Raw),
        ps[x] != Piece::Close(n),
        plain_name(n),
        start(ps, x) <= j < start(ps, x + 1),
    ensures
        !matches_at(render(ps), piece_text(Piece::Close(n)), j),
{
    let s = render(ps);
    let t = piece_text(ps[x]);
    let p = piece_text(Piece::Close(n));
    lemma_piece_at(ps, x);
    if matches_at(s, p, j) {
        assert(s[j + 0] == p[0]);
        if j > start(ps, x) || ps[x] is Text {
            lemma_no_lt(ps[x], j - start(ps, x));
            assert(s[j] == t[j - start(ps, x)]);
        } else {
            assert(s[j + 1] == p[1]);
            match ps[x] {
                Piece::Declaration => {
                    lemma_declaration();
                    assert(s[j + 1] == t[1]);
                },
                Piece::Open(m) => {
                    assert(s[j + 1] == t[1]);
                    assert(t[1] == m[0]);
                    assert(name_char(m[0]));
                },
                Piece::Attributed(m, a, v) => {
                    assert(s[j + 1] == t[1]);
                    assert(t[1] == m[0]);
                    assert(name_char(m[0]));
                },
                Piece::Close(m) => {
                    assert(m != n);
                    lemma_close_mismatch(ps, x, n);
                },
                _ => {},
            }
        }
    }
}

/// A piece whose text begins with `<`.
pub open spec fn is_tag(p: Piece) -> bool {
    p is Declaration || p is Open || p is Attributed || p is Close
}

/// Between pieces `k` and `c`, no piece closes `n`, and text as it
/// stands holds no closing tag for `n` and is followed by a tag.
pub open spec fn enclosed(ps: Seq<Piece>, k: int, c: int, n: Seq<char>) -> bool {
    forall|x: int|
        k < x < c ==> (#[trigger] ps[x]) != Piece::Close(n) && (ps[x] is Raw ==> x + 1 < ps.len()
            && is_tag(ps[x + 1]) && find(piece_text(ps[x]), piece_text(Piece::Close(n))) is None)
}

/// No closing tag for `n` begins within text as it stands that holds
/// none and is followed by a tag.
pub proof fn lemma_no_close_in_raw(ps: Seq<Piece>, x: int, n: Seq<char>, j: int)
    requires
        0 <= x,
        x + 1 < ps.len(),
        ps[x] is Raw,
        wf_pieces(ps),
        is_tag(ps[x + 1]),
        find(piece_text(ps[x]), piece_text(Piece::Close(n))) is None,
        plain_name(n),
        start(ps, x) <= j < start(ps, x + 1),
    ensures
        !matches_at(render(ps), piece_text(Piece::Close(n)), j),
{
    let s = render(ps);
    let r = piece_text(ps[x]);
    let p = piece_text(Piece::Close(n));
    lemma_piece_at(ps, x);
    lemma_piece_at(ps, x + 1);
    lemma_start_mono(ps, x + 2, ps.len() as int);
    if matches_at(s, p, j) {
        let o = j - start(ps, x);
        if j + p.len() <= start(ps, x + 1) {
            lemma_find_in(r, p, 0, r.len() as int);
            assert(matches_at(r, p, o)) by {
                assert forall|y: int| 0 <= y < p.len() implies r[o + y] == #[trigger] p[y] by {
                    assert(s[j + y] == p[y]);
                    assert(s[start(ps, x) + (o + y)] == r[o + y]);
                }
            }
        } else {
            let b = start(ps, x + 1) - j;
            let t = piece_text(ps[x + 1]);
            assert(wf_piece(ps[x + 1]));
            assert(t.len() > 0 && t[0] == '<') by {
                match ps[x + 1] {
                    Piece::Declaration => {
                        lemma_declaration();
                    },
                    _ => {},
                }
            }
            assert(s[start(ps, x + 1) + 0] == t[0]);
            assert(s[j + b] == p[b]);
            assert(1 <= b < p.len());
            if 2 <= b < 2 + n.len() {
                assert(p[b] == n[b - 2]);
                assert(name_char(n[b - 2]));
            }
        }
    }
}

/// The start tag of an element this library writes.
pub proof fn lemma_start_tag_found(ps: Seq<Piece>, k: int, hi: int, n: Seq<char>)
    requires
        0 <= k < ps.len(),
        wf_piece(ps[k]),
        opens(ps[k], n),
        plain_name(n),
        start(ps, k + 1) <= hi <= render(ps).len(),
    ensures
        start_tag(render(ps), start(ps, k), hi, n) == Some(
            (start(ps, k) + 1 + n.len(), start(ps, k + 1) - 1),
        ),
        render(ps)[start(ps, k + 1) - 2] != '/',
        render(ps).subrange(start(ps, k) + 1, start(ps, k) + 1 + n.len()) == n,
{
    let s = render(ps);
    let i = start(ps, k);
    let t = piece_text(ps[k]);
    lemma_piece_at(ps, k);
    let q = i + 1 + n.len();
    assert forall|x: int| i + 1 <= x < q implies !ends_name(#[trigger] s[x]) && s[x] != ':' by {
        assert(s[x] == t[x - i]);
        assert(t[x - i] == n[x - i - 1]);
        assert(name_char(n[x - i - 1]));
    }
    assert(s[q] == t[q - i]);
    assert(s[i] == t[0]);
    lemma_name_end_at(s, i + 1, q, hi);
    lemma_after_colon_none(s, i + 1, q);
    assert(matches_at(s, n, i + 1)) by {
        assert forall|y: int| 0 <= y < n.len() implies s[i + 1 + y] == #[trigger] n[y] by {
            assert(s[i + 1 + y] == t[1 + y]);
        }
    }
    assert(s.subrange(i + 1, q) =~= n) by {
        assert forall|y: int| 0 <= y < n.len() implies s.subrange(i + 1, q)[y] == n[y] by {
            assert(s[i + 1 + y] == t[1 + y]);
        }
    }
    let g = start(ps, k + 1) - 1;
    assert(s[g] == t[t.len() - 1]);
    assert(s[g - 1] == t[t.len() - 2]);
    match ps[k] {
        Piece::Open(m) => {
            assert(g == q);
            assert(matches_at(s, seq!['>'], g));
            lemma_find_in_at(s, seq!['>'], q, hi, g);
            assert(t[t.len() - 2] == m[m.len() - 1]);
            assert(name_char(m[m.len() - 1]));
        },
        Piece::Attributed(m, a, v) => {
            assert(matches_at(s, seq!['>'], g));
            assert forall|j: int| q <= j < g implies !matches_at(s, seq!['>'], j) by {
                assert(s[j] == t[j - i]);
                let o = j - i;
                if 2 + m.len() <= o < 2 + m.len() + a.len() {
                    assert(t[o] == a[o - 2 - m.len()]);
                    assert(name_char(a[o - 2 - m.len()]));
                } else if 4 + m.len() + a.len() <= o < 4 + m.len() + a.len() + v.len() {
                    assert(t[o] == v[o - 4 - m.len() - a.len()]);
                }
                if matches_at(s, seq!['>'], j) {
                    assert(s[j + 0] == seq!['>'][0]);
                }
            }
            lemma_find_in_at(s, seq!['>'], q, hi, g);
        },
        _ => {},
    }
}

/// An element this library writes holds what stands between its start
/// tag and its closing tag.
pub proof fn lemma_element_found(ps: Seq<Piece>, k: int, c: int, hi: int, n: Seq<char>)
    requires
        0 <= k < c < ps.len(),
        wf_pieces(ps),
        opens(ps[k], n),
        ps[c] == Piece::Close(n),
        enclosed(ps, k, c, n),
        plain_name(n),
        start(ps, c + 1) <= hi <= render(ps).len(),
    ensures
        element_at(render(ps), start(ps, k), hi, n) == Some((start(ps, k + 1), start(ps, c))),
{
    let s = render(ps);
    let i = start(ps, k);
    lemma_start_mono(ps, k + 1, c);
    lemma_start_mono(ps, c + 1, ps.len() as int);
    lemma_piece_at(ps, c);
    lemma_start_tag_found(ps, k, hi, n);
    let q = i + 1 + n.len();
    let p = piece_text(Piece::Close(n));
    assert(closing(s, i, q) =~= p);
    lemma_piece_at(ps, c);
    assert(matches_at(s, p, start(ps, c))) by {
        assert forall|y: int| 0 <= y < p.len() implies s[start(ps, c) + y] == #[trigger] p[y] by {}
    }
    assert forall|j: int| start(ps, k + 1) <= j < start(ps, c) implies !matches_at(s, p, j) by {
        let x = lemma_locate(ps, k + 1, c, j);
        assert(wf_piece(ps[x]));
        if ps[x] is Raw {
            lemma_no_close_in_raw(ps, x, n, j);
        } else {
            lemma_no_close_within(ps, x, n, j);
        }
    }
    lemma_find_in_at(s, p, start(ps, k + 1), hi, start(ps, c));
}

/// The attribute `a` of an element this library writes holds the value
/// written there.
pub proof fn lemma_attribute_found(ps: Seq<Piece>, k: int, hi: int)
    requires
        0 <= k < ps.len(),
        ps[k] is Attributed,
        wf_piece(ps[k]),
        start(ps, k + 1) <= hi <= render(ps).len(),
    ensures
        ({
            let n = ps[k]->Attributed_0;
            let a = ps[k]->Attributed_1;
            let v = ps[k]->Attributed_2;
            let vs = start(ps, k) + 4 + n.len() + a.len();
            &&& crate::xml::attribute_in(render(ps), start(ps, k), hi, n, a) == Some(
                (vs, vs + v.len()),
            )
            &&& render(ps).subrange(vs, vs + v.len()) == v
        }),
{
    let s = render(ps);
    let i = start(ps, k);
    let n = ps[k]->Attributed_0;
    let a = ps[k]->Attributed_1;
    let v = ps[k]->Attributed_2;
    let t = piece_text(ps[k]);
    lemma_piece_at(ps, k);
    assert(opens(ps[k], n));
    assert(plain_name(n));
    lemma_start_tag_found(ps, k, hi, n);
    assert(tag_in(s, i, hi, n) == start_tag(s, i, hi, n));
    let q = i + 1 + n.len();
    let g = start(ps, k + 1) - 1;
    let pat = a + seq!['=', '"'];
    assert(s[q] == t[1 + n.len() as int]);
    assert(s[q - 1] == t[n.len() as int]);
    assert(t[n.len() as int] == n[n.len() - 1]);
    assert(name_char(n[n.len() - 1]));
    assert(!crate::xml::attr_at(s, q, g, a));
    assert(matches_at(s, pat, q + 1)) by {
        assert forall|y: int| 0 <= y < pat.len() implies s[q + 1 + y] == #[trigger] pat[y] by {
            assert(s[q + 1 + y] == t[2 + n.len() + y]);
        }
    }
    assert(crate::xml::attr_at(s, q + 1, g, a));
    assert(crate::xml::attr_in(s, q, g, a) == Some(q + 1)) by {
        assert(crate::xml::attr_in(s, q + 1, g, a) == Some(q + 1));
    }
    let vs = q + 1 + a.len() + 2;
    assert forall|j: int| vs <= j < vs + v.len() implies !matches_at(s, seq!['"'], j) by {
        assert(s[j] == t[j - i]);
        assert(t[j - i] == v[j - vs]);
        if matches_at(s, seq!['"'], j) {
            assert(s[j + 0] == seq!['"'][0]);
        }
    }
    assert(s[vs + v.len()] == t[vs + v.len() - i]);
    assert(matches_at(s, seq!['"'], vs + v.len()));
    lemma_find_in_at(s, seq!['"'], vs, g, vs + v.len());
    assert(s.subrange(vs, vs + v.len()) =~= v) by {
        assert forall|y: int| 0 <= y < v.len() implies s.subrange(vs, vs + v.len())[y] == v[y] by {
            assert(s[vs + y] == t[vs + y - i]);
        }
    }
}


/// A search that passes over pieces up to one that opens `n` finds what
/// that element holds.
pub proof fn lemma_element_located(ps: Seq<Piece>, lo: int, k: int, c: int, hi: int, n: Seq<char>)
    requires
        0 <= lo <= k < c < ps.len(),
        wf_pieces(ps),
        passes(ps, lo, k, n),
        opens(ps[k], n),
        ps[c] == Piece::Close(n),
        enclosed(ps, k, c, n),
        plain_name(n),
        start(ps, c + 1) <= hi <= render(ps).len(),
    ensures
        element_in(render(ps), start(ps, lo), hi, n) == Some((start(ps, k + 1), start(ps, c))),
        start(ps, lo) < start(ps, k + 1) <= start(ps, c) < start(ps, c + 1),
{
    let s = render(ps);
    lemma_start_mono(ps, k + 1, c);
    lemma_start_mono(ps, c + 1, ps.len() as int);
    lemma_start_mono(ps, lo, k);
    assert(start(ps, k + 1) == start(ps, k) + piece_text(ps[k]).len()) by {
        lemma_piece_at(ps, k);
    }
    assert(start(ps, c + 1) == start(ps, c) + piece_text(ps[c]).len()) by {
        lemma_piece_at(ps, c);
    }
    assert(piece_text(ps[k]).len() > 0);
    assert(piece_text(ps[c]).len() > 0);
    assert(element_in(s, start(ps, lo), hi, n) == element_in(s, start(ps, k), hi, n)) by {
        lemma_element_pass(ps, lo, k, hi, n);
    }
    assert(element_at(s, start(ps, k), hi, n) == Some((start(ps, k + 1), start(ps, c)))) by {
        lemma_element_found(ps, k, c, hi, n);
    }
    assert(element_in(s, start(ps, k), hi, n) == Some((start(ps, k + 1), start(ps, c))));
}

/// A search that passes over every piece of the window finds nothing.
pub proof fn lemma_element_absent(ps: Seq<Piece>, lo: int, m: int, n: Seq<char>)
    requires
        0 <= lo <= m <= ps.len(),
        wf_pieces(ps),
        passes(ps, lo, m, n),
        plain_name(n),
    ensures
        element_in(render(ps), start(ps, lo), start(ps, m), n) is None,
{
    lemma_start_mono(ps, m, ps.len() as int);
    lemma_element_pass(ps, lo, m, start(ps, m), n);
}

/// The `>` that ends a closing tag is the first one from its start.
pub proof fn lemma_close_end(ps: Seq<Piece>, k: int, hi: int)
    requires
        0 <= k < ps.len(),
        ps[k] is Close,
        wf_piece(ps[k]),
        start(ps, k + 1) <= hi <= render(ps).len(),
    ensures
        find_in(render(ps), seq!['>'], start(ps, k), hi) == Some(start(ps, k + 1) - 1),
{
    let s = render(ps);
    let t = piece_text(ps[k]);
    let m = ps[k]->Close_0;
    lemma_piece_at(ps, k);
    let g = start(ps, k + 1) - 1;
    assert(s[g + 0] == t[t.len() - 1]);
    assert forall|j: int| start(ps, k) <= j < g implies !matches_at(s, seq!['>'], j) by {
        let o = j - start(ps, k);
        assert(s[j] == t[o]);
        if 2 <= o < 2 + m.len() {
            assert(t[o] == m[o - 2]);
            assert(name_char(m[o - 2]));
        }
        if matches_at(s, seq!['>'], j) {
            assert(s[j + 0] == seq!['>'][0]);
        }
    }
    lemma_find_in_at(s, seq!['>'], start(ps, k), hi, g);
}

/// What a window of the rendering holds from one piece to another is
/// the text of the pieces between.
pub proof fn lemma_piece_window(ps: Seq<Piece>, k: int)
    requires
        0 <= k < ps.len(),
    ensures
        render(ps).subrange(start(ps, k), start(ps, k + 1)) == piece_text(ps[k]),
{
    lemma_piece_at(ps, k);
    assert(render(ps).subrange(start(ps, k), start(ps, k + 1)) =~= piece_text(ps[k]));
}

} // verus!
