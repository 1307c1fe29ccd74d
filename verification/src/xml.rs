//! The XML a Standard Business Document is made of, as this library writes
//! and reads it: text escaped and unescaped by the five predefined
//! entities, and elements found by their local name, so that a partner's
//! prefix (none, `sh:`, `ns0:`) does not matter.
//!
//! An element named `name` in `s[lo..hi]` is the first start tag
//! `<prefix:name ...>` there, not closed by `/>`, whose closing tag
//! `</prefix:name>` follows before `hi`; what it holds is what stands
//! between the two tags.

use vstd::prelude::*;
use vstd::string::*;

use crate::text::{
    at, find_in, is_space, lemma_find_in, matches_at, matches_exec, find_exec, space,
};

verus! {

/// The entity that stands for `c` in escaped text, or `c` itself.
pub open spec fn escape_char(c: char) -> Seq<char> {
    if c == '&' {
        seq!['&', 'a', 'm', 'p', ';']
    } else if c == '<' {
        seq!['&', 'l', 't', ';']
    } else if c == '>' {
        seq!['&', 'g', 't', ';']
    } else if c == '"' {
        seq!['&', 'q', 'u', 'o', 't', ';']
    } else if c == '\'' {
        seq!['&', 'a', 'p', 'o', 's', ';']
    } else {
        seq![c]
    }
}

/// `s` as XML text: each markup character replaced by its entity.
pub open spec fn escape(s: Seq<char>) -> Seq<char>
    decreases s.len(),
{
    if s.len() == 0 {
        seq![]
    } else {
        escape_char(s[0]) + escape(s.drop_first())
    }
}

/// `s` read as XML text: each of the five predefined entities replaced
/// by the character it stands for, everything else as it is.
pub open spec fn unescape(s: Seq<char>) -> Seq<char>
    decreases s.len(),
{
    if s.len() == 0 {
        seq![]
    } else if s.len() >= 4 && s.take(4) == seq!['&', 'l', 't', ';'] {
        seq!['<'] + unescape(s.skip(4))
    } else if s.len() >= 4 && s.take(4) == seq!['&', 'g', 't', ';'] {
        seq!['>'] + unescape(s.skip(4))
    } else if s.len() >= 5 && s.take(5) == seq!['&', 'a', 'm', 'p', ';'] {
        seq!['&'] + unescape(s.skip(5))
    } else if s.len() >= 6 && s.take(6) == seq!['&', 'q', 'u', 'o', 't', ';'] {
        seq!['"'] + unescape(s.skip(6))
    } else if s.len() >= 6 && s.take(6) == seq!['&', 'a', 'p', 'o', 's', ';'] {
        seq!['\''] + unescape(s.skip(6))
    } else {
        seq![s[0]] + unescape(s.drop_first())
    }
}

/// Escaped text holds no markup character but the `&` of an entity.
pub proof fn lemma_escape_has_no_markup(s: Seq<char>)
    ensures
        forall|k: int|
            0 <= k < escape(s).len() ==> (#[trigger] escape(s)[k]) != '<' && escape(s)[k] != '>'
                && escape(s)[k] != '"',
    decreases s.len(),
{
    if s.len() > 0 {
        lemma_escape_has_no_markup(s.drop_first());
        let head = escape_char(s[0]);
        let tail = escape(s.drop_first());
        assert forall|k: int| 0 <= k < escape(s).len() implies (#[trigger] escape(s)[k]) != '<'
            && escape(s)[k] != '>' && escape(s)[k] != '"' by {
            if k < head.len() {
                assert(escape(s)[k] == head[k]);
            } else {
                assert(escape(s)[k] == tail[k - head.len()]);
            }
        }
    }
}

/// Reading escaped text gives back the text.
pub proof fn lemma_unescape_escape(s: Seq<char>)
    ensures
        unescape(escape(s)) == s,
    decreases s.len(),
{
    if s.len() > 0 {
        let c = s[0];
        let head = escape_char(c);
        let tail = escape(s.drop_first());
        let e = head + tail;
        lemma_unescape_escape(s.drop_first());
        assert(e.skip(head.len() as int) == tail);
        assert(e.take(head.len() as int) == head);
        if c == '&' {
            assert(e.take(4) != seq!['&', 'l', 't', ';']) by {
                assert(e.take(4)[1] == 'a');
            }
            assert(e.take(4) != seq!['&', 'g', 't', ';']) by {
                assert(e.take(4)[1] == 'a');
            }
        } else if c == '<' {
        } else if c == '>' {
            assert(e.take(4) != seq!['&', 'l', 't', ';']) by {
                assert(e.take(4)[1] == 'g');
            }
        } else if c == '"' {
            assert(e.take(4) != seq!['&', 'l', 't', ';']) by {
                assert(e.take(4)[1] == 'q');
            }
            assert(e.take(4) != seq!['&', 'g', 't', ';']) by {
                assert(e.take(4)[1] == 'q');
            }
            assert(e.take(5) != seq!['&', 'a', 'm', 'p', ';']) by {
                assert(e.take(5)[1] == 'q');
            }
        } else if c == '\'' {
            assert(e.take(4) != seq!['&', 'l', 't', ';']) by {
                assert(e.take(4)[1] == 'a');
            }
            assert(e.take(4) != seq!['&', 'g', 't', ';']) by {
                assert(e.take(4)[1] == 'a');
            }
            assert(e.take(5) != seq!['&', 'a', 'm', 'p', ';']) by {
                assert(e.take(5)[3] == 'o');
            }
            assert(e.take(6) != seq!['&', 'q', 'u', 'o', 't', ';']) by {
                assert(e.take(6)[1] == 'a');
            }
        } else {
            assert(e[0] == c);
            if e.len() >= 4 {
                assert(e.take(4)[0] == c);
            }
            if e.len() >= 5 {
                assert(e.take(5)[0] == c);
            }
            if e.len() >= 6 {
                assert(e.take(6)[0] == c);
            }
            assert(e.drop_first() == tail);
        }
        assert(escape(s) == e);
    }
}

/// Text with no `&` reads as it is.
pub proof fn lemma_unescape_plain(s: Seq<char>)
    requires
        forall|i: int| 0 <= i < s.len() ==> #[trigger] s[i] != '&',
    ensures
        unescape(s) == s,
    decreases s.len(),
{
    if s.len() > 0 {
        assert(s[0] != '&');
        if s.len() >= 4 {
            assert(s.take(4)[0] == s[0]);
        }
        if s.len() >= 5 {
            assert(s.take(5)[0] == s[0]);
        }
        if s.len() >= 6 {
            assert(s.take(6)[0] == s[0]);
        }
        assert forall|i: int| 0 <= i < s.drop_first().len() implies #[trigger] s.drop_first()[i]
            != '&' by {
            assert(s.drop_first()[i] == s[i + 1]);
        }
        lemma_unescape_plain(s.drop_first());
        assert(seq![s[0]] + s.drop_first() =~= s);
    }
}

/// Escaping text piece by piece escapes it whole.
pub proof fn lemma_escape_add(a: Seq<char>, b: Seq<char>)
    ensures
        escape(a + b) == escape(a) + escape(b),
    decreases a.len(),
{
    if a.len() == 0 {
        assert(a + b =~= b);
    } else {
        lemma_escape_add(a.drop_first(), b);
        assert((a + b).drop_first() =~= a.drop_first() + b);
        assert((a + b)[0] == a[0]);
    }
}

/// Escaped text begins and ends with white space exactly where the text
/// does, and is empty exactly where the text is.
pub proof fn lemma_escape_ends(s: Seq<char>)
    ensures
        escape(s).len() == 0 <==> s.len() == 0,
        s.len() > 0 ==> (is_space(escape(s)[0]) <==> is_space(s[0])),
        s.len() > 0 ==> (is_space(escape(s).last()) <==> is_space(s.last())),
{
    if s.len() > 0 {
        let head = escape_char(s[0]);
        assert(escape(s)[0] == head[0]);
        let init = s.drop_last();
        let last = s.last();
        assert(s =~= init + seq![last]);
        lemma_escape_add(init, seq![last]);
        assert(seq![last].drop_first() =~= Seq::<char>::empty());
        assert(escape(Seq::<char>::empty()) == Seq::<char>::empty());
        assert(seq![last][0] == last);
        assert(escape(seq![last]) == escape_char(last) + escape(seq![last].drop_first()));
        assert(escape(seq![last]) =~= escape_char(last));
        assert(escape(s).last() == escape_char(last).last());
    }
}

/// `s` escaped.
pub fn escape_exec(s: &str) -> (r: String)
    ensures
        r@ == escape(s@),
{
    let v = crate::text::chars_of(s);
    let mut out = String::new();
    let mut i: usize = 0;
    proof {
        assert(v@.skip(0) == v@);
    }
    while i < v.len()
        invariant
            i <= v.len(),
            out@ + escape(v@.skip(i as int)) == escape(v@),
        decreases v.len() - i,
    {
        let c = v[i];
        let ghost before = out@;
        proof {
            assert(v@.skip(i as int).drop_first() == v@.skip(i + 1));
            assert(v@.skip(i as int)[0] == c);
        }
        if c == '&' {
            out.push('&');
            out.push('a');
            out.push('m');
            out.push('p');
            out.push(';');
        } else if c == '<' {
            out.push('&');
            out.push('l');
            out.push('t');
            out.push(';');
        } else if c == '>' {
            out.push('&');
            out.push('g');
            out.push('t');
            out.push(';');
        } else if c == '"' {
            out.push('&');
            out.push('q');
            out.push('u');
            out.push('o');
            out.push('t');
            out.push(';');
        } else if c == '\'' {
            out.push('&');
            out.push('a');
            out.push('p');
            out.push('o');
            out.push('s');
            out.push(';');
        } else {
            out.push(c);
        }
        proof {
            assert(out@ =~= before + escape_char(c));
            assert(before + escape_char(c) + escape(v@.skip(i + 1)) == before + (escape_char(c)
                + escape(v@.skip(i + 1))));
        }
        i = i + 1;
    }
    proof {
        assert(escape(v@.skip(v.len() as int)) == Seq::<char>::empty());
        assert(out@ + Seq::<char>::empty() == out@);
    }
    out
}

/// `s[lo..hi]` unescaped.
pub fn unescape_exec(s: &Vec<char>, lo: usize, hi: usize) -> (r: String)
    requires
        lo <= hi <= s.len(),
    ensures
        r@ == unescape(s@.subrange(lo as int, hi as int)),
{
    let lt = vec!['&', 'l', 't', ';'];
    let gt = vec!['&', 'g', 't', ';'];
    let amp = vec!['&', 'a', 'm', 'p', ';'];
    let quot = vec!['&', 'q', 'u', 'o', 't', ';'];
    let apos = vec!['&', 'a', 'p', 'o', 's', ';'];
    assert(lt@ == seq!['&', 'l', 't', ';']);
    assert(gt@ == seq!['&', 'g', 't', ';']);
    assert(amp@ == seq!['&', 'a', 'm', 'p', ';']);
    assert(quot@ == seq!['&', 'q', 'u', 'o', 't', ';']);
    assert(apos@ == seq!['&', 'a', 'p', 'o', 's', ';']);
    let mut out = String::new();
    let mut i = lo;
    while i < hi
        invariant
            lo <= i <= hi <= s.len(),
            lt@ == seq!['&', 'l', 't', ';'],
            gt@ == seq!['&', 'g', 't', ';'],
            amp@ == seq!['&', 'a', 'm', 'p', ';'],
            quot@ == seq!['&', 'q', 'u', 'o', 't', ';'],
            apos@ == seq!['&', 'a', 'p', 'o', 's', ';'],
            out@ + unescape(s@.subrange(i as int, hi as int)) == unescape(
                s@.subrange(lo as int, hi as int),
            ),
        decreases hi - i,
    {
        let ghost rest = s@.subrange(i as int, hi as int);
        let ghost before = out@;
        let left = hi - i;
        let step: usize;
        if left >= 4 && matches_exec(s, &lt, i) {
            proof {
                assert(rest.take(4) =~= lt@);
                assert(rest.skip(4) =~= s@.subrange(i + 4, hi as int));
            }
            out.push('<');
            step = 4;
        } else if left >= 4 && matches_exec(s, &gt, i) {
            proof {
                assert(rest.take(4) != lt@) by {
                    if rest.take(4) == lt@ {
                        assert forall|k: int| 0 <= k < 4 implies s@[i + k] == #[trigger] lt@[k] by {
                            assert(rest.take(4)[k] == s@[i + k]);
                        }
                    }
                }
                assert(rest.take(4) =~= gt@);
                assert(rest.skip(4) =~= s@.subrange(i + 4, hi as int));
            }
            out.push('>');
            step = 4;
        } else if left >= 5 && matches_exec(s, &amp, i) {
            proof {
                assert(rest.take(4)[1] == 'a');
                assert(rest.take(5) =~= amp@);
                assert(rest.skip(5) =~= s@.subrange(i + 5, hi as int));
            }
            out.push('&');
            step = 5;
        } else if left >= 6 && matches_exec(s, &quot, i) {
            proof {
                assert(rest.take(4)[1] == 'q');
                assert(rest.take(5)[1] == 'q');
                assert(rest.take(6) =~= quot@);
                assert(rest.skip(6) =~= s@.subrange(i + 6, hi as int));
            }
            out.push('"');
            step = 6;
        } else if left >= 6 && matches_exec(s, &apos, i) {
            proof {
                assert(rest.take(4)[1] == 'a');
                assert(rest.take(4)[2] == 'p');
                assert(rest.take(5)[2] == 'p');
                assert(rest.take(6)[1] == 'a');
                assert(rest.take(6) =~= apos@);
                assert(rest.skip(6) =~= s@.subrange(i + 6, hi as int));
            }
            out.push('\'');
            step = 6;
        } else {
            proof {
                if rest.len() >= 4 && rest.take(4) == lt@ {
                    assert forall|k: int| 0 <= k < 4 implies s@[i + k] == #[trigger] lt@[k] by {
                        assert(rest.take(4)[k] == s@[i + k]);
                    }
                }
                if rest.len() >= 4 && rest.take(4) == gt@ {
                    assert forall|k: int| 0 <= k < 4 implies s@[i + k] == #[trigger] gt@[k] by {
                        assert(rest.take(4)[k] == s@[i + k]);
                    }
                }
                if rest.len() >= 5 && rest.take(5) == amp@ {
                    assert forall|k: int| 0 <= k < 5 implies s@[i + k] == #[trigger] amp@[k] by {
                        assert(rest.take(5)[k] == s@[i + k]);
                    }
                }
                if rest.len() >= 6 && rest.take(6) == quot@ {
                    assert forall|k: int| 0 <= k < 6 implies s@[i + k] == #[trigger] quot@[k] by {
                        assert(rest.take(6)[k] == s@[i + k]);
                    }
                }
                if rest.len() >= 6 && rest.take(6) == apos@ {
                    assert forall|k: int| 0 <= k < 6 implies s@[i + k] == #[trigger] apos@[k] by {
                        assert(rest.take(6)[k] == s@[i + k]);
                    }
                }
                assert(rest.drop_first() =~= s@.subrange(i + 1, hi as int));
            }
            out.push(s[i]);
            step = 1;
        }
        proof {
            assert(before + unescape(rest) == before + (out@.skip(before.len() as int) + unescape(
                s@.subrange(i + step, hi as int),
            )));
            assert(out@ =~= before + out@.skip(before.len() as int));
        }
        i = i + step;
    }
    proof {
        assert(unescape(s@.subrange(hi as int, hi as int)) == Seq::<char>::empty());
        assert(out@ + Seq::<char>::empty() == out@);
    }
    out
}


/// A character that ends the name in a tag.
pub open spec fn ends_name(c: char) -> bool {
    is_space(c) || c == '>' || c == '/'
}

/// Where the name that begins at `j` ends, by `hi`.
pub open spec fn name_end(s: Seq<char>, j: int, hi: int) -> int
    decreases hi - j,
{
    if j < hi && !ends_name(s[j]) {
        name_end(s, j + 1, hi)
    } else {
        j
    }
}

/// Where the local part of the name `s[a..q]` begins: after its last
/// colon, at `a` where it has none.
pub open spec fn after_colon(s: Seq<char>, a: int, q: int) -> int
    decreases q - a,
{
    if q <= a {
        a
    } else if s[q - 1] == ':' {
        q
    } else {
        after_colon(s, a, q - 1)
    }
}

/// The start tag of an element whose local name is `name`, at `i` and
/// closed by `hi`: where its name ends and where its `>` is.
pub open spec fn start_tag(s: Seq<char>, i: int, hi: int, name: Seq<char>) -> Option<(int, int)> {
    if 0 <= i < hi && hi <= s.len() && s[i] == '<' {
        let q = name_end(s, i + 1, hi);
        let l = after_colon(s, i + 1, q);
        if q - l == name.len() && matches_at(s, name, l) {
            match find_in(s, seq!['>'], q, hi) {
                Some(g) => Some((q, g)),
                None => None,
            }
        } else {
            None
        }
    } else {
        None
    }
}

/// The closing tag for the start tag at `i` whose name ends at `q`.
pub open spec fn closing(s: Seq<char>, i: int, q: int) -> Seq<char> {
    seq!['<', '/'] + s.subrange(i + 1, q) + seq!['>']
}

/// What the element named `name` that starts at `i` holds, where one does
/// and it closes by `hi`.
pub open spec fn element_at(s: Seq<char>, i: int, hi: int, name: Seq<char>) -> Option<(int, int)> {
    match start_tag(s, i, hi, name) {
        Some((q, g)) => if s[g - 1] == '/' {
            None
        } else {
            match find_in(s, closing(s, i, q), g + 1, hi) {
                Some(e) => Some((g + 1, e)),
                None => None,
            }
        },
        None => None,
    }
}

/// What the first element named `name` in `s[lo..hi]` holds.
pub open spec fn element_in(s: Seq<char>, lo: int, hi: int, name: Seq<char>) -> Option<(int, int)>
    decreases hi - lo,
{
    if lo < 0 || lo >= hi {
        None
    } else {
        match element_at(s, lo, hi, name) {
            Some(r) => Some(r),
            None => element_in(s, lo + 1, hi, name),
        }
    }
}

/// The first start tag named `name` in `s[lo..hi]`, closed by `/>` or
/// not.
pub open spec fn tag_in(s: Seq<char>, lo: int, hi: int, name: Seq<char>) -> Option<(int, int)>
    decreases hi - lo,
{
    if lo < 0 || lo >= hi {
        None
    } else {
        match start_tag(s, lo, hi, name) {
            Some(r) => Some(r),
            None => tag_in(s, lo + 1, hi, name),
        }
    }
}

/// The attribute `attr="` begins at `k`, after white space, and its
/// quote stands before `g`.
pub open spec fn attr_at(s: Seq<char>, k: int, g: int, attr: Seq<char>) -> bool {
    &&& 1 <= k
    &&& k + attr.len() + 2 <= g
    &&& is_space(s[k - 1])
    &&& matches_at(s, attr + seq!['=', '"'], k)
}

/// The first attribute `attr` in a tag, from `k` on and before `g`.
pub open spec fn attr_in(s: Seq<char>, k: int, g: int, attr: Seq<char>) -> Option<int>
    decreases g - k,
{
    if k < 1 || k >= g {
        None
    } else if attr_at(s, k, g, attr) {
        Some(k)
    } else {
        attr_in(s, k + 1, g, attr)
    }
}

/// The quoted value of the attribute `attr` of the first start tag named
/// `elem` in `s[lo..hi]`.
pub open spec fn attribute_in(
    s: Seq<char>,
    lo: int,
    hi: int,
    elem: Seq<char>,
    attr: Seq<char>,
) -> Option<(int, int)> {
    match tag_in(s, lo, hi, elem) {
        Some((q, g)) => match attr_in(s, q, g, attr) {
            Some(k) => {
                let v = k + attr.len() + 2;
                match find_in(s, seq!['"'], v, g) {
                    Some(e) => Some((v, e)),
                    None => None,
                }
            },
            None => None,
        },
        None => None,
    }
}

/// The spec view of a window found by an executable search.
pub open spec fn span(r: Option<(usize, usize)>) -> Option<(int, int)> {
    match r {
        Some((a, b)) => Some((a as int, b as int)),
        None => None,
    }
}

/// What `start_tag` finds stands where it says.
pub proof fn lemma_start_tag(s: Seq<char>, i: int, hi: int, name: Seq<char>)
    ensures
        start_tag(s, i, hi, name) matches Some((q, g)) ==> i < q <= g < hi <= s.len() && s[g]
            == '>',
{
    if 0 <= i < hi && hi <= s.len() && s[i] == '<' {
        let q = name_end(s, i + 1, hi);
        lemma_name_end(s, i + 1, hi);
        lemma_find_in(s, seq!['>'], q, hi);
        if let Some(g) = find_in(s, seq!['>'], q, hi) {
            assert(s[g + 0] == seq!['>'][0]);
        }
    }
}

/// Where a name ends lies between its start and `hi`.
pub proof fn lemma_name_end(s: Seq<char>, j: int, hi: int)
    requires
        j <= hi,
    ensures
        j <= name_end(s, j, hi) <= hi,
        forall|k: int| j <= k < name_end(s, j, hi) ==> !ends_name(#[trigger] s[k]),
        name_end(s, j, hi) < hi ==> ends_name(s[name_end(s, j, hi)]),
    decreases hi - j,
{
    if j < hi && !ends_name(s[j]) {
        lemma_name_end(s, j + 1, hi);
    }
}

/// What the element at `i` holds lies after its start tag and before
/// its closing tag, by `hi`.
pub proof fn lemma_element_at(s: Seq<char>, i: int, hi: int, name: Seq<char>)
    ensures
        element_at(s, i, hi, name) matches Some((c, e)) ==> i < c <= e < hi <= s.len(),
{
    lemma_start_tag(s, i, hi, name);
    if let Some((q, g)) = start_tag(s, i, hi, name) {
        lemma_find_in(s, closing(s, i, q), g + 1, hi);
    }
}

/// What the first element holds lies within the window.
pub proof fn lemma_element_in(s: Seq<char>, lo: int, hi: int, name: Seq<char>)
    ensures
        element_in(s, lo, hi, name) matches Some((c, e)) ==> lo < c <= e < hi <= s.len(),
    decreases hi - lo,
{
    if lo >= 0 && lo < hi {
        lemma_element_at(s, lo, hi, name);
        if element_at(s, lo, hi, name) is None {
            lemma_element_in(s, lo + 1, hi, name);
        }
    }
}

/// The first start tag lies within the window.
pub proof fn lemma_tag_in(s: Seq<char>, lo: int, hi: int, name: Seq<char>)
    ensures
        tag_in(s, lo, hi, name) matches Some((q, g)) ==> lo < q <= g < hi <= s.len(),
    decreases hi - lo,
{
    if lo >= 0 && lo < hi {
        lemma_start_tag(s, lo, hi, name);
        if start_tag(s, lo, hi, name) is None {
            lemma_tag_in(s, lo + 1, hi, name);
        }
    }
}

/// The quoted value lies within the window.
pub proof fn lemma_attribute_in(s: Seq<char>, lo: int, hi: int, elem: Seq<char>, attr: Seq<char>)
    ensures
        attribute_in(s, lo, hi, elem, attr) matches Some((v, e)) ==> lo < v <= e < hi <= s.len(),
{
    lemma_tag_in(s, lo, hi, elem);
    if let Some((q, g)) = tag_in(s, lo, hi, elem) {
        lemma_attr_in(s, q, g, attr);
        if let Some(k) = attr_in(s, q, g, attr) {
            lemma_find_in(s, seq!['"'], k + attr.len() + 2, g);
        }
    }
}

/// The attribute found lies within the tag.
pub proof fn lemma_attr_in(s: Seq<char>, k: int, g: int, attr: Seq<char>)
    ensures
        attr_in(s, k, g, attr) matches Some(a) ==> k <= a && a + attr.len() + 2 <= g,
    decreases g - k,
{
    if k >= 1 && k < g && !attr_at(s, k, g, attr) {
        lemma_attr_in(s, k + 1, g, attr);
    }
}

/// The local part of a name begins within it.
pub proof fn lemma_after_colon(s: Seq<char>, a: int, q: int)
    requires
        a <= q,
    ensures
        a <= after_colon(s, a, q) <= q,
    decreases q - a,
{
    if q > a && s[q - 1] != ':' {
        lemma_after_colon(s, a, q - 1);
    }
}

/// Where the name that begins at `j` ends.
pub fn name_end_exec(s: &Vec<char>, j: usize, hi: usize) -> (r: usize)
    requires
        j <= hi <= s.len(),
    ensures
        r == name_end(s@, j as int, hi as int),
{
    let mut k = j;
    while k < hi && !(space(s[k]) || s[k] == '>' || s[k] == '/')
        invariant
            j <= k <= hi <= s.len(),
            name_end(s@, j as int, hi as int) == name_end(s@, k as int, hi as int),
        decreases hi - k,
    {
        k = k + 1;
    }
    k
}

/// Where the local part of `s[a..q]` begins.
fn after_colon_exec(s: &Vec<char>, a: usize, q: usize) -> (r: usize)
    requires
        a <= q <= s.len(),
    ensures
        r == after_colon(s@, a as int, q as int),
{
    let mut k = q;
    while a < k && s[k - 1] != ':'
        invariant
            a <= k <= q <= s.len(),
            after_colon(s@, a as int, q as int) == after_colon(s@, a as int, k as int),
        decreases k,
    {
        k = k - 1;
    }
    k
}

/// The start tag named `name` at `i`, closed by `hi`.
fn start_tag_exec(s: &Vec<char>, i: usize, hi: usize, name: &Vec<char>) -> (r: Option<(usize, usize)>)
    requires
        hi <= s.len(),
    ensures
        span(r) == start_tag(s@, i as int, hi as int, name@),
{
    if !(i < hi && s[i] == '<') {
        return None;
    }
    proof {
        lemma_name_end(s@, i + 1, hi as int);
    }
    let q = name_end_exec(s, i + 1, hi);
    let l = after_colon_exec(s, i + 1, q);
    proof {
        lemma_after_colon(s@, i + 1, q as int);
    }
    if q - l == name.len() && matches_exec(s, name, l) {
        let gt = vec!['>'];
        assert(gt@ == seq!['>']);
        match find_exec(s, &gt, q, hi) {
            Some(g) => Some((q, g)),
            None => None,
        }
    } else {
        None
    }
}

/// The closing tag for the start tag at `i` whose name ends at `q`.
pub fn closing_exec(s: &Vec<char>, i: usize, q: usize) -> (r: Vec<char>)
    requires
        i < q <= s.len(),
    ensures
        r@ == closing(s@, i as int, q as int),
{
    let mut close: Vec<char> = Vec::new();
    close.push('<');
    close.push('/');
    let mut k = i + 1;
    while k < q
        invariant
            i + 1 <= k <= q <= s.len(),
            close@ == seq!['<', '/'] + s@.subrange(i + 1, k as int),
        decreases q - k,
    {
        close.push(s[k]);
        proof {
            assert(s@.subrange(i + 1, k + 1) == s@.subrange(i + 1, k as int).push(s@[k as int]));
        }
        k = k + 1;
    }
    close.push('>');
    assert(close@ =~= closing(s@, i as int, q as int));
    close
}

/// What the element named `name` at `i` holds.
fn element_at_exec(s: &Vec<char>, i: usize, hi: usize, name: &Vec<char>) -> (r: Option<(usize, usize)>)
    requires
        hi <= s.len(),
    ensures
        span(r) == element_at(s@, i as int, hi as int, name@),
{
    proof {
        lemma_start_tag(s@, i as int, hi as int, name@);
    }
    match start_tag_exec(s, i, hi, name) {
        Some((q, g)) => {
            if s[g - 1] == '/' {
                return None;
            }
            let close = closing_exec(s, i, q);
            match find_exec(s, &close, g + 1, hi) {
                Some(e) => Some((g + 1, e)),
                None => None,
            }
        },
        None => None,
    }
}

/// What the first element named `name` in `s[lo..hi]` holds.
pub fn element_exec(s: &Vec<char>, lo: usize, hi: usize, name: &Vec<char>) -> (r: Option<(usize, usize)>)
    requires
        hi <= s.len(),
    ensures
        span(r) == element_in(s@, lo as int, hi as int, name@),
        r matches Some((c, e)) ==> lo < c <= e < hi,
{
    proof {
        lemma_element_in(s@, lo as int, hi as int, name@);
    }
    let mut i = lo;
    while i < hi
        invariant
            lo <= i,
            hi <= s.len(),
            element_in(s@, lo as int, hi as int, name@) == element_in(s@, i as int, hi as int, name@),
            element_in(s@, lo as int, hi as int, name@) matches Some((c, e)) ==> lo < c <= e < hi,
        decreases hi - i,
    {
        let found = element_at_exec(s, i, hi, name);
        if found.is_some() {
            return found;
        }
        i = i + 1;
    }
    None
}

/// The first start tag named `name` in `s[lo..hi]`.
fn tag_exec(s: &Vec<char>, lo: usize, hi: usize, name: &Vec<char>) -> (r: Option<(usize, usize)>)
    requires
        hi <= s.len(),
    ensures
        span(r) == tag_in(s@, lo as int, hi as int, name@),
{
    let mut i = lo;
    while i < hi
        invariant
            lo <= i,
            hi <= s.len(),
            tag_in(s@, lo as int, hi as int, name@) == tag_in(s@, i as int, hi as int, name@),
        decreases hi - i,
    {
        let found = start_tag_exec(s, i, hi, name);
        if found.is_some() {
            return found;
        }
        i = i + 1;
    }
    None
}

/// The quoted value of the attribute `attr` of the first start tag named
/// `elem` in `s[lo..hi]`.
pub fn attribute_exec(s: &Vec<char>, lo: usize, hi: usize, elem: &Vec<char>, attr: &Vec<char>) -> (r:
    Option<(usize, usize)>)
    requires
        hi <= s.len(),
    ensures
        span(r) == attribute_in(s@, lo as int, hi as int, elem@, attr@),
        r matches Some((v, e)) ==> lo < v <= e < hi,
{
    proof {
        lemma_tag_in(s@, lo as int, hi as int, elem@);
        lemma_attribute_in(s@, lo as int, hi as int, elem@, attr@);
    }
    let (q, g) = match tag_exec(s, lo, hi, elem) {
        Some(found) => found,
        None => return None,
    };
    let mut pattern: Vec<char> = Vec::new();
    let mut j: usize = 0;
    while j < attr.len()
        invariant
            j <= attr.len(),
            pattern@ == attr@.take(j as int),
        decreases attr.len() - j,
    {
        pattern.push(attr[j]);
        proof {
            assert(attr@.take(j + 1) == attr@.take(j as int).push(attr@[j as int]));
        }
        j = j + 1;
    }
    pattern.push('=');
    pattern.push('"');
    assert(attr@.take(attr.len() as int) == attr@);
    assert(pattern@ =~= attr@ + seq!['=', '"']);
    let mut k = q;
    while k < g
        invariant
            q <= k,
            1 <= q,
            lo < q <= g < hi <= s.len(),
            tag_in(s@, lo as int, hi as int, elem@) == Some((q as int, g as int)),
            pattern@ == attr@ + seq!['=', '"'],
            attr_in(s@, q as int, g as int, attr@) == attr_in(s@, k as int, g as int, attr@),
        decreases g - k,
    {
        if attr.len() <= g - k && 2 <= g - k - attr.len() && space(s[k - 1]) && matches_exec(s, &pattern, k) {
            let v = k + attr.len() + 2;
            let quote = vec!['"'];
            assert(quote@ == seq!['"']);
            proof {
                lemma_find_in(s@, seq!['"'], v as int, g as int);
            }
            return match find_exec(s, &quote, v, g) {
                Some(e) => Some((v, e)),
                None => None,
            };
        }
        k = k + 1;
    }
    None
}

} // verus!
