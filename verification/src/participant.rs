//! Who a business document is from and for: a Peppol participant
//! identifier, and the static table that says where a participant's
//! access point is.
//!
//! A participant is `iso6523-actorid-upis::0088:7300010000001`: the one
//! scheme the network uses, two colons, and a value that is a four-digit
//! ISO 6523 International Code Designator, a colon, and the identifier the
//! designated authority issued. The scheme is fixed and the value is what
//! is checked, so a participant is written and read by its value and
//! prints qualified.

use vstd::prelude::*;
use vstd::string::*;

use crate::error::{refuse, refused, PeppolError, Refusal};
use crate::text::{
    at, chars_of, find, find_exec, has_space, is_space, join, matches_at, matches_exec, space,
};

verus! {

/// The one participant identifier scheme Peppol uses.
pub const SCHEME: &'static str = "iso6523-actorid-upis";

/// One participant: the value under [`SCHEME`], `0088:7300010000001`.
#[derive(Clone, Debug, PartialEq, Eq)]
pub struct Participant {
    pub value: String,
}

impl View for Participant {
    type V = Seq<char>;

    open spec fn view(&self) -> Seq<char> {
        self.value@
    }
}

pub open spec fn is_digit(c: char) -> bool {
    '0' <= c && c <= '9'
}

/// Four digits: an International Code Designator.
pub open spec fn is_icd(icd: Seq<char>) -> bool {
    icd.len() == 4 && forall|k: int| 0 <= k < 4 ==> is_digit(#[trigger] icd[k])
}

/// Where the ICD of `value` ends: its first colon.
pub open spec fn icd_end(value: Seq<char>) -> Option<int> {
    find(value, seq![':'])
}

/// What [`Participant::new`] makes of `value`: the value, or why it is
/// refused and the words.
pub open spec fn participant_outcome(value: Seq<char>) -> Result<Seq<char>, (Refusal, Seq<char>)> {
    match icd_end(value) {
        None => Err(
            (Refusal::NoIcd, "a participant with no ICD before its identifier: "@ + value),
        ),
        Some(k) => {
            let icd = value.take(k);
            let id = value.skip(k + 1);
            if !is_icd(icd) {
                Err(
                    (
                        Refusal::IcdNotFourDigits,
                        "a participant whose ICD "@ + icd + " is not four digits: "@ + value,
                    ),
                )
            } else if id.len() == 0 || has_space(id) {
                Err(
                    (
                        Refusal::NoIdentifier,
                        "a participant with no identifier after its ICD: "@ + value,
                    ),
                )
            } else {
                Ok(value)
            }
        },
    }
}

/// Whether `value` is a participant's value.
pub open spec fn is_participant(value: Seq<char>) -> bool {
    participant_outcome(value) is Ok
}

/// Where the scheme of a qualified participant ends: its first `::`.
pub open spec fn scheme_end(text: Seq<char>) -> Option<int> {
    find(text, seq![':', ':'])
}

/// What [`Participant::parse`] makes of `text`.
pub open spec fn parse_outcome(text: Seq<char>) -> Result<Seq<char>, (Refusal, Seq<char>)> {
    match scheme_end(text) {
        Some(k) => if text.take(k) == SCHEME@ {
            participant_outcome(text.skip(k + 2))
        } else {
            Err(
                (
                    Refusal::ForeignScheme,
                    "a participant under "@ + text.take(k) + ", and Peppol participants are "@
                        + SCHEME@,
                ),
            )
        },
        None => participant_outcome(text),
    }
}

/// The ICD of `value`: what is before its first colon, all of it where
/// there is none.
pub open spec fn icd_of(value: Seq<char>) -> Seq<char> {
    match icd_end(value) {
        Some(k) => value.take(k),
        None => value,
    }
}

/// The qualified form of a participant value.
pub open spec fn qualified(value: Seq<char>) -> Seq<char> {
    SCHEME@ + "::"@ + value
}

/// A result of the library, as contracts speak of it.
pub open spec fn outcome(r: Result<Participant, PeppolError>) -> Result<
    Seq<char>,
    (Refusal, Seq<char>),
> {
    match r {
        Ok(p) => Ok(p@),
        Err(e) => Err(refused(e)),
    }
}

/// Whether the white space test holds of some character of `s[lo..hi]`.
fn any_space(s: &Vec<char>, lo: usize, hi: usize) -> (r: bool)
    requires
        lo <= hi <= s.len(),
    ensures
        r == has_space(s@.subrange(lo as int, hi as int)),
{
    let ghost part = s@.subrange(lo as int, hi as int);
    let mut k = lo;
    while k < hi
        invariant
            lo <= k <= hi <= s.len(),
            part == s@.subrange(lo as int, hi as int),
            forall|j: int| lo <= j < k ==> !is_space(#[trigger] s@[j]),
        decreases hi - k,
    {
        if space(s[k]) {
            assert(is_space(part[k - lo]));
            return true;
        }
        k = k + 1;
    }
    assert forall|j: int| 0 <= j < part.len() implies !is_space(#[trigger] part[j]) by {
        assert(part[j] == s@[lo + j]);
    }
    false
}

/// Whether `s[0..4]` are four digits and `s` has exactly four characters
/// before `k`.
fn icd_exec(s: &Vec<char>, k: usize) -> (r: bool)
    requires
        k <= s.len(),
    ensures
        r == is_icd(s@.take(k as int)),
{
    if k != 4 {
        return false;
    }
    let ghost icd = s@.take(4);
    let mut j: usize = 0;
    while j < 4
        invariant
            j <= 4 <= s.len(),
            k == 4,
            icd == s@.take(4),
            forall|i: int| 0 <= i < j ==> is_digit(#[trigger] icd[i]),
        decreases 4 - j,
    {
        assert(icd[j as int] == s@[j as int]);
        if !('0' <= s[j] && s[j] <= '9') {
            assert(!is_digit(icd[j as int]));
            assert(!is_icd(icd));
            return false;
        }
        j = j + 1;
    }
    true
}

impl Participant {
    /// The participant whose value is `value`: a four-digit ICD, a colon,
    /// and the issued identifier. Refused where the value has no ICD, an
    /// ICD that is not four digits, or nothing after the colon.
    pub fn new(value: &str) -> (r: Result<Participant, PeppolError>)
        ensures
            outcome(r) == participant_outcome(value@),
            r is Err ==> !r->Err_0.retryable,
    {
        let v = chars_of(value);
        let colon = vec![':'];
        assert(colon@ == seq![':']);
        match find_exec(&v, &colon, 0, v.len()) {
            None => Err(
                refuse(
                    Refusal::NoIcd,
                    join("a participant with no ICD before its identifier: ", value),
                ),
            ),
            Some(k) => {
                if !icd_exec(&v, k) {
                    let icd = value.substring_char(0, k);
                    let mut message = join("a participant whose ICD ", icd);
                    message.append(" is not four digits: ");
                    message.append(value);
                    return Err(refuse(Refusal::IcdNotFourDigits, message));
                }
                proof {
                    assert(v@.skip(k + 1) == v@.subrange(k + 1, v@.len() as int));
                }
                if k + 1 == v.len() || any_space(&v, k + 1, v.len()) {
                    return Err(
                        refuse(
                            Refusal::NoIdentifier,
                            join("a participant with no identifier after its ICD: ", value),
                        ),
                    );
                }
                Ok(Participant { value: value.to_owned() })
            },
        }
    }

    /// The participant `text` names, qualified (`iso6523-actorid-upis::0088:…`)
    /// or bare (`0088:…`). Refused where the scheme is another than
    /// [`SCHEME`], or the value is refused by [`Self::new`].
    pub fn parse(text: &str) -> (r: Result<Participant, PeppolError>)
        ensures
            outcome(r) == parse_outcome(text@),
            r is Err ==> !r->Err_0.retryable,
    {
        let t = chars_of(text);
        let twice = vec![':', ':'];
        assert(twice@ == seq![':', ':']);
        match find_exec(&t, &twice, 0, t.len()) {
            Some(k) => {
                let scheme = chars_of(SCHEME);
                if k == scheme.len() && matches_exec(&t, &scheme, 0) {
                    proof {
                        assert(t@.take(k as int) =~= SCHEME@);
                    }
                    Participant::new(text.substring_char(k + 2, t.len()))
                } else {
                    proof {
                        if t@.take(k as int) == SCHEME@ {
                            assert(matches_at(t@, scheme@, 0)) by {
                                assert forall|j: int| 0 <= j < scheme@.len() implies t@[0 + j]
                                    == #[trigger] scheme@[j] by {
                                    assert(t@.take(k as int)[j] == t@[j]);
                                    assert(scheme@[j] == SCHEME@[j]);
                                }
                            }
                        }
                    }
                    let named = text.substring_char(0, k);
                    let mut message = join("a participant under ", named);
                    message.append(", and Peppol participants are ");
                    message.append(SCHEME);
                    Err(refuse(Refusal::ForeignScheme, message))
                }
            },
            None => Participant::new(text),
        }
    }

    /// The four-digit International Code Designator: who issued the
    /// identifier.
    pub fn icd(&self) -> (r: &str)
        ensures
            r@ == icd_of(self@),
    {
        let v = chars_of(self.value.as_str());
        let colon = vec![':'];
        assert(colon@ == seq![':']);
        match find_exec(&v, &colon, 0, v.len()) {
            Some(k) => self.value.as_str().substring_char(0, k),
            None => self.value.as_str(),
        }
    }

    /// The participant as it prints: `iso6523-actorid-upis::0088:…`.
    pub fn qualified(&self) -> (r: String)
        ensures
            r@ == qualified(self@),
    {
        let mut r = join(SCHEME, "::");
        r.append(self.value.as_str());
        r
    }

    /// A participant with the same value.
    pub fn duplicate(&self) -> (r: Participant)
        ensures
            r@ == self@,
    {
        Participant { value: self.value.clone() }
    }

    /// Whether `self` and `other` are the same participant.
    pub fn same(&self, other: &Participant) -> (r: bool)
        ensures
            r == (self@ == other@),
    {
        self.value == other.value
    }
}


/// The table a sequence of entries makes: each participant's value to its
/// endpoint, a later entry over an earlier one.
pub open spec fn table(entries: Seq<(Participant, String)>) -> Map<Seq<char>, Seq<char>>
    decreases entries.len(),
{
    if entries.len() == 0 {
        Map::empty()
    } else {
        table(entries.drop_last()).insert(entries.last().0@, entries.last().1@)
    }
}

/// No participant stands twice among `entries`.
pub open spec fn distinct(entries: Seq<(Participant, String)>) -> bool {
    forall|a: int, b: int|
        0 <= a < b < entries.len() ==> (#[trigger] entries[a]).0@ != (#[trigger] entries[b]).0@
}

/// A participant is in the table of `entries` where it is one of theirs.
pub proof fn lemma_table_dom(entries: Seq<(Participant, String)>)
    ensures
        forall|x: Seq<char>|
            #![trigger table(entries).dom().contains(x)]
            table(entries).dom().contains(x) <==> exists|j: int|
                0 <= j < entries.len() && (#[trigger] entries[j]).0@ == x,
    decreases entries.len(),
{
    if entries.len() > 0 {
        let rest = entries.drop_last();
        lemma_table_dom(rest);
        assert forall|j: int| 0 <= j < entries.len() implies table(entries).dom().contains(
            (#[trigger] entries[j]).0@,
        ) by {
            if j < entries.len() - 1 {
                assert(rest[j] == entries[j]);
                assert(table(rest).dom().contains(rest[j].0@));
            }
        }
        assert forall|x: Seq<char>| #![trigger table(entries).dom().contains(x)]
            table(entries).dom().contains(x) ==> exists|j: int|
                0 <= j < entries.len() && (#[trigger] entries[j]).0@ == x by {
            if table(entries).dom().contains(x) && x != entries.last().0@ {
                assert(table(rest).dom().contains(x));
                let j = choose|j: int| 0 <= j < rest.len() && (#[trigger] rest[j]).0@ == x;
                assert(entries[j] == rest[j]);
            }
        }
    }
}

/// Where no participant stands twice, the table gives each its endpoint.
pub proof fn lemma_table_at(entries: Seq<(Participant, String)>, j: int)
    requires
        distinct(entries),
        0 <= j < entries.len(),
    ensures
        table(entries).dom().contains(entries[j].0@),
        table(entries)[entries[j].0@] == entries[j].1@,
    decreases entries.len(),
{
    let rest = entries.drop_last();
    if j < entries.len() - 1 {
        assert(rest[j] == entries[j]);
        assert(distinct(rest)) by {
            assert forall|a: int, b: int| 0 <= a < b < rest.len() implies (#[trigger] rest[a]).0@
                != (#[trigger] rest[b]).0@ by {
                assert(rest[a] == entries[a] && rest[b] == entries[b]);
            }
        }
        lemma_table_at(rest, j);
        assert(entries[j].0@ != entries[entries.len() - 1].0@);
    }
}

/// Entries with the same views make the same table, and stand twice
/// where the others do.
pub proof fn lemma_table_views(a: Seq<(Participant, String)>, b: Seq<(Participant, String)>)
    requires
        a.len() == b.len(),
        forall|j: int| 0 <= j < a.len() ==> (#[trigger] a[j]).0@ == b[j].0@ && a[j].1@ == b[j].1@,
    ensures
        table(a) == table(b),
        distinct(a) == distinct(b),
    decreases a.len(),
{
    if a.len() > 0 {
        lemma_table_views(a.drop_last(), b.drop_last());
        assert(a.last() == a[a.len() - 1]);
    }
    assert(distinct(a) ==> distinct(b)) by {
        if distinct(a) {
            assert forall|x: int, y: int| 0 <= x < y < b.len() implies (#[trigger] b[x]).0@
                != (#[trigger] b[y]).0@ by {
                assert(a[x].0@ == b[x].0@ && a[y].0@ == b[y].0@);
            }
        }
    }
    assert(distinct(b) ==> distinct(a)) by {
        if distinct(b) {
            assert forall|x: int, y: int| 0 <= x < y < a.len() implies (#[trigger] a[x]).0@
                != (#[trigger] a[y]).0@ by {
                assert(a[x].0@ == b[x].0@ && a[y].0@ == b[y].0@);
            }
        }
    }
}

/// A table of finitely many entries knows finitely many participants.
pub proof fn lemma_table_finite(entries: Seq<(Participant, String)>)
    ensures
        table(entries).dom().finite(),
    decreases entries.len(),
{
    if entries.len() > 0 {
        lemma_table_finite(entries.drop_last());
    }
}

/// Where no participant stands twice, the table holds as many as the
/// entries.
pub proof fn lemma_table_len(entries: Seq<(Participant, String)>)
    requires
        distinct(entries),
    ensures
        table(entries).dom().finite(),
        table(entries).len() == entries.len(),
    decreases entries.len(),
{
    if entries.len() > 0 {
        let rest = entries.drop_last();
        assert(distinct(rest)) by {
            assert forall|a: int, b: int| 0 <= a < b < rest.len() implies (#[trigger] rest[a]).0@
                != (#[trigger] rest[b]).0@ by {
                assert(rest[a] == entries[a] && rest[b] == entries[b]);
            }
        }
        lemma_table_len(rest);
        lemma_table_dom(rest);
        if table(rest).dom().contains(entries.last().0@) {
            let j = choose|j: int| 0 <= j < rest.len() && (#[trigger] rest[j]).0@ == entries.last().0@;
            assert(rest[j] == entries[j]);
        }
    }
}

/// Entries as contracts speak of them: each participant's value and its
/// endpoint, in order.
pub open spec fn entry_views(entries: Seq<(Participant, String)>) -> Seq<(Seq<char>, Seq<char>)> {
    entries.map_values(|e: (Participant, String)| (e.0@, e.1@))
}

/// `entries` without those of participant `p`, the others in their order.
pub open spec fn without(entries: Seq<(Seq<char>, Seq<char>)>, p: Seq<char>) -> Seq<
    (Seq<char>, Seq<char>),
>
    decreases entries.len(),
{
    if entries.len() == 0 {
        seq![]
    } else if entries.last().0 == p {
        without(entries.drop_last(), p)
    } else {
        without(entries.drop_last(), p).push(entries.last())
    }
}

/// Taking out a participant twice takes out what taking it out once does.
pub proof fn lemma_without_twice(entries: Seq<(Seq<char>, Seq<char>)>, p: Seq<char>)
    ensures
        without(without(entries, p), p) == without(entries, p),
    decreases entries.len(),
{
    if entries.len() > 0 {
        lemma_without_twice(entries.drop_last(), p);
        let rest = without(entries.drop_last(), p);
        if entries.last().0 != p {
            assert(rest.push(entries.last()).drop_last() =~= rest);
        }
    }
}

/// The static table from a participant to its access point's endpoint:
/// what a Send Location resolves a participant from until SMP lookup is
/// written.
#[derive(Debug, PartialEq, Eq)]
pub struct Directory(Vec<(Participant, String)>);

impl Directory {
    /// No participant stands twice in the table.
    #[verifier::type_invariant]
    spec fn well_formed(self) -> bool {
        distinct(self.0@)
    }

    /// The table's entries in order: each participant's value and its
    /// endpoint.
    pub closed spec fn entries(&self) -> Seq<(Seq<char>, Seq<char>)> {
        entry_views(self.0@)
    }

    /// This table with `participant` at `endpoint`, replacing what it had
    /// for that participant: the other entries keep their order, and the
    /// new one comes last.
    pub fn with(self, participant: Participant, endpoint: &str) -> (r: Directory)
        ensures
            r@ == self@.insert(participant@, endpoint@),
            r.entries() == without(self.entries(), participant@).push(
                (participant@, endpoint@),
            ),
    {
        proof {
            use_type_invariant(&self);
        }
        let ghost before = self@;
        let ghost before_entries = self.entries();
        let Directory(entries) = self;
        let mut kept: Vec<(Participant, String)> = Vec::new();
        let mut i: usize = 0;
        proof {
            lemma_table_dom(entries@.take(0));
            assert(table(kept@) =~= table(entries@.take(0)).remove(participant@));
            assert(entry_views(kept@) =~= without(entry_views(entries@.take(0)), participant@));
        }
        while i < entries.len()
            invariant
                i <= entries.len(),
                distinct(entries@),
                distinct(kept@),
                table(kept@) == table(entries@.take(i as int)).remove(participant@),
                entry_views(kept@) == without(entry_views(entries@.take(i as int)), participant@),
                forall|a: int|
                    0 <= a < kept.len() ==> table(entries@.take(i as int)).dom().contains(
                        (#[trigger] kept@[a]).0@,
                    ),
            decreases entries.len() - i,
        {
            let ghost done = entries@.take(i as int);
            let ghost next = entries@.take(i + 1);
            assert(next.drop_last() == done);
            proof {
                lemma_table_dom(done);
                lemma_table_dom(next);
                assert(entry_views(next).drop_last() =~= entry_views(done));
                assert(entry_views(next).last() == (entries@[i as int].0@, entries@[i as int].1@));
            }
            if !entries[i].0.same(&participant) {
                let entry = (entries[i].0.duplicate(), entries[i].1.clone());
                let ghost old_kept = kept@;
                kept.push(entry);
                proof {
                    assert(kept@.drop_last() == old_kept);
                    assert(entry_views(kept@) =~= entry_views(old_kept).push(
                        (entries@[i as int].0@, entries@[i as int].1@),
                    ));
                    assert(table(kept@) =~= table(next).remove(participant@));
                    assert forall|a: int, b: int| 0 <= a < b < kept@.len() implies (
                    #[trigger] kept@[a]).0@ != (#[trigger] kept@[b]).0@ by {
                        if b == kept@.len() - 1 {
                            assert(kept@[a] == old_kept[a]);
                            assert(table(done).dom().contains(old_kept[a].0@));
                            let j = choose|j: int|
                                0 <= j < done.len() && (#[trigger] done[j]).0@ == old_kept[a].0@;
                            assert(done[j] == entries@[j]);
                        } else {
                            assert(kept@[a] == old_kept[a] && kept@[b] == old_kept[b]);
                        }
                    }
                    assert forall|a: int| 0 <= a < kept.len() implies table(next).dom().contains(
                        (#[trigger] kept@[a]).0@,
                    ) by {
                        if a < kept.len() - 1 {
                            assert(kept@[a] == old_kept[a]);
                        }
                    }
                }
            } else {
                proof {
                    assert(table(kept@) =~= table(next).remove(participant@));
                }
            }
            i = i + 1;
        }
        proof {
            assert(entries@.take(entries.len() as int) == entries@);
            lemma_table_dom(kept@);
            assert(entry_views(entries@) == before_entries);
        }
        let ghost old_kept = kept@;
        kept.push((participant, endpoint.to_owned()));
        proof {
            assert(kept@.drop_last() == old_kept);
            assert(table(kept@) =~= before.insert(participant@, endpoint@));
            assert(entry_views(kept@) =~= entry_views(old_kept).push((participant@, endpoint@)));
            assert forall|a: int, b: int| 0 <= a < b < kept@.len() implies (
            #[trigger] kept@[a]).0@ != (#[trigger] kept@[b]).0@ by {
                if b == kept@.len() - 1 {
                    assert(kept@[a] == old_kept[a]);
                    assert(table(old_kept).dom().contains(old_kept[a].0@));
                } else {
                    assert(kept@[a] == old_kept[a] && kept@[b] == old_kept[b]);
                }
            }
        }
        Directory(kept)
    }

    /// The endpoint of `participant`, where the table knows one.
    pub fn endpoint_of(&self, participant: &Participant) -> (r: Option<&str>)
        ensures
            r is Some <==> self@.contains_key(participant@),
            r matches Some(e) ==> e@ == self@[participant@],
    {
        proof {
            use_type_invariant(self);
            lemma_table_dom(self.0@);
        }
        let mut i: usize = 0;
        while i < self.0.len()
            invariant
                i <= self.0.len(),
                distinct(self.0@),
                forall|j: int| 0 <= j < i ==> (#[trigger] self.0@[j]).0@ != participant@,
            decreases self.0.len() - i,
        {
            if self.0[i].0.same(participant) {
                proof {
                    lemma_table_at(self.0@, i as int);
                }
                return Some(self.0[i].1.as_str());
            }
            i = i + 1;
        }
        None
    }

    /// A table with the same entries.
    pub fn duplicate(&self) -> (r: Directory)
        ensures
            r@ == self@,
            r.entries() == self.entries(),
    {
        proof {
            use_type_invariant(self);
        }
        let mut copy: Vec<(Participant, String)> = Vec::new();
        let mut i: usize = 0;
        while i < self.0.len()
            invariant
                i <= self.0.len(),
                distinct(self.0@),
                copy@.len() == i,
                forall|j: int| 0 <= j < i ==> (#[trigger] copy@[j]).0@ == self.0@[j].0@ && copy@[j].1@
                    == self.0@[j].1@,
            decreases self.0.len() - i,
        {
            copy.push((self.0[i].0.duplicate(), self.0[i].1.clone()));
            i = i + 1;
        }
        proof {
            lemma_table_views(copy@, self.0@);
            assert(entry_views(copy@) =~= entry_views(self.0@));
        }
        Directory(copy)
    }

    /// How many participants the table knows.
    pub fn len(&self) -> (r: usize)
        ensures
            r == self@.len(),
            self@.dom().finite(),
    {
        proof {
            use_type_invariant(self);
            lemma_table_len(self.0@);
        }
        self.0.len()
    }

    /// A directory knows finitely many participants.
    pub proof fn lemma_finite(&self)
        ensures
            self@.dom().finite(),
    {
        lemma_table_finite(self.0@);
    }

    /// Whether the table knows no participant.
    pub fn is_empty(&self) -> (r: bool)
        ensures
            r == (self@.len() == 0),
    {
        self.len() == 0
    }
}

impl View for Directory {
    type V = Map<Seq<char>, Seq<char>>;

    closed spec fn view(&self) -> Map<Seq<char>, Seq<char>> {
        table(self.0@)
    }
}

impl Default for Directory {
    /// The table that knows no participant.
    fn default() -> (r: Directory)
        ensures
            r@ == Map::<Seq<char>, Seq<char>>::empty(),
            r.entries() == Seq::<(Seq<char>, Seq<char>)>::empty(),
    {
        let r = Directory(Vec::new());
        assert(r.entries() =~= Seq::<(Seq<char>, Seq<char>)>::empty());
        r
    }
}

} // verus!
