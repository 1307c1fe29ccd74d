//! What holds of the library across its functions.

use vstd::prelude::*;
use vstd::string::*;

use crate::participant::{lemma_without_twice, without, Directory, is_participant, parse_outcome, participant_outcome, qualified, SCHEME};
use crate::access_point::{
    resolve_outcome,
    arrived_outcome, first_property, origin_of, outgoing_outcome, profile_outcome, TransportView,
};
use crate::sbdh::{
    document_outcome, document_window, identifier_outcome, is_element, last_of, skip_char, party_outcome, read_outcome, sbd_pieces, sbd_text,
    scope_in, scopes_in, text_in, trimmed, unwrap_outcome, wrap_outcome, HeaderView, NAMESPACE,
};
use crate::text::{drop_space, has_space, is_space, skip_space, trim};
use crate::written::{
    enclosed, lemma_attribute_found, lemma_close_end, lemma_element_absent,
    lemma_element_located, lemma_piece_at, lemma_piece_window, lemma_start_mono, opens, passes,
    piece_text, plain_name, plain_text, render, start, wf_piece, wf_pieces, Piece,
};
use crate::xml::{
    lemma_element_in,
    element_in, escape, lemma_escape_ends, lemma_escape_has_no_markup, lemma_unescape_escape,
    lemma_unescape_plain, unescape,
};
use crate::text::{find, find_in, lemma_find_in, lemma_find_in_at, matches_at};
use crate::error::Refusal;
use vstd::utf8::{
    decode_utf8, decode_utf8_encode_utf8, encode_utf8, encode_utf8_decode_utf8, encode_utf8_valid_utf8,
};
use crate::loopback::refusal_of;
use vstd::utf8::valid_utf8;
use crate::{AGREEMENT, FINAL_RECIPIENT, ORIGINAL_SENDER, PARTY_TYPE};

verus! {

/// A participant reads the same qualified or bare: the qualified form of
/// every participant's value parses to that participant, and so does the
/// value itself where it holds no `::`.
pub proof fn law_participant_reads_qualified_or_bare(value: Seq<char>)
    requires
        is_participant(value),
    ensures
        parse_outcome(qualified(value)) == Ok::<_, (crate::error::Refusal, Seq<char>)>(value),
        find(value, seq![':', ':']) is None ==> parse_outcome(value) == Ok::<
            _,
            (crate::error::Refusal, Seq<char>),
        >(value),
{
    reveal_strlit("iso6523-actorid-upis");
    reveal_strlit("::");
    let q = qualified(value);
    let twice = seq![':', ':'];
    assert(SCHEME@.len() == 20);
    assert forall|j: int| 0 <= j < 20 implies !matches_at(q, twice, j) by {
        assert(q[j] == SCHEME@[j]);
    }
    assert(matches_at(q, twice, 20)) by {
        assert(q[20] == ':' && q[21] == ':');
    }
    lemma_find_in_at(q, twice, 0, q.len() as int, 20);
    assert(q.take(20) =~= SCHEME@);
    assert(q.skip(22) =~= value);
}

/// A message shaped as this library sends it to a participant is under
/// the profile at that participant's access point: the party type, the
/// agreement, and the participant as its final recipient (where the
/// participant's value holds no `::`).
pub proof fn law_what_is_sent_is_under_the_profile(sender: Seq<char>, receiver: Seq<char>)
    requires
        is_participant(receiver),
        find(receiver, seq![':', ':']) is None,
    ensures
        profile_outcome(
            Some(PARTY_TYPE@),
            Some(AGREEMENT@),
            seq![(ORIGINAL_SENDER@, sender), (FINAL_RECIPIENT@, receiver)],
            receiver,
        ) is Ok,
{
    reveal_strlit("originalSender");
    reveal_strlit("finalRecipient");
    let props = seq![(ORIGINAL_SENDER@, sender), (FINAL_RECIPIENT@, receiver)];
    assert(props[0].0 != FINAL_RECIPIENT@) by {
        assert(props[0].0[0] != FINAL_RECIPIENT@[0]);
    }
    assert(props.drop_first() =~= seq![(FINAL_RECIPIENT@, receiver)]);
    assert(first_property(props.drop_first(), FINAL_RECIPIENT@) == Some(receiver));
    law_participant_reads_qualified_or_bare(receiver);
}

/// A directory with a participant's endpoint answers that endpoint for
/// it, answers for every other participant what it answered before, and
/// knows one more participant exactly where it did not know this one.
pub proof fn law_directory_with(
    directory: Directory,
    participant: Seq<char>,
    endpoint: Seq<char>,
    other: Seq<char>,
)
    ensures
        directory@.insert(participant, endpoint).contains_key(participant),
        directory@.insert(participant, endpoint)[participant] == endpoint,
        other != participant ==> (directory@.insert(participant, endpoint).contains_key(other)
            == directory@.contains_key(other)),
        other != participant && directory@.contains_key(other) ==> directory@.insert(
            participant,
            endpoint,
        )[other] == directory@[other],
        directory@.insert(participant, endpoint).len() == if directory@.contains_key(
            participant,
        ) {
            directory@.len()
        } else {
            directory@.len() + 1
        },
{
    directory.lemma_finite();
    if directory@.contains_key(participant) {
        assert(directory@.insert(participant, endpoint).dom() =~= directory@.dom());
    }
}

/// A directory given a participant's endpoint twice is the directory
/// given only the second: the other entries in their order, the
/// participant last at the second endpoint.
pub proof fn law_directory_with_twice(
    directory: Directory,
    participant: Seq<char>,
    first: Seq<char>,
    second: Seq<char>,
)
    ensures
        without(without(directory.entries(), participant).push((participant, first)), participant)
            .push((participant, second)) == without(directory.entries(), participant).push(
            (participant, second),
        ),
{
    let rest = without(directory.entries(), participant);
    let once = rest.push((participant, first));
    assert(once.drop_last() =~= rest);
    lemma_without_twice(directory.entries(), participant);
}

/// Text with no white space at either end.
pub open spec fn settled(x: Seq<char>) -> bool {
    x.len() == 0 || (!is_space(x[0]) && !is_space(x.last()))
}

/// A settled window trims to itself.
proof fn lemma_trimmed_settled(s: Seq<char>, lo: int, hi: int)
    requires
        0 <= lo <= hi <= s.len(),
        settled(s.subrange(lo, hi)),
    ensures
        trimmed(s, lo, hi) == (lo, hi),
{
    if lo < hi {
        assert(s.subrange(lo, hi)[0] == s[lo]);
        assert(s.subrange(lo, hi).last() == s[hi - 1]);
    }
}

/// A field written as `<n>` text `</n>` reads back as the text unescaped.
proof fn lemma_text_located(ps: Seq<Piece>, lo: int, k: int, hi: int, n: Seq<char>)
    requires
        0 <= lo <= k,
        k + 2 < ps.len(),
        wf_pieces(ps),
        passes(ps, lo, k, n),
        ps[k] == Piece::Open(n),
        ps[k + 1] is Text,
        ps[k + 2] == Piece::Close(n),
        settled(ps[k + 1]->Text_0),
        plain_name(n),
        start(ps, k + 3) <= hi <= render(ps).len(),
    ensures
        text_in(render(ps), start(ps, lo), hi, n) == unescape(ps[k + 1]->Text_0),
{
    assert(enclosed(ps, k, k + 2, n));
    lemma_element_located(ps, lo, k, k + 2, hi, n);
    lemma_piece_window(ps, k + 1);
    lemma_start_mono(ps, k + 2, ps.len() as int);
    lemma_trimmed_settled(render(ps), start(ps, k + 1), start(ps, k + 2));
}

/// Escaped settled text is settled.
proof fn lemma_escape_settled(x: Seq<char>)
    requires
        settled(x),
    ensures
        settled(escape(x)),
        unescape(escape(x)) == x,
{
    lemma_escape_ends(x);
    lemma_unescape_escape(x);
}

/// A participant's value has no white space, so it is settled and trims
/// to itself.
proof fn lemma_participant_settled(v: Seq<char>)
    requires
        is_participant(v),
    ensures
        settled(v),
        trim(v) == v,
        forall|i: int| 0 <= i < v.len() ==> !is_space(#[trigger] v[i]),
{
    let k = crate::participant::icd_end(v)->Some_0;
    crate::text::lemma_find_in(v, seq![':'], 0, v.len() as int);
    let id = v.skip(k + 1);
    assert forall|i: int| 0 <= i < v.len() implies !is_space(#[trigger] v[i]) by {
        if i < k {
            assert(v.take(k)[i] == v[i]);
            assert(crate::participant::is_digit(v.take(k)[i]));
        } else if i == k {
            assert(v[k + 0] == seq![':'][0]);
        } else {
            assert(id[i - k - 1] == v[i]);
            if is_space(v[i]) {
                assert(has_space(id));
            }
        }
    }
    crate::text::lemma_skip_space(v, 0, v.len() as int);
    crate::text::lemma_drop_space(v, 0, v.len() as int);
    assert(v.subrange(0, v.len() as int) =~= v);
}

/// The names and texts this library writes in a Standard Business
/// Document are plain.
proof fn lemma_sbd_wf(header: HeaderView, document: Seq<char>)
    ensures
        wf_pieces(sbd_pieces(header, document)),
{
    reveal_strlit("StandardBusinessDocument");
    reveal_strlit("xmlns");
    reveal_strlit("StandardBusinessDocumentHeader");
    reveal_strlit("HeaderVersion");
    reveal_strlit("1.0");
    reveal_strlit("Sender");
    reveal_strlit("Identifier");
    reveal_strlit("Authority");
    reveal_strlit("Receiver");
    reveal_strlit("DocumentIdentification");
    reveal_strlit("Standard");
    reveal_strlit("TypeVersion");
    reveal_strlit("InstanceIdentifier");
    reveal_strlit("Type");
    reveal_strlit("CreationDateAndTime");
    reveal_strlit("BusinessScope");
    reveal_strlit("Scope");
    reveal_strlit("DOCUMENTID");
    reveal_strlit("PROCESSID");
    reveal_strlit("iso6523-actorid-upis");
    reveal_strlit("http://www.unece.org/cefact/namespaces/StandardBusinessDocumentHeader");
    let (standard, kind, version) = crate::sbdh::parts_of(header.document.1);
    lemma_escape_has_no_markup(header.sender);
    lemma_escape_has_no_markup(header.receiver);
    lemma_escape_has_no_markup(standard);
    lemma_escape_has_no_markup(kind);
    lemma_escape_has_no_markup(version);
    lemma_escape_has_no_markup(header.instance);
    lemma_escape_has_no_markup(header.created);
    lemma_escape_has_no_markup(header.document.0);
    lemma_escape_has_no_markup(header.document.1);
    lemma_escape_has_no_markup(header.process.0);
    lemma_escape_has_no_markup(header.process.1);
    let ps = sbd_pieces(header, document);
    assert forall|k: int| 0 <= k < ps.len() implies wf_piece(#[trigger] ps[k]) by {}
}


/// The header fields read back as they were written: participants, a
/// scheme on each identifier, and no white space around any field.
pub open spec fn writable(header: HeaderView) -> bool {
    &&& is_participant(header.sender)
    &&& is_participant(header.receiver)
    &&& header.document.0.len() > 0
    &&& header.process.0.len() > 0
    &&& settled(header.document.0)
    &&& settled(header.document.1)
    &&& settled(header.process.0)
    &&& settled(header.process.1)
    &&& settled(header.instance)
    &&& settled(header.created)
}

/// A business document as it travels: an element (a `<` first, a `>`
/// last) that holds no closing tag of a Standard Business Document.
pub open spec fn carried(document: Seq<char>) -> bool {
    &&& document.len() > 2
    &&& document[0] == '<'
    &&& document.last() == '>'
    &&& find(document, piece_text(Piece::Close("StandardBusinessDocument"@))) is None
}

/// The rendering of all the pieces ends where the last piece does.
proof fn lemma_start_all(ps: Seq<Piece>)
    ensures
        start(ps, ps.len() as int) == render(ps).len(),
        start(ps, 0) == 0,
{
    assert(ps.take(ps.len() as int) =~= ps);
    assert(ps.take(0) =~= Seq::<Piece>::empty());
}

/// Reading a Standard Business Document this library wrote finds its
/// root, its header, and the business document after the header.
proof fn lemma_read_frame(header: HeaderView, document: Seq<char>)
    requires
        carried(document),
    ensures
        ({
            let ps = sbd_pieces(header, document);
            let s = render(ps);
            &&& element_in(s, 0, s.len() as int, "StandardBusinessDocument"@) == Some(
                (start(ps, 2), start(ps, 59)),
            )
            &&& element_in(s, start(ps, 2), start(ps, 59), "StandardBusinessDocumentHeader"@)
                == Some((start(ps, 3), start(ps, 57)))
            &&& find_in(s, seq!['>'], start(ps, 57), start(ps, 59)) == Some(start(ps, 58) - 1)
            &&& trimmed(s, start(ps, 58), start(ps, 59)) == (start(ps, 58), start(ps, 59))
            &&& s.subrange(start(ps, 58), start(ps, 59)) == document
            &&& start(ps, 58) < start(ps, 59)
        }),
{
    reveal_strlit("StandardBusinessDocument");
    reveal_strlit("StandardBusinessDocumentHeader");
    reveal_strlit("HeaderVersion");
    reveal_strlit("Sender");
    reveal_strlit("Identifier");
    reveal_strlit("Receiver");
    reveal_strlit("DocumentIdentification");
    reveal_strlit("Standard");
    reveal_strlit("TypeVersion");
    reveal_strlit("InstanceIdentifier");
    reveal_strlit("Type");
    reveal_strlit("CreationDateAndTime");
    reveal_strlit("BusinessScope");
    reveal_strlit("Scope");
    let ps = sbd_pieces(header, document);
    let s = render(ps);
    lemma_sbd_wf(header, document);
    lemma_start_all(ps);
    assert(ps.len() == 60);
    assert(wf_piece(ps[1]));
    assert(passes(ps, 0, 1, "StandardBusinessDocument"@));
    assert(enclosed(ps, 1, 59, "StandardBusinessDocument"@));
    lemma_element_located(ps, 0, 1, 59, s.len() as int, "StandardBusinessDocument"@);
    assert(wf_piece(ps[2]));
    assert(passes(ps, 2, 2, "StandardBusinessDocumentHeader"@));
    assert(enclosed(ps, 2, 57, "StandardBusinessDocumentHeader"@));
    lemma_start_mono(ps, 58, 59);
    lemma_element_located(ps, 2, 2, 57, start(ps, 59), "StandardBusinessDocumentHeader"@);
    assert(wf_piece(ps[57]));
    lemma_close_end(ps, 57, start(ps, 59));
    lemma_piece_window(ps, 58);
    assert(piece_text(ps[58]) == document);
    lemma_piece_at(ps, 58);
    assert(s.subrange(start(ps, 58), start(ps, 59)) == document);
    assert(settled(document));
    lemma_trimmed_settled(s, start(ps, 58), start(ps, 59));
}


/// A `Sender` or `Receiver` written as this library writes it reads back
/// as the participant.
#[verifier::spinoff_prover]
#[verifier::rlimit(30)]
proof fn lemma_party_located(
    ps: Seq<Piece>,
    lo: int,
    k: int,
    hi: int,
    side: Seq<char>,
    value: Seq<char>,
)
    requires
        0 <= lo <= k,
        k + 4 < ps.len(),
        wf_pieces(ps),
        passes(ps, lo, k, side),
        ps[k] == Piece::Open(side),
        ps[k + 1] == Piece::Attributed("Identifier"@, "Authority"@, SCHEME@),
        ps[k + 2] == Piece::Text(escape(value)),
        ps[k + 3] == Piece::Close("Identifier"@),
        ps[k + 4] == Piece::Close(side),
        side != "Identifier"@,
        plain_name(side),
        is_participant(value),
        start(ps, k + 5) <= hi <= render(ps).len(),
    ensures
        party_outcome(render(ps), start(ps, lo), hi, side) == Ok::<
            _,
            (crate::error::Refusal, Seq<char>),
        >(value),
{
    reveal_strlit("Identifier");
    reveal_strlit("Authority");
    reveal_strlit("iso6523-actorid-upis");
    let s = render(ps);
    assert(wf_piece(ps[k + 1]));
    assert(enclosed(ps, k, k + 4, side));
    lemma_element_located(ps, lo, k, k + 4, hi, side);
    lemma_start_mono(ps, k + 2, k + 4);
    lemma_attribute_found(ps, k + 1, start(ps, k + 4));
    lemma_unescape_plain(SCHEME@);
    assert(passes(ps, k + 1, k + 1, "Identifier"@));
    assert(enclosed(ps, k + 1, k + 3, "Identifier"@));
    lemma_element_located(ps, k + 1, k + 1, k + 3, start(ps, k + 4), "Identifier"@);
    lemma_piece_window(ps, k + 2);
    lemma_participant_settled(value);
    lemma_unescape_escape(value);
}

/// Reading the `Sender` and the `Receiver` of a Standard Business
/// Document this library wrote gives back the participants.
proof fn lemma_read_parties(header: HeaderView, document: Seq<char>)
    requires
        writable(header),
    ensures
        ({
            let ps = sbd_pieces(header, document);
            &&& party_outcome(render(ps), start(ps, 3), start(ps, 57), "Sender"@) == Ok::<
                _,
                (crate::error::Refusal, Seq<char>),
            >(header.sender)
            &&& party_outcome(render(ps), start(ps, 3), start(ps, 57), "Receiver"@) == Ok::<
                _,
                (crate::error::Refusal, Seq<char>),
            >(header.receiver)
        }),
{
    reveal_strlit("HeaderVersion");
    reveal_strlit("Sender");
    reveal_strlit("Identifier");
    reveal_strlit("Receiver");
    let ps = sbd_pieces(header, document);
    lemma_sbd_wf(header, document);
    lemma_start_all(ps);
    assert(ps.len() == 60);
    lemma_start_mono(ps, 11, 57);
    lemma_start_mono(ps, 16, 57);
    assert(wf_piece(ps[6]) && wf_piece(ps[11]));
    assert(passes(ps, 3, 6, "Sender"@));
    lemma_party_located(ps, 3, 6, start(ps, 57), "Sender"@, header.sender);
    assert(passes(ps, 3, 11, "Receiver"@));
    lemma_party_located(ps, 3, 11, start(ps, 57), "Receiver"@, header.receiver);
}


/// Reading the document identification of a Standard Business Document
/// this library wrote gives back the instance and the creation time.
proof fn lemma_read_identification(header: HeaderView, document: Seq<char>)
    requires
        writable(header),
    ensures
        ({
            let ps = sbd_pieces(header, document);
            let s = render(ps);
            &&& element_in(s, start(ps, 3), start(ps, 57), "DocumentIdentification"@) == Some(
                (start(ps, 17), start(ps, 32)),
            )
            &&& text_in(s, start(ps, 17), start(ps, 32), "InstanceIdentifier"@) == header.instance
            &&& text_in(s, start(ps, 17), start(ps, 32), "CreationDateAndTime"@) == header.created
        }),
{
    reveal_strlit("HeaderVersion");
    reveal_strlit("Sender");
    reveal_strlit("Identifier");
    reveal_strlit("Receiver");
    reveal_strlit("DocumentIdentification");
    reveal_strlit("Standard");
    reveal_strlit("TypeVersion");
    reveal_strlit("InstanceIdentifier");
    reveal_strlit("Type");
    reveal_strlit("CreationDateAndTime");
    let ps = sbd_pieces(header, document);
    lemma_sbd_wf(header, document);
    lemma_start_all(ps);
    assert(ps.len() == 60);
    lemma_start_mono(ps, 33, 57);
    assert(wf_piece(ps[16]));
    assert(passes(ps, 3, 16, "DocumentIdentification"@));
    assert(enclosed(ps, 16, 32, "DocumentIdentification"@));
    lemma_element_located(ps, 3, 16, 32, start(ps, 57), "DocumentIdentification"@);
    lemma_escape_settled(header.instance);
    lemma_escape_settled(header.created);
    lemma_start_mono(ps, 26, 32);
    assert(wf_piece(ps[23]));
    assert(passes(ps, 17, 23, "InstanceIdentifier"@));
    lemma_text_located(ps, 17, 23, start(ps, 32), "InstanceIdentifier"@);
    assert(wf_piece(ps[29]));
    assert(passes(ps, 17, 29, "CreationDateAndTime"@));
    lemma_text_located(ps, 17, 29, start(ps, 32), "CreationDateAndTime"@);
}

/// One `<Scope>` written as this library writes it reads back as its
/// kind and its identifier.
proof fn lemma_scope_located(
    ps: Seq<Piece>,
    lo: int,
    k: int,
    hi: int,
    kind: Seq<char>,
    id: (Seq<char>, Seq<char>),
)
    requires
        0 <= lo <= k,
        k + 10 < ps.len(),
        wf_pieces(ps),
        passes(ps, lo, k, "Scope"@),
        ps.subrange(k, k + 11) == seq![
            Piece::Open("Scope"@),
            Piece::Open("Type"@),
            Piece::Text(kind),
            Piece::Close("Type"@),
            Piece::Open("InstanceIdentifier"@),
            Piece::Text(escape(id.1)),
            Piece::Close("InstanceIdentifier"@),
            Piece::Open("Identifier"@),
            Piece::Text(escape(id.0)),
            Piece::Close("Identifier"@),
            Piece::Close("Scope"@),
        ],
        settled(kind),
        forall|i: int| 0 <= i < kind.len() ==> #[trigger] kind[i] != '&',
        id.0.len() > 0,
        settled(id.0),
        settled(id.1),
        start(ps, k + 11) <= hi <= render(ps).len(),
    ensures
        element_in(render(ps), start(ps, lo), hi, "Scope"@) == Some(
            (start(ps, k + 1), start(ps, k + 10)),
        ),
        start(ps, lo) < start(ps, k + 10),
        scope_in(render(ps), start(ps, k + 1), start(ps, k + 10)) == (kind, id),
{
    reveal_strlit("Scope");
    reveal_strlit("Type");
    reveal_strlit("InstanceIdentifier");
    reveal_strlit("Identifier");
    let s = render(ps);
    let sub = ps.subrange(k, k + 11);
    assert forall|x: int| 0 <= x < 11 implies ps[k + x] == #[trigger] sub[x] by {}
    assert(ps[k] == sub[0] && ps[k + 1] == sub[1] && ps[k + 2] == sub[2] && ps[k + 3] == sub[3]);
    assert(ps[k + 4] == sub[4] && ps[k + 5] == sub[5] && ps[k + 6] == sub[6] && ps[k + 7] == sub[7]);
    assert(ps[k + 8] == sub[8] && ps[k + 9] == sub[9] && ps[k + 10] == sub[10]);
    assert(enclosed(ps, k, k + 10, "Scope"@));
    assert(wf_piece(ps[k]));
    lemma_element_located(ps, lo, k, k + 10, hi, "Scope"@);
    lemma_start_mono(ps, k + 4, k + 10);
    lemma_start_mono(ps, k + 7, k + 10);
    lemma_start_mono(ps, k + 10, k + 11);
    lemma_unescape_plain(kind);
    lemma_escape_settled(id.0);
    lemma_escape_settled(id.1);
    assert(passes(ps, k + 1, k + 1, "Type"@));
    lemma_text_located(ps, k + 1, k + 1, start(ps, k + 10), "Type"@);
    assert(passes(ps, k + 1, k + 4, "InstanceIdentifier"@));
    lemma_text_located(ps, k + 1, k + 4, start(ps, k + 10), "InstanceIdentifier"@);
    assert(passes(ps, k + 1, k + 7, "Identifier"@));
    lemma_text_located(ps, k + 1, k + 7, start(ps, k + 10), "Identifier"@);
}

/// Reading a Standard Business Document this library wrote finds its
/// business scope.
proof fn lemma_read_business_scope(header: HeaderView, document: Seq<char>)
    ensures
        ({
            let ps = sbd_pieces(header, document);
            element_in(render(ps), start(ps, 3), start(ps, 57), "BusinessScope"@) == Some(
                (start(ps, 34), start(ps, 56)),
            )
        }),
{
    reveal_strlit("HeaderVersion");
    reveal_strlit("Sender");
    reveal_strlit("Identifier");
    reveal_strlit("Receiver");
    reveal_strlit("DocumentIdentification");
    reveal_strlit("Standard");
    reveal_strlit("TypeVersion");
    reveal_strlit("InstanceIdentifier");
    reveal_strlit("Type");
    reveal_strlit("CreationDateAndTime");
    reveal_strlit("BusinessScope");
    reveal_strlit("Scope");
    let ps = sbd_pieces(header, document);
    lemma_sbd_wf(header, document);
    lemma_start_all(ps);
    assert(ps.len() == 60);
    lemma_start_mono(ps, 57, 60);
    assert(wf_piece(ps[33]));
    assert("HeaderVersion"@ != "BusinessScope"@) by {
        assert("HeaderVersion"@[0] != "BusinessScope"@[0]);
    }
    assert(passes(ps, 3, 33, "BusinessScope"@));
    assert(enclosed(ps, 33, 56, "BusinessScope"@));
    lemma_element_located(ps, 3, 33, 56, start(ps, 57), "BusinessScope"@);
}

/// Reading the business scope of a Standard Business Document this
/// library wrote gives back its two scopes, in order.
#[verifier::rlimit(40)]
proof fn lemma_read_scopes(header: HeaderView, document: Seq<char>)
    requires
        writable(header),
    ensures
        ({
            let ps = sbd_pieces(header, document);
            scopes_in(render(ps), start(ps, 34), start(ps, 56)) == seq![
                ("DOCUMENTID"@, header.document),
                ("PROCESSID"@, header.process),
            ]
        }),
{
    reveal_strlit("Identifier");
    reveal_strlit("InstanceIdentifier");
    reveal_strlit("Type");
    reveal_strlit("Scope");
    reveal_strlit("DOCUMENTID");
    reveal_strlit("PROCESSID");
    let ps = sbd_pieces(header, document);
    let s = render(ps);
    lemma_sbd_wf(header, document);
    lemma_start_all(ps);
    assert(ps.len() == 60);
    lemma_start_mono(ps, 56, 60);
    assert(ps.subrange(34, 45) =~= seq![
        Piece::Open("Scope"@),
        Piece::Open("Type"@),
        Piece::Text("DOCUMENTID"@),
        Piece::Close("Type"@),
        Piece::Open("InstanceIdentifier"@),
        Piece::Text(escape(header.document.1)),
        Piece::Close("InstanceIdentifier"@),
        Piece::Open("Identifier"@),
        Piece::Text(escape(header.document.0)),
        Piece::Close("Identifier"@),
        Piece::Close("Scope"@),
    ]);
    assert(passes(ps, 34, 34, "Scope"@));
    lemma_start_mono(ps, 45, 56);
    lemma_scope_located(ps, 34, 34, start(ps, 56), "DOCUMENTID"@, header.document);
    assert(ps.subrange(45, 56) =~= seq![
        Piece::Open("Scope"@),
        Piece::Open("Type"@),
        Piece::Text("PROCESSID"@),
        Piece::Close("Type"@),
        Piece::Open("InstanceIdentifier"@),
        Piece::Text(escape(header.process.1)),
        Piece::Close("InstanceIdentifier"@),
        Piece::Open("Identifier"@),
        Piece::Text(escape(header.process.0)),
        Piece::Close("Identifier"@),
        Piece::Close("Scope"@),
    ]);
    assert(passes(ps, 44, 45, "Scope"@));
    lemma_scope_located(ps, 44, 45, start(ps, 56), "PROCESSID"@, header.process);
    assert(passes(ps, 55, 56, "Scope"@));
    lemma_element_absent(ps, 55, 56, "Scope"@);
    lemma_piece_at(ps, 55);
    let first = ("DOCUMENTID"@, header.document);
    let second = ("PROCESSID"@, header.process);
    let none = Seq::<(Seq<char>, (Seq<char>, Seq<char>))>::empty();
    assert(scopes_in(s, start(ps, 55), start(ps, 56)) == none);
    assert(scopes_in(s, start(ps, 44), start(ps, 56)) == seq![second] + none);
    assert(scopes_in(s, start(ps, 34), start(ps, 56)) == seq![first] + (seq![second] + none));
    assert(seq![first] + (seq![second] + none) =~= seq![first, second]);
}

/// What `business_document` accepts is one element: a `<` first, a `>`
/// last, and more than two characters.
proof fn lemma_document_shape(payload: Seq<u8>)
    requires
        document_outcome(payload) is Ok,
    ensures
        ({
            let d = document_outcome(payload)->Ok_0;
            &&& d.len() > 2
            &&& d[0] == '<'
            &&& d.last() == '>'
        }),
{
    let t = decode_utf8(payload);
    let (a, b) = document_window(t)->Ok_0;
    assert(t.subrange(a, b)[0] == t[a]);
    assert(t.subrange(a, b).last() == t[b - 1]);
}

/// Reading a text whose frame, header fields and scopes are found where
/// they were written gives back the header and the business document.
proof fn lemma_read_assembled(
    t: Seq<char>,
    header: HeaderView,
    document: Seq<char>,
    rc: int,
    re: int,
    hc: int,
    he: int,
    g: int,
    bc: int,
    be: int,
    ic: int,
    ie: int,
)
    requires
        element_in(t, 0, t.len() as int, "StandardBusinessDocument"@) == Some((rc, re)),
        element_in(t, rc, re, "StandardBusinessDocumentHeader"@) == Some((hc, he)),
        find_in(t, seq!['>'], he, re) == Some(g),
        trimmed(t, g + 1, re) == (g + 1, re),
        0 <= g + 1 < re <= t.len(),
        t.subrange(g + 1, re) == document,
        element_in(t, hc, he, "BusinessScope"@) == Some((bc, be)),
        scopes_in(t, bc, be) == seq![
            ("DOCUMENTID"@, header.document),
            ("PROCESSID"@, header.process),
        ],
        element_in(t, hc, he, "DocumentIdentification"@) == Some((ic, ie)),
        text_in(t, ic, ie, "InstanceIdentifier"@) == header.instance,
        text_in(t, ic, ie, "CreationDateAndTime"@) == header.created,
        party_outcome(t, hc, he, "Sender"@) == Ok::<_, (Refusal, Seq<char>)>(header.sender),
        party_outcome(t, hc, he, "Receiver"@) == Ok::<_, (Refusal, Seq<char>)>(header.receiver),
    ensures
        read_outcome(t) == Ok::<_, (Refusal, Seq<char>)>((header, document)),
{
    reveal_strlit("DOCUMENTID");
    reveal_strlit("PROCESSID");
    let scopes = seq![("DOCUMENTID"@, header.document), ("PROCESSID"@, header.process)];
    assert("PROCESSID"@ != "DOCUMENTID"@) by {
        assert("PROCESSID"@[0] != "DOCUMENTID"@[0]);
    }
    let first = seq![("DOCUMENTID"@, header.document)];
    assert(scopes.drop_last() =~= first);
    assert(first.last().0 == "DOCUMENTID"@);
    assert(last_of(first, "DOCUMENTID"@) == Some(header.document));
    assert(scopes.last().0 == "PROCESSID"@);
    assert(last_of(scopes, "DOCUMENTID"@) == Some(header.document));
    assert(last_of(scopes, "PROCESSID"@) == Some(header.process));
}

/// A business document wrapped in a Standard Business Document under a
/// header reads back, unwrapped, as that header and that business
/// document: where the header's fields read back as they were written
/// (`writable`) and the business document holds no closing tag of a
/// Standard Business Document.
pub proof fn law_unwrap_gives_back_what_was_wrapped(header: HeaderView, payload: Seq<u8>)
    requires
        writable(header),
        document_outcome(payload) is Ok,
        find(
            document_outcome(payload)->Ok_0,
            piece_text(Piece::Close("StandardBusinessDocument"@)),
        ) is None,
    ensures
        wrap_outcome(header, payload) == Ok::<_, (Refusal, Seq<char>)>(
            encode_utf8(sbd_text(header, document_outcome(payload)->Ok_0)),
        ),
        unwrap_outcome(wrap_outcome(header, payload)->Ok_0) == Ok::<_, (Refusal, Seq<char>)>(
            (header, encode_utf8(document_outcome(payload)->Ok_0)),
        ),
{
    let document = document_outcome(payload)->Ok_0;
    lemma_document_shape(payload);
    assert(carried(document));
    let t = sbd_text(header, document);
    assert(read_outcome(t) == Ok::<_, (Refusal, Seq<char>)>((header, document))) by {
        let ps = sbd_pieces(header, document);
        lemma_read_frame(header, document);
        lemma_read_business_scope(header, document);
        lemma_read_scopes(header, document);
        lemma_read_identification(header, document);
        lemma_read_parties(header, document);
        lemma_read_assembled(
            t,
            header,
            document,
            start(ps, 2),
            start(ps, 59),
            start(ps, 3),
            start(ps, 57),
            start(ps, 58) - 1,
            start(ps, 34),
            start(ps, 56),
            start(ps, 17),
            start(ps, 32),
        );
    }
    encode_utf8_valid_utf8(t);
    encode_utf8_decode_utf8(t);
}

/// A business document one access point sends arrives at the receiver's
/// access point unwrapped: the receiver hands up the business document,
/// with an origin that names the sender, the receiver and the instance
/// (where the header it went in reads back as written and the business
/// document holds no closing tag of a Standard Business Document).
pub proof fn law_what_is_sent_arrives_unwrapped(
    sending: TransportView,
    receiving: TransportView,
    target: Seq<char>,
    payload: Seq<u8>,
    instance: Seq<char>,
    created: Seq<char>,
    origin_uri: Seq<char>,
)
    requires
        outgoing_outcome(sending, target, payload, instance, created) is Ok,
        receiving.me == outgoing_outcome(sending, target, payload, instance, created)->Ok_0.0,
        writable(
            HeaderView {
                sender: sending.me,
                receiver: receiving.me,
                document: sending.document,
                process: sending.process,
                instance,
                created,
            },
        ),
        find(
            document_outcome(payload)->Ok_0,
            piece_text(Piece::Close("StandardBusinessDocument"@)),
        ) is None,
    ensures
        arrived_outcome(
            receiving,
            origin_uri,
            outgoing_outcome(sending, target, payload, instance, created)->Ok_0.2,
        ) == Ok::<_, (Refusal, Seq<char>)>(
            (
                origin_of(
                    origin_uri,
                    HeaderView {
                        sender: sending.me,
                        receiver: receiving.me,
                        document: sending.document,
                        process: sending.process,
                        instance,
                        created,
                    },
                ),
                encode_utf8(document_outcome(payload)->Ok_0),
            ),
        ),
{
    let header = HeaderView {
        sender: sending.me,
        receiver: receiving.me,
        document: sending.document,
        process: sending.process,
        instance,
        created,
    };
    law_unwrap_gives_back_what_was_wrapped(header, payload);
}

/// An identifier reads back as it prints: `scheme::value` parses to that
/// scheme and that value (where neither is empty and the scheme neither
/// holds `::` nor ends in `:`).
pub proof fn law_identifier_reads_back_as_it_prints(scheme: Seq<char>, value: Seq<char>)
    requires
        scheme.len() > 0,
        value.len() > 0,
        find(scheme + seq![':'], seq![':', ':']) is None,
    ensures
        identifier_outcome(scheme + "::"@ + value) == Ok::<_, (Refusal, Seq<char>)>(
            (scheme, value),
        ),
{
    reveal_strlit("::");
    let q = scheme + "::"@ + value;
    let head = scheme + seq![':'];
    let twice = seq![':', ':'];
    let n = scheme.len() as int;
    crate::text::lemma_find_in(head, twice, 0, head.len() as int);
    assert forall|j: int| 0 <= j < n implies !matches_at(q, twice, j) by {
        assert(!matches_at(head, twice, j));
        assert(q[j] == head[j] && q[j + 1] == head[j + 1]);
        if matches_at(q, twice, j) {
            assert(q.subrange(j, j + 2)[0] == q[j]);
            assert(q.subrange(j, j + 2)[1] == q[j + 1]);
            assert(head.subrange(j, j + 2) =~= twice);
        }
    }
    assert(q.subrange(n, n + 2) =~= twice);
    lemma_find_in_at(q, twice, 0, q.len() as int, n);
    assert(q.take(n) =~= scheme);
    assert(q.skip(n + 2) =~= value);
}

/// What a loopback does not refuse it carries whole: the payload wrapped
/// under a header unwraps as that header and the payload itself, byte for
/// byte (where the header's fields read back as written and the payload
/// holds no closing tag of a Standard Business Document).
pub proof fn law_the_loopback_carries_what_it_takes_whole(header: HeaderView, payload: Seq<u8>)
    requires
        refusal_of(payload) is None,
        writable(header),
        find(decode_utf8(payload), piece_text(Piece::Close("StandardBusinessDocument"@)))
            is None,
    ensures
        wrap_outcome(header, payload) is Ok,
        unwrap_outcome(wrap_outcome(header, payload)->Ok_0) == Ok::<_, (Refusal, Seq<char>)>(
            (header, payload),
        ),
{
    let t = decode_utf8(payload);
    assert(t.subrange(0, t.len() as int) =~= t);
    assert(document_outcome(payload) == Ok::<_, (Refusal, Seq<char>)>(t));
    decode_utf8_encode_utf8(payload);
    law_unwrap_gives_back_what_was_wrapped(header, payload);
}

/// Searching a window cut out of `t` finds what searching `t` up to the
/// window's end finds, moved by where the window begins.
proof fn lemma_find_in_window(t: Seq<char>, p: Seq<char>, a: int, b: int, i: int)
    requires
        0 <= a <= i,
        a <= b <= t.len(),
    ensures
        find_in(t.subrange(a, b), p, i - a, b - a) == match find_in(t, p, i, b) {
            Some(k) => Some(k - a),
            None => None::<int>,
        },
    decreases b - i,
{
    let w = t.subrange(a, b);
    if i + p.len() <= b {
        assert(matches_at(w, p, i - a) == matches_at(t, p, i)) by {
            if matches_at(t, p, i) {
                assert forall|k: int| 0 <= k < p.len() implies w[i - a + k] == #[trigger] p[k] by {
                    assert(w[i - a + k] == t[i + k]);
                }
            }
            if matches_at(w, p, i - a) {
                assert forall|k: int| 0 <= k < p.len() implies t[i + k] == #[trigger] p[k] by {
                    assert(w[i - a + k] == t[i + k]);
                }
            }
        }
        if !matches_at(t, p, i) && i < b {
            lemma_find_in_window(t, p, a, b, i + 1);
        }
    }
}

/// An element in `t[a..b]` is an element on its own.
proof fn lemma_element_on_its_own(t: Seq<char>, a: int, b: int)
    requires
        is_element(t, a, b),
    ensures
        is_element(t.subrange(a, b), 0, b - a),
{
    let d = t.subrange(a, b);
    let n = b - a;
    assert(d[0] == t[a] && d[1] == t[a + 1] && d[n - 1] == t[b - 1] && d[n - 2] == t[b - 2]);
    lemma_find_in_window(t, seq!['>'], a, b, a + 1);
}

/// What `business_document` gives is a business document on its own:
/// read again it is the same, and a loopback carries it whole.
pub proof fn law_a_business_document_is_one_on_its_own(payload: Seq<u8>)
    requires
        document_outcome(payload) is Ok,
    ensures
        document_outcome(encode_utf8(document_outcome(payload)->Ok_0)) == Ok::<
            _,
            (Refusal, Seq<char>),
        >(document_outcome(payload)->Ok_0),
        refusal_of(encode_utf8(document_outcome(payload)->Ok_0)) is None,
{
    reveal_strlit("<?xml");
    let t = decode_utf8(payload);
    let (a, b) = document_window(t)->Ok_0;
    let d = t.subrange(a, b);
    let n = d.len() as int;
    lemma_element_on_its_own(t, a, b);
    encode_utf8_valid_utf8(d);
    encode_utf8_decode_utf8(d);
    assert(d[0] == t[a] && d[n - 1] == t[b - 1] && d[1] == t[a + 1]);
    assert(skip_char(d, '\u{feff}', 0, n) == 0);
    assert(skip_space(d, 0, n) == 0);
    assert(drop_space(d, 0, n) == n);
    assert(!matches_at(d, "<?xml"@, 0)) by {
        assert("<?xml"@[1] == '?');
    }
    assert(document_window(d) == Ok::<_, Refusal>((0int, n)));
    assert(d.subrange(0, n) =~= d);
}

/// Every scope read off a business scope names a scheme.
proof fn lemma_scopes_name_schemes(t: Seq<char>, lo: int, hi: int)
    ensures
        forall|i: int|
            0 <= i < scopes_in(t, lo, hi).len() ==> (#[trigger] scopes_in(t, lo, hi)[i]).1.0.len()
                > 0,
    decreases hi - lo,
{
    reveal_strlit("busdox-docid-qns");
    reveal_strlit("cenbii-procid-ubl");
    if lo >= 0 && lo < hi {
        if let Some((c, e)) = element_in(t, lo, hi, "Scope"@) {
            if lo < e && e <= hi {
                lemma_scopes_name_schemes(t, e, hi);
                let first = seq![scope_in(t, c, e)];
                let rest = scopes_in(t, e, hi);
                assert forall|i: int| 0 <= i < (first + rest).len() implies (#[trigger] (first
                    + rest)[i]).1.0.len() > 0 by {
                    if i > 0 {
                        assert((first + rest)[i] == rest[i - 1]);
                    }
                }
            }
        }
    }
}

/// The last scope of a kind is one of the scopes.
proof fn lemma_last_of_among(
    scopes: Seq<(Seq<char>, (Seq<char>, Seq<char>))>,
    kind: Seq<char>,
)
    ensures
        last_of(scopes, kind) matches Some(x) ==> exists|i: int|
            0 <= i < scopes.len() && (#[trigger] scopes[i]).1 == x,
    decreases scopes.len(),
{
    if scopes.len() > 0 {
        if scopes.last().0 == kind {
            assert(scopes[scopes.len() - 1].1 == scopes.last().1);
        } else {
            lemma_last_of_among(scopes.drop_last(), kind);
            if let Some(x) = last_of(scopes, kind) {
                let i = choose|i: int|
                    0 <= i < scopes.drop_last().len() && (#[trigger] scopes.drop_last()[i]).1 == x;
                assert(scopes[i] == scopes.drop_last()[i]);
            }
        }
    }
}

/// A party read off a header is a participant.
proof fn lemma_party_is_participant(t: Seq<char>, lo: int, hi: int, side: Seq<char>)
    requires
        party_outcome(t, lo, hi, side) is Ok,
    ensures
        is_participant(party_outcome(t, lo, hi, side)->Ok_0),
{
}

/// What `unwrap` hands up is what the bytes hold: they are UTF-8, the
/// sender and the receiver are participants, the document type and the
/// process each name a scheme, and the business document is a non-empty
/// stretch of the text with no white space at either end.
pub proof fn law_what_unwrap_gives(bytes: Seq<u8>)
    requires
        unwrap_outcome(bytes) is Ok,
    ensures
        valid_utf8(bytes),
        is_participant(unwrap_outcome(bytes)->Ok_0.0.sender),
        is_participant(unwrap_outcome(bytes)->Ok_0.0.receiver),
        unwrap_outcome(bytes)->Ok_0.0.document.0.len() > 0,
        unwrap_outcome(bytes)->Ok_0.0.process.0.len() > 0,
        unwrap_outcome(bytes)->Ok_0.1.len() > 0,
        exists|a: int, b: int|
            0 <= a < b <= decode_utf8(bytes).len() && settled(
                #[trigger] decode_utf8(bytes).subrange(a, b),
            ) && unwrap_outcome(bytes)->Ok_0.1 == encode_utf8(decode_utf8(bytes).subrange(a, b)),
{
    let t = decode_utf8(bytes);
    let n = t.len() as int;
    let (rc, re) = element_in(t, 0, n, "StandardBusinessDocument"@)->Some_0;
    lemma_element_in(t, 0, n, "StandardBusinessDocument"@);
    let (hc, he) = element_in(t, rc, re, "StandardBusinessDocumentHeader"@)->Some_0;
    lemma_element_in(t, rc, re, "StandardBusinessDocumentHeader"@);
    let g = find_in(t, seq!['>'], he, re)->Some_0;
    lemma_find_in(t, seq!['>'], he, re);
    let (a, b) = trimmed(t, g + 1, re);
    crate::text::lemma_skip_space(t, g + 1, re);
    crate::text::lemma_drop_space(t, a, re);
    assert(a < b);
    let w = t.subrange(a, b);
    assert(w[0] == t[a] && w.last() == t[b - 1]);
    assert(settled(w));
    let scopes = match element_in(t, hc, he, "BusinessScope"@) {
        Some((c, e)) => scopes_in(t, c, e),
        None => seq![],
    };
    if let Some((c, e)) = element_in(t, hc, he, "BusinessScope"@) {
        lemma_scopes_name_schemes(t, c, e);
    }
    lemma_last_of_among(scopes, "DOCUMENTID"@);
    lemma_last_of_among(scopes, "PROCESSID"@);
    lemma_party_is_participant(t, hc, he, "Sender"@);
    lemma_party_is_participant(t, hc, he, "Receiver"@);
    encode_utf8_decode_utf8(w);
    assert(encode_utf8(w).len() > 0);
}

/// Reading escaped text keeps white space only where the text had it: a
/// white space character first or last in what is read is the text's
/// own first or last character.
proof fn lemma_unescape_ends(s: Seq<char>)
    ensures
        s.len() == 0 ==> unescape(s).len() == 0,
        s.len() > 0 ==> unescape(s).len() > 0,
        s.len() > 0 && is_space(unescape(s)[0]) ==> unescape(s)[0] == s[0],
        s.len() > 0 && is_space(unescape(s).last()) ==> unescape(s).last() == s.last(),
    decreases s.len(),
{
    if s.len() > 0 {
        let m: int = if s.len() >= 4 && (s.take(4) == seq!['&', 'l', 't', ';'] || s.take(4)
            == seq!['&', 'g', 't', ';']) {
            4
        } else if s.len() >= 5 && s.take(5) == seq!['&', 'a', 'm', 'p', ';'] {
            5
        } else if s.len() >= 6 && (s.take(6) == seq!['&', 'q', 'u', 'o', 't', ';'] || s.take(6)
            == seq!['&', 'a', 'p', 'o', 's', ';']) {
            6
        } else {
            1
        };
        let rest = s.skip(m);
        lemma_unescape_ends(rest);
        assert(unescape(s) == seq![unescape(s)[0]] + unescape(rest));
        if rest.len() > 0 {
            assert(rest.last() == s.last());
            assert(unescape(s).last() == unescape(rest).last());
        }
    }
}

/// Settled text reads as settled text.
proof fn lemma_unescape_settled(w: Seq<char>)
    requires
        settled(w),
    ensures
        settled(unescape(w)),
{
    lemma_unescape_ends(w);
}

/// The text of an element, as the header is read, is settled: the white
/// space around it is not part of it.
pub proof fn law_text_read_is_settled(s: Seq<char>, lo: int, hi: int, name: Seq<char>)
    ensures
        settled(text_in(s, lo, hi, name)),
{
    lemma_element_in(s, lo, hi, name);
    if let Some((c, e)) = element_in(s, lo, hi, name) {
        crate::text::lemma_skip_space(s, c, e);
        let a = skip_space(s, c, e);
        crate::text::lemma_drop_space(s, a, e);
        let b = drop_space(s, a, e);
        let w = s.subrange(a, b);
        if a < b {
            assert(w[0] == s[a] && w.last() == s[b - 1]);
        }
        lemma_unescape_settled(w);
    }
}

/// The scheme names a scope falls back on are settled.
proof fn lemma_default_schemes_settled()
    ensures
        settled(crate::sbdh::DOCUMENT_SCHEME@),
        settled(crate::sbdh::PROCESS_SCHEME@),
{
    reveal_strlit("busdox-docid-qns");
    reveal_strlit("cenbii-procid-ubl");
}

/// Every scope read off a business scope has a settled kind, scheme and
/// value: a `Type` written on its own line is still its kind.
pub proof fn law_scopes_read_settled(t: Seq<char>, lo: int, hi: int)
    ensures
        forall|i: int|
            0 <= i < scopes_in(t, lo, hi).len() ==> {
                let x = #[trigger] scopes_in(t, lo, hi)[i];
                settled(x.0) && settled(x.1.0) && settled(x.1.1)
            },
    decreases hi - lo,
{
    if lo >= 0 && lo < hi {
        if let Some((c, e)) = element_in(t, lo, hi, "Scope"@) {
            if lo < e && e <= hi {
                law_scopes_read_settled(t, e, hi);
                law_text_read_is_settled(t, c, e, "Type"@);
                law_text_read_is_settled(t, c, e, "InstanceIdentifier"@);
                law_text_read_is_settled(t, c, e, "Identifier"@);
                lemma_default_schemes_settled();
                let first = seq![scope_in(t, c, e)];
                let rest = scopes_in(t, e, hi);
                assert forall|i: int| 0 <= i < (first + rest).len() implies {
                    let x = #[trigger] (first + rest)[i];
                    settled(x.0) && settled(x.1.0) && settled(x.1.1)
                } by {
                    if i > 0 {
                        assert((first + rest)[i] == rest[i - 1]);
                    }
                }
            }
        }
    }
}

/// Every text field `unwrap` hands up is settled: the white space around
/// the text of an instance identifier, a creation time, or a scope's
/// identifier and scheme is not part of what is read.
pub proof fn law_unwrap_hands_up_settled_fields(bytes: Seq<u8>)
    requires
        unwrap_outcome(bytes) is Ok,
    ensures
        settled(unwrap_outcome(bytes)->Ok_0.0.instance),
        settled(unwrap_outcome(bytes)->Ok_0.0.created),
        settled(unwrap_outcome(bytes)->Ok_0.0.document.0),
        settled(unwrap_outcome(bytes)->Ok_0.0.document.1),
        settled(unwrap_outcome(bytes)->Ok_0.0.process.0),
        settled(unwrap_outcome(bytes)->Ok_0.0.process.1),
{
    let t = decode_utf8(bytes);
    let n = t.len() as int;
    let (rc, re) = element_in(t, 0, n, "StandardBusinessDocument"@)->Some_0;
    let (hc, he) = element_in(t, rc, re, "StandardBusinessDocumentHeader"@)->Some_0;
    let scopes = match element_in(t, hc, he, "BusinessScope"@) {
        Some((c, e)) => scopes_in(t, c, e),
        None => seq![],
    };
    if let Some((c, e)) = element_in(t, hc, he, "BusinessScope"@) {
        law_scopes_read_settled(t, c, e);
    }
    lemma_last_of_among(scopes, "DOCUMENTID"@);
    lemma_last_of_among(scopes, "PROCESSID"@);
    let (ic, ie) = match element_in(t, hc, he, "DocumentIdentification"@) {
        Some(w) => w,
        None => (0, 0),
    };
    law_text_read_is_settled(t, ic, ie, "InstanceIdentifier"@);
    law_text_read_is_settled(t, ic, ie, "CreationDateAndTime"@);
}

/// An arrival from `as4://` and a peer's address names that address in
/// its origin, whether or not the URI has a query: the origin is
/// `peppol://` and everything up to the first `?`.
pub proof fn law_origin_names_the_peer(
    peer: Seq<char>,
    query: Seq<char>,
    header: HeaderView,
)
    requires
        find(peer, seq!['?']) is None,
    ensures
        origin_of("as4://"@ + peer, header) == "peppol://"@ + peer + "?sender="@ + header.sender
            + "&receiver="@ + header.receiver + "&instance="@ + header.instance,
        origin_of("as4://"@ + peer + seq!['?'] + query, header) == "peppol://"@ + peer
            + "?sender="@ + header.sender + "&receiver="@ + header.receiver + "&instance="@
            + header.instance,
{
    reveal_strlit("as4://");
    let mark = "as4://"@;
    let bare = mark + peer;
    let asked = mark + peer + seq!['?'] + query;
    assert(matches_at(bare, mark, 0)) by {
        assert forall|k: int| 0 <= k < mark.len() implies bare[0 + k] == #[trigger] mark[k] by {}
    }
    assert(matches_at(asked, mark, 0)) by {
        assert forall|k: int| 0 <= k < mark.len() implies asked[0 + k] == #[trigger] mark[k] by {}
    }
    assert(bare.skip(6) =~= peer);
    let rest = peer + seq!['?'] + query;
    assert(asked.skip(6) =~= rest);
    lemma_find_in(peer, seq!['?'], 0, peer.len() as int);
    assert forall|j: int| 0 <= j < peer.len() implies !matches_at(rest, seq!['?'], j) by {
        assert(!matches_at(peer, seq!['?'], j));
        assert(rest[j] == peer[j]);
        if matches_at(rest, seq!['?'], j) {
            assert(rest[j + 0] == seq!['?'][0]);
            assert(peer[j + 0] == seq!['?'][0]);
        }
    }
    assert(matches_at(rest, seq!['?'], peer.len() as int)) by {
        assert(rest[peer.len() as int] == '?');
    }
    lemma_find_in_at(rest, seq!['?'], 0, rest.len() as int, peer.len() as int);
    assert(rest.take(peer.len() as int) =~= peer);
}

/// What `wrap` writes as the document's `Standard` is the document type
/// value before its first `::` (all of it where it has none), escaped,
/// and so holds no `::`.
pub proof fn law_wrap_writes_the_standard(header: HeaderView, payload: Seq<u8>, standard: Seq<char>)
    requires
        match find(header.document.1, seq![':', ':']) {
            Some(k) => standard == header.document.1.take(k),
            None => standard == header.document.1,
        },
    ensures
        find(standard, seq![':', ':']) is None,
        wrap_outcome(header, payload) matches Ok(bytes) ==> exists|i: int|
            0 <= i && #[trigger] decode_utf8(bytes).subrange(
                i,
                i + ("<Standard>"@ + escape(standard) + "</Standard>"@).len(),
            ) == "<Standard>"@ + escape(standard) + "</Standard>"@,
{
    reveal_strlit("<Standard>");
    reveal_strlit("</Standard>");
    reveal_strlit("Standard");
    let v = header.document.1;
    let twice = seq![':', ':'];
    crate::text::lemma_find_in(v, twice, 0, v.len() as int);
    crate::text::lemma_find_in(standard, twice, 0, standard.len() as int);
    if let Some(k) = find(v, twice) {
        if let Some(j) = find(standard, twice) {
            assert(standard[j] == v[j] && standard[j + 1] == v[j + 1]);
            assert(standard[j + 0] == twice[0] && standard[j + 1] == twice[1]);
            assert(matches_at(v, twice, j)) by {
                assert forall|x: int| 0 <= x < twice.len() implies v[j + x] == #[trigger] twice[x] by {
                    if x == 0 {} else { assert(x == 1); }
                }
            }
        }
    }
    if let Ok(bytes) = wrap_outcome(header, payload) {
        let document = document_outcome(payload)->Ok_0;
        let ps = sbd_pieces(header, document);
        let t = render(ps);
        encode_utf8_decode_utf8(t);
        assert(ps.len() == 60);
        assert(ps[17] == Piece::Open("Standard"@));
        assert(ps[18] == Piece::Text(escape(standard)));
        assert(ps[19] == Piece::Close("Standard"@));
        lemma_piece_window(ps, 17);
        lemma_piece_window(ps, 18);
        lemma_piece_window(ps, 19);
        lemma_piece_at(ps, 17);
        lemma_piece_at(ps, 18);
        lemma_piece_at(ps, 19);
        let i = start(ps, 17);
        let w = "<Standard>"@ + escape(standard) + "</Standard>"@;
        assert(piece_text(ps[17]) =~= "<Standard>"@);
        assert(piece_text(ps[19]) =~= "</Standard>"@);
        assert(start(ps, 20) == i + w.len());
        assert(t.subrange(i, i + w.len()) =~= t.subrange(i, start(ps, 18)) + t.subrange(
            start(ps, 18),
            start(ps, 19),
        ) + t.subrange(start(ps, 19), start(ps, 20)));
        assert(decode_utf8(bytes).subrange(i, i + w.len()) == w);
    }
}

/// A message is under the profile only where its party type is the
/// access-point one, its agreement the Peppol one, and its first
/// `finalRecipient` property names this participant; a message with
/// another party type is refused as not between access points.
pub proof fn law_under_the_profile_only_where_the_profile_holds(
    party_type: Option<Seq<char>>,
    agreement: Option<Seq<char>>,
    properties: Seq<(Seq<char>, Seq<char>)>,
    me: Seq<char>,
)
    ensures
        profile_outcome(party_type, agreement, properties, me) is Ok ==> {
            &&& party_type == Some(PARTY_TYPE@)
            &&& agreement == Some(AGREEMENT@)
            &&& exists|i: int|
                0 <= i < properties.len() && (#[trigger] properties[i]).0 == FINAL_RECIPIENT@
                    && parse_outcome(properties[i].1) == Ok::<_, (Refusal, Seq<char>)>(me)
                    && forall|j: int| 0 <= j < i ==> (#[trigger] properties[j]).0
                    != FINAL_RECIPIENT@
        },
        party_type != Some(PARTY_TYPE@) ==> (profile_outcome(party_type, agreement, properties, me)
            matches Err((why, _)) && why == Refusal::NotAccessPoints),
        party_type == Some(PARTY_TYPE@) && agreement != Some(AGREEMENT@) ==> (profile_outcome(
            party_type,
            agreement,
            properties,
            me,
        ) matches Err((why, _)) && why == Refusal::NotUnderAgreement),
{
    lemma_first_property_at(properties, FINAL_RECIPIENT@);
}

/// The first property named `name` stands at an index with no earlier
/// property of that name.
proof fn lemma_first_property_at(properties: Seq<(Seq<char>, Seq<char>)>, name: Seq<char>)
    ensures
        first_property(properties, name) matches Some(v) ==> exists|i: int|
            0 <= i < properties.len() && (#[trigger] properties[i]).0 == name && properties[i].1
                == v && forall|j: int| 0 <= j < i ==> (#[trigger] properties[j]).0 != name,
    decreases properties.len(),
{
    if properties.len() > 0 && properties[0].0 != name {
        let rest = properties.drop_first();
        lemma_first_property_at(rest, name);
        if let Some(v) = first_property(properties, name) {
            let i = choose|i: int|
                0 <= i < rest.len() && (#[trigger] rest[i]).0 == name && rest[i].1 == v && forall|
                    j: int,
                | 0 <= j < i ==> (#[trigger] rest[j]).0 != name;
            assert(properties[i + 1] == rest[i]);
            assert forall|j: int| 0 <= j < i + 1 implies (#[trigger] properties[j]).0 != name by {
                if j > 0 {
                    assert(properties[j] == rest[j - 1]);
                }
            }
        }
    }
}

/// Where a send goes: a URL is the partner at that URL; the empty target
/// is the partner at the directory's endpoint for it where the directory
/// holds one, else at the transport's own endpoint; any other target is a
/// participant the directory must hold, at the directory's endpoint.
pub proof fn law_resolve_goes_where_the_directory_says(t: TransportView, target: Seq<char>)
    ensures
        find(target, "://"@) is Some ==> resolve_outcome(t, target) == Ok::<
            _,
            (Refusal, Seq<char>),
        >((t.partner, target)),
        target.len() == 0 && t.directory.contains_key(t.partner) ==> resolve_outcome(t, target)
            == Ok::<_, (Refusal, Seq<char>)>((t.partner, t.directory[t.partner])),
        target.len() == 0 && !t.directory.contains_key(t.partner) ==> resolve_outcome(t, target)
            == Ok::<_, (Refusal, Seq<char>)>((t.partner, t.endpoint)),
        resolve_outcome(t, target) matches Ok((receiver, endpoint)) ==> (receiver == t.partner
            || (t.directory.contains_key(receiver) && endpoint == t.directory[receiver])),
        find(target, "://"@) is None && target.len() > 0 ==> (resolve_outcome(t, target) matches Ok(
            (receiver, endpoint),
        ) ==> parse_outcome(target) == Ok::<_, (Refusal, Seq<char>)>(receiver)
            && t.directory.contains_key(receiver) && endpoint == t.directory[receiver]),
{
    reveal_strlit("://");
    if target.len() == 0 {
        assert(find(target, "://"@) is None);
    }
}

} // verus!
