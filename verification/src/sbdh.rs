//! The Standard Business Document Header a Peppol business document
//! travels in: the sender and the receiver as participants, the document
//! identification, and the business scope naming the document type and
//! the process, as UN/CEFACT's Standard Business Document Header has them.
//!
//! The header is the front of a `StandardBusinessDocument` whose one other
//! child is the business document itself, so what an access point posts is
//! one XML document with the header first, and what a Receive Location
//! hands up is the document alone. It is written by hand and read by
//! local names, so a partner's prefix does not matter.
//!
//! A document type identifier is `busdox-docid-qns::{root namespace}::
//! {local name}##{customization}::{version}`, and the header's `Standard`,
//! `Type` and `TypeVersion` are read off it; a process identifier is
//! `cenbii-procid-ubl::{process}`.

use vstd::prelude::*;
use vstd::string::*;
use vstd::utf8::*;

use crate::error::{refuse, refused, PeppolError, Refusal};
use crate::participant::{participant_outcome, Participant, SCHEME};
use crate::text::{
    at, bytes_of, chars_of, drop_space, drop_space_exec, find, find_exec, find_in, join,
    lemma_find_in, lemma_utf8_text, matches_at, matches_exec, rfind, rfind_exec, skip_space,
    skip_space_exec, trim, utf8,
};
use crate::written::{piece_text, render, Piece};
use crate::xml::{
    attribute_exec, attribute_in, element_exec, element_in, escape, escape_exec, span, unescape,
    unescape_exec,
};

verus! {

/// The SBDH namespace.
pub const NAMESPACE: &'static str =
    "http://www.unece.org/cefact/namespaces/StandardBusinessDocumentHeader";

/// The scheme a document type identifier is under.
pub const DOCUMENT_SCHEME: &'static str = "busdox-docid-qns";

/// The scheme a process identifier is under.
pub const PROCESS_SCHEME: &'static str = "cenbii-procid-ubl";

/// One Peppol identifier that is not a participant: a scheme, two colons,
/// a value (a document type or a process).
#[derive(Clone, Debug, PartialEq, Eq)]
pub struct Identifier {
    pub scheme: String,
    pub value: String,
}

impl View for Identifier {
    type V = (Seq<char>, Seq<char>);

    open spec fn view(&self) -> (Seq<char>, Seq<char>) {
        (self.scheme@, self.value@)
    }
}

/// What [`Identifier::parse`] makes of `text`: its scheme and value, or
/// why it is refused and the words.
pub open spec fn identifier_outcome(text: Seq<char>) -> Result<
    (Seq<char>, Seq<char>),
    (Refusal, Seq<char>),
> {
    match find(text, seq![':', ':']) {
        Some(k) if k > 0 && k + 2 < text.len() => Ok((text.take(k), text.skip(k + 2))),
        _ => Err(
            (Refusal::NotSchemeValue, "an identifier that is not scheme::value: "@ + text),
        ),
    }
}

/// The standard, the type and the version that the document type
/// identifier `value` carries, each empty where it does not have it.
pub open spec fn parts_of(value: Seq<char>) -> (Seq<char>, Seq<char>, Seq<char>) {
    match find(value, seq![':', ':']) {
        None => (value, seq![], seq![]),
        Some(k) => {
            let rest = value.skip(k + 2);
            (
                value.take(k),
                match find(rest, seq!['#', '#']) {
                    Some(h) => rest.take(h),
                    None => rest,
                },
                match rfind(rest, seq![':', ':']) {
                    Some(j) => rest.skip(j + 2),
                    None => seq![],
                },
            )
        },
    }
}

impl Identifier {
    /// `value` under `scheme`.
    pub fn new(scheme: &str, value: &str) -> (r: Identifier)
        ensures
            r@ == (scheme@, value@),
    {
        Identifier { scheme: scheme.to_owned(), value: value.to_owned() }
    }

    /// The document type `value`, under [`DOCUMENT_SCHEME`].
    pub fn document(value: &str) -> (r: Identifier)
        ensures
            r@ == (DOCUMENT_SCHEME@, value@),
    {
        Self::new(DOCUMENT_SCHEME, value)
    }

    /// The process `value`, under [`PROCESS_SCHEME`].
    pub fn process(value: &str) -> (r: Identifier)
        ensures
            r@ == (PROCESS_SCHEME@, value@),
    {
        Self::new(PROCESS_SCHEME, value)
    }

    /// The identifier `text` is: `scheme::value`. Refused where there is
    /// no `::`, or nothing on one side of it.
    pub fn parse(text: &str) -> (r: Result<Identifier, PeppolError>)
        ensures
            match r {
                Ok(id) => identifier_outcome(text@) == Ok::<_, (Refusal, Seq<char>)>(id@),
                Err(e) => identifier_outcome(text@) == Err::<(Seq<char>, Seq<char>), _>(
                    refused(e),
                ) && !e.retryable,
            },
    {
        let t = chars_of(text);
        let twice = vec![':', ':'];
        assert(twice@ == seq![':', ':']);
        match find_exec(&t, &twice, 0, t.len()) {
            Some(k) => {
                if k > 0 && k + 2 < t.len() {
                    return Ok(
                        Identifier::new(
                            text.substring_char(0, k),
                            text.substring_char(k + 2, t.len()),
                        ),
                    );
                }
            },
            None => {},
        }
        Err(refuse(Refusal::NotSchemeValue, join("an identifier that is not scheme::value: ", text)))
    }

    /// The standard, the type and the version a document type identifier
    /// carries (`urn:…:Invoice-2`, `Invoice`, `2.1`), each empty where the
    /// value does not have it.
    pub fn parts(&self) -> (r: (&str, &str, &str))
        ensures
            (r.0@, r.1@, r.2@) == parts_of(self.value@),
    {
        proof {
            reveal_strlit("");
        }
        let value = self.value.as_str();
        let v = chars_of(value);
        let twice = vec![':', ':'];
        assert(twice@ == seq![':', ':']);
        match find_exec(&v, &twice, 0, v.len()) {
            None => (value, "", ""),
            Some(k) => {
                let standard = value.substring_char(0, k);
                let rest = value.substring_char(k + 2, v.len());
                assert(rest@ =~= v@.skip(k + 2));
                let r = chars_of(rest);
                let hashes = vec!['#', '#'];
                assert(hashes@ == seq!['#', '#']);
                let kind = match find_exec(&r, &hashes, 0, r.len()) {
                    Some(h) => rest.substring_char(0, h),
                    None => rest,
                };
                let version = match rfind_exec(&r, &twice) {
                    Some(j) => {
                        proof {
                            crate::text::lemma_rfind(r@, twice@);
                        }
                        rest.substring_char(j + 2, r.len())
                    },
                    None => "",
                };
                (standard, kind, version)
            },
        }
    }

    /// The identifier as it prints: `scheme::value`.
    pub fn qualified(&self) -> (r: String)
        ensures
            r@ == self.scheme@ + "::"@ + self.value@,
    {
        let mut r = join(self.scheme.as_str(), "::");
        r.append(self.value.as_str());
        r
    }

    /// An identifier with the same scheme and value.
    pub fn duplicate(&self) -> (r: Identifier)
        ensures
            r@ == self@,
    {
        Identifier { scheme: self.scheme.clone(), value: self.value.clone() }
    }
}


/// The first position at or after `lo`, before `hi`, that is not `c`.
pub open spec fn skip_char(t: Seq<char>, c: char, lo: int, hi: int) -> int
    decreases hi - lo,
{
    if lo < hi && t[lo] == c {
        skip_char(t, c, lo + 1, hi)
    } else {
        lo
    }
}

/// `t[a..b]` is one start tag that never closes: not a closing tag, not
/// closed by `/>`, and with no `>` before the one that ends it.
pub open spec fn lone_start_tag(t: Seq<char>, a: int, b: int) -> bool {
    &&& t[a + 1] != '/'
    &&& t[b - 2] != '/'
    &&& find_in(t, seq!['>'], a + 1, b) == Some(b - 1)
}

/// `t[a..b]` is an XML element as a payload carries it: more than two
/// characters, opening with `<` but not with a processing instruction or
/// a declaration, ending with `>`, and not one start tag that never
/// closes.
pub open spec fn is_element(t: Seq<char>, a: int, b: int) -> bool {
    &&& 0 <= a
    &&& b <= t.len()
    &&& b - a > 2
    &&& t[a] == '<'
    &&& t[a + 1] != '?'
    &&& t[a + 1] != '!'
    &&& t[b - 1] == '>'
    &&& !lone_start_tag(t, a, b)
}

/// Where in the text `t` the one XML element of a payload stands: its
/// byte order marks, the white space around it and its XML declaration
/// set aside; or why there is none.
pub open spec fn document_window(t: Seq<char>) -> Result<(int, int), Refusal> {
    let n = t.len() as int;
    let a0 = skip_char(t, '\u{feff}', 0, n);
    let a1 = skip_space(t, a0, n);
    let b = drop_space(t, a1, n);
    let opened: Result<int, Refusal> = if a1 + "<?xml"@.len() <= b && matches_at(
        t,
        "<?xml"@,
        a1,
    ) {
        match find_in(t, "?>"@, a1, b) {
            Some(e) => Ok(skip_space(t, e + "?>"@.len(), b)),
            None => Err(Refusal::DeclarationNeverCloses),
        }
    } else {
        Ok(a1)
    };
    match opened {
        Err(why) => Err(why),
        Ok(a) => if is_element(t, a, b) {
            Ok((a, b))
        } else {
            Err(Refusal::NotOneElement)
        },
    }
}

/// The words a payload is refused with.
pub open spec fn payload_message(why: Refusal) -> Seq<char> {
    if why == Refusal::PayloadNotUtf8 {
        "a Peppol payload is one XML business document, and these bytes are not UTF-8"@
    } else if why == Refusal::DeclarationNeverCloses {
        "an XML declaration that never closes"@
    } else {
        "a Peppol payload is one XML business document, and this is not one"@
    }
}

/// What [`business_document`] makes of `payload`: the text of its one
/// element, or why it is refused and the words.
pub open spec fn document_outcome(payload: Seq<u8>) -> Result<Seq<char>, (Refusal, Seq<char>)> {
    if !valid_utf8(payload) {
        Err((Refusal::PayloadNotUtf8, payload_message(Refusal::PayloadNotUtf8)))
    } else {
        let t = decode_utf8(payload);
        match document_window(t) {
            Ok((a, b)) => Ok(t.subrange(a, b)),
            Err(why) => Err((why, payload_message(why))),
        }
    }
}

/// Whether `t[a..b]` is an XML element as a payload carries it.
fn is_element_exec(t: &Vec<char>, a: usize, b: usize) -> (r: bool)
    requires
        a <= b <= t.len(),
    ensures
        r == is_element(t@, a as int, b as int),
{
    if !(b - a > 2 && t[a] == '<' && t[a + 1] != '?' && t[a + 1] != '!' && t[b - 1] == '>') {
        return false;
    }
    if t[a + 1] == '/' || t[b - 2] == '/' {
        return true;
    }
    let gt = vec!['>'];
    assert(gt@ == seq!['>']);
    match find_exec(t, &gt, a + 1, b) {
        Some(g) => g != b - 1,
        None => true,
    }
}

/// Where the one element of the text `t` stands.
pub fn document_range(t: &Vec<char>) -> (r: Result<(usize, usize), Refusal>)
    ensures
        match r {
            Ok((a, b)) => document_window(t@) == Ok::<_, Refusal>((a as int, b as int)) && a <= b
                <= t.len(),
            Err(why) => document_window(t@) == Err::<(int, int), _>(why),
        },
{
    let n = t.len();
    let mut a0: usize = 0;
    while a0 < n && t[a0] == '\u{feff}'
        invariant
            a0 <= n == t.len(),
            skip_char(t@, '\u{feff}', 0, n as int) == skip_char(t@, '\u{feff}', a0 as int, n as int),
        decreases n - a0,
    {
        a0 = a0 + 1;
    }
    let a1 = skip_space_exec(t, a0, n);
    proof {
        crate::text::lemma_skip_space(t@, a0 as int, n as int);
    }
    let b = drop_space_exec(t, a1, n);
    proof {
        crate::text::lemma_drop_space(t@, a1 as int, n as int);
    }
    let declaration = chars_of("<?xml");
    let mut a = a1;
    if declaration.len() <= b - a1 && matches_exec(t, &declaration, a1) {
        let ends = chars_of("?>");
        match find_exec(t, &ends, a1, b) {
            Some(e) => {
                a = skip_space_exec(t, e + ends.len(), b);
                proof {
                    crate::text::lemma_skip_space(t@, e + ends@.len(), b as int);
                }
            },
            None => {
                return Err(Refusal::DeclarationNeverCloses);
            },
        }
    }
    if is_element_exec(t, a, b) {
        Ok((a, b))
    } else {
        Err(Refusal::NotOneElement)
    }
}

/// The words for a refused payload.
fn payload_refusal(why: Refusal) -> (e: PeppolError)
    ensures
        refused(e) == (why, payload_message(why)),
        !e.retryable,
{
    if why == Refusal::PayloadNotUtf8 {
        refuse(
            why,
            "a Peppol payload is one XML business document, and these bytes are not UTF-8".to_owned(),
        )
    } else if why == Refusal::DeclarationNeverCloses {
        refuse(why, "an XML declaration that never closes".to_owned())
    } else {
        refuse(why, "a Peppol payload is one XML business document, and this is not one".to_owned())
    }
}

/// The one XML element `payload` is (its XML declaration, a byte order
/// mark and the white space around it set aside) as it goes inside the
/// Standard Business Document. Refused where `payload` is not UTF-8, or
/// is not one element: empty, text, a processing instruction, a doctype,
/// or one start tag that never closes.
pub fn business_document(payload: &[u8]) -> (r: Result<&str, PeppolError>)
    ensures
        match r {
            Ok(d) => document_outcome(payload@) == Ok::<_, (Refusal, Seq<char>)>(d@),
            Err(e) => document_outcome(payload@) == Err::<Seq<char>, _>(refused(e))
                && !e.retryable,
        },
{
    let text = match utf8(payload) {
        Some(text) => text,
        None => {
            return Err(payload_refusal(Refusal::PayloadNotUtf8));
        },
    };
    proof {
        lemma_utf8_text(text, payload@);
    }
    let t = chars_of(text);
    match document_range(&t) {
        Ok((a, b)) => Ok(text.substring_char(a, b)),
        Err(why) => Err(payload_refusal(why)),
    }
}


/// A header as contracts speak of it.
pub struct HeaderView {
    pub sender: Seq<char>,
    pub receiver: Seq<char>,
    pub document: (Seq<char>, Seq<char>),
    pub process: (Seq<char>, Seq<char>),
    pub instance: Seq<char>,
    pub created: Seq<char>,
}

/// One header as it describes the document behind it.
#[derive(Clone, Debug, PartialEq, Eq)]
pub struct Header {
    pub sender: Participant,
    pub receiver: Participant,
    pub document: Identifier,
    pub process: Identifier,
    /// The instance identifier: no other document from this process
    /// carries it.
    pub instance: String,
    /// When the document was made, `xs:dateTime` in UTC.
    pub created: String,
}

impl View for Header {
    type V = HeaderView;

    open spec fn view(&self) -> HeaderView {
        HeaderView {
            sender: self.sender@,
            receiver: self.receiver@,
            document: self.document@,
            process: self.process@,
            instance: self.instance@,
            created: self.created@,
        }
    }
}

/// The pieces of the Standard Business Document that `header` and the
/// business document `document` make: the declaration, the header, the
/// document as it stands, and the closing tag.
pub open spec fn sbd_pieces(header: HeaderView, document: Seq<char>) -> Seq<Piece> {
    let (standard, kind, version) = parts_of(header.document.1);
    seq![
        Piece::Declaration,
        Piece::Attributed("StandardBusinessDocument"@, "xmlns"@, NAMESPACE@),
        Piece::Open("StandardBusinessDocumentHeader"@),
        Piece::Open("HeaderVersion"@),
        Piece::Text("1.0"@),
        Piece::Close("HeaderVersion"@),
        Piece::Open("Sender"@),
        Piece::Attributed("Identifier"@, "Authority"@, SCHEME@),
        Piece::Text(escape(header.sender)),
        Piece::Close("Identifier"@),
        Piece::Close("Sender"@),
        Piece::Open("Receiver"@),
        Piece::Attributed("Identifier"@, "Authority"@, SCHEME@),
        Piece::Text(escape(header.receiver)),
        Piece::Close("Identifier"@),
        Piece::Close("Receiver"@),
        Piece::Open("DocumentIdentification"@),
        Piece::Open("Standard"@),
        Piece::Text(escape(standard)),
        Piece::Close("Standard"@),
        Piece::Open("TypeVersion"@),
        Piece::Text(escape(version)),
        Piece::Close("TypeVersion"@),
        Piece::Open("InstanceIdentifier"@),
        Piece::Text(escape(header.instance)),
        Piece::Close("InstanceIdentifier"@),
        Piece::Open("Type"@),
        Piece::Text(escape(kind)),
        Piece::Close("Type"@),
        Piece::Open("CreationDateAndTime"@),
        Piece::Text(escape(header.created)),
        Piece::Close("CreationDateAndTime"@),
        Piece::Close("DocumentIdentification"@),
        Piece::Open("BusinessScope"@),
        Piece::Open("Scope"@),
        Piece::Open("Type"@),
        Piece::Text("DOCUMENTID"@),
        Piece::Close("Type"@),
        Piece::Open("InstanceIdentifier"@),
        Piece::Text(escape(header.document.1)),
        Piece::Close("InstanceIdentifier"@),
        Piece::Open("Identifier"@),
        Piece::Text(escape(header.document.0)),
        Piece::Close("Identifier"@),
        Piece::Close("Scope"@),
        Piece::Open("Scope"@),
        Piece::Open("Type"@),
        Piece::Text("PROCESSID"@),
        Piece::Close("Type"@),
        Piece::Open("InstanceIdentifier"@),
        Piece::Text(escape(header.process.1)),
        Piece::Close("InstanceIdentifier"@),
        Piece::Open("Identifier"@),
        Piece::Text(escape(header.process.0)),
        Piece::Close("Identifier"@),
        Piece::Close("Scope"@),
        Piece::Close("BusinessScope"@),
        Piece::Close("StandardBusinessDocumentHeader"@),
        Piece::Raw(document),
        Piece::Close("StandardBusinessDocument"@),
    ]
}

/// The Standard Business Document that `header` and the business
/// document `document` make.
pub open spec fn sbd_text(header: HeaderView, document: Seq<char>) -> Seq<char> {
    render(sbd_pieces(header, document))
}

/// What [`Header::wrap`] makes of `payload` under `header`: the bytes of
/// the Standard Business Document, or why the payload is refused.
pub open spec fn wrap_outcome(header: HeaderView, payload: Seq<u8>) -> Result<
    Seq<u8>,
    (Refusal, Seq<char>),
> {
    match document_outcome(payload) {
        Ok(document) => Ok(encode_utf8(sbd_text(header, document))),
        Err(why) => Err(why),
    }
}

/// `s[lo..hi]` with the white space around it trimmed: where it begins
/// and ends.
pub open spec fn trimmed(s: Seq<char>, lo: int, hi: int) -> (int, int) {
    let a = skip_space(s, lo, hi);
    (a, drop_space(s, a, hi))
}

/// The text of the first element `name` in `s[lo..hi]`, trimmed and
/// unescaped; empty where there is none.
pub open spec fn text_in(s: Seq<char>, lo: int, hi: int, name: Seq<char>) -> Seq<char> {
    match element_in(s, lo, hi, name) {
        Some((c, e)) => {
            let (a, b) = trimmed(s, c, e);
            unescape(s.subrange(a, b))
        },
        None => seq![],
    }
}

/// What one `Scope` holding `s[c..e]` says: its `Type` and the identifier
/// it names, the scheme from its `Identifier` where one is given.
pub open spec fn scope_in(s: Seq<char>, c: int, e: int) -> (Seq<char>, (Seq<char>, Seq<char>)) {
    let kind = text_in(s, c, e, "Type"@);
    let value = text_in(s, c, e, "InstanceIdentifier"@);
    let named = text_in(s, c, e, "Identifier"@);
    let scheme = if named.len() == 0 {
        if kind == "PROCESSID"@ {
            PROCESS_SCHEME@
        } else {
            DOCUMENT_SCHEME@
        }
    } else {
        named
    };
    (kind, (scheme, value))
}

/// Every `Scope` in `s[lo..hi]`, in order.
pub open spec fn scopes_in(s: Seq<char>, lo: int, hi: int) -> Seq<
    (Seq<char>, (Seq<char>, Seq<char>)),
>
    decreases hi - lo,
{
    if lo < 0 || lo >= hi {
        seq![]
    } else {
        match element_in(s, lo, hi, "Scope"@) {
            Some((c, e)) => if lo < e && e <= hi {
                seq![scope_in(s, c, e)] + scopes_in(s, e, hi)
            } else {
                seq![]
            },
            None => seq![],
        }
    }
}

/// The identifier of the last scope of `kind` among `scopes`.
pub open spec fn last_of(scopes: Seq<(Seq<char>, (Seq<char>, Seq<char>))>, kind: Seq<char>) -> Option<
    (Seq<char>, Seq<char>),
>
    decreases scopes.len(),
{
    if scopes.len() == 0 {
        None
    } else if scopes.last().0 == kind {
        Some(scopes.last().1)
    } else {
        last_of(scopes.drop_last(), kind)
    }
}

/// The participant that the `Sender` or `Receiver` element named `side`
/// in `s[lo..hi]` names, or why there is none and the words.
pub open spec fn party_outcome(s: Seq<char>, lo: int, hi: int, side: Seq<char>) -> Result<
    Seq<char>,
    (Refusal, Seq<char>),
> {
    match element_in(s, lo, hi, side) {
        None => Err((Refusal::NoParty, "a header with no "@ + side)),
        Some((pc, pe)) => {
            let authority = match attribute_in(s, pc, pe, "Identifier"@, "Authority"@) {
                Some((v, e)) => unescape(s.subrange(v, e)),
                None => SCHEME@,
            };
            if authority != SCHEME@ {
                Err(
                    (
                        Refusal::PartyUnderScheme,
                        "a "@ + side + " under "@ + authority + ", and Peppol participants are "@
                            + SCHEME@,
                    ),
                )
            } else {
                match element_in(s, pc, pe, "Identifier"@) {
                    None => Err(
                        (Refusal::PartyWithoutIdentifier, "a "@ + side + " with no Identifier"@),
                    ),
                    Some((ic, ie)) => participant_outcome(trim(unescape(s.subrange(ic, ie)))),
                }
            }
        },
    }
}

/// What [`Header::unwrap`] reads off the text `t`: the header and the
/// business document behind it, or why it is refused and the words.
pub open spec fn read_outcome(t: Seq<char>) -> Result<
    (HeaderView, Seq<char>),
    (Refusal, Seq<char>),
> {
    let n = t.len() as int;
    match element_in(t, 0, n, "StandardBusinessDocument"@) {
        None => Err(
            (Refusal::NoStandardBusinessDocument, "no StandardBusinessDocument in what arrived"@),
        ),
        Some((rc, re)) => match element_in(t, rc, re, "StandardBusinessDocumentHeader"@) {
            None => Err((Refusal::NoHeader, "a StandardBusinessDocument with no header"@)),
            Some((hc, he)) => match find_in(t, seq!['>'], he, re) {
                None => Err((Refusal::HeaderNeverCloses, "a header that never closes"@)),
                Some(g) => {
                    let (a, b) = trimmed(t, g + 1, re);
                    if a == b {
                        Err(
                            (
                                Refusal::NoBusinessDocument,
                                "a StandardBusinessDocument with no business document after its header"@,
                            ),
                        )
                    } else {
                        let scopes = match element_in(t, hc, he, "BusinessScope"@) {
                            Some((c, e)) => scopes_in(t, c, e),
                            None => seq![],
                        };
                        let (ic, ie) = match element_in(t, hc, he, "DocumentIdentification"@) {
                            Some(w) => w,
                            None => (0, 0),
                        };
                        match party_outcome(t, hc, he, "Sender"@) {
                            Err(why) => Err(why),
                            Ok(sender) => match party_outcome(t, hc, he, "Receiver"@) {
                                Err(why) => Err(why),
                                Ok(receiver) => match last_of(scopes, "DOCUMENTID"@) {
                                    None => Err(
                                        (
                                            Refusal::NoDocumentScope,
                                            "a header with no DOCUMENTID scope"@,
                                        ),
                                    ),
                                    Some(document) => match last_of(scopes, "PROCESSID"@) {
                                        None => Err(
                                            (
                                                Refusal::NoProcessScope,
                                                "a header with no PROCESSID scope"@,
                                            ),
                                        ),
                                        Some(process) => Ok(
                                            (
                                                HeaderView {
                                                    sender,
                                                    receiver,
                                                    document,
                                                    process,
                                                    instance: text_in(
                                                        t,
                                                        ic,
                                                        ie,
                                                        "InstanceIdentifier"@,
                                                    ),
                                                    created: text_in(
                                                        t,
                                                        ic,
                                                        ie,
                                                        "CreationDateAndTime"@,
                                                    ),
                                                },
                                                t.subrange(a, b),
                                            ),
                                        ),
                                    },
                                },
                            },
                        }
                    }
                },
            },
        },
    }
}

/// What [`Header::unwrap`] makes of `bytes`: the header and the bytes of
/// the business document behind it, or why it is refused and the words.
pub open spec fn unwrap_outcome(bytes: Seq<u8>) -> Result<
    (HeaderView, Seq<u8>),
    (Refusal, Seq<char>),
> {
    if !valid_utf8(bytes) {
        Err((Refusal::DocumentNotUtf8, "a Standard Business Document that is not UTF-8"@))
    } else {
        match read_outcome(decode_utf8(bytes)) {
            Ok((header, document)) => Ok((header, encode_utf8(document))),
            Err(why) => Err(why),
        }
    }
}

/// `out` with the piece `piece` after it, the pieces so far being `ps`.
fn put(out: &mut String, text: &str, Ghost(ps): Ghost<Seq<Piece>>, Ghost(piece): Ghost<Piece>)
    requires
        old(out)@ == render(ps),
        text@ == piece_text(piece),
    ensures
        final(out)@ == render(ps.push(piece)),
{
    out.append(text);
    proof {
        assert(ps.push(piece).drop_last() =~= ps);
    }
}

/// `<name>`.
fn open_tag(name: &str) -> (r: String)
    ensures
        r@ == piece_text(Piece::Open(name@)),
{
    let mut r = String::new();
    r.push('<');
    r.append(name);
    r.push('>');
    proof {
        assert(r@ =~= piece_text(Piece::Open(name@)));
    }
    r
}

/// `</name>`.
fn close_tag(name: &str) -> (r: String)
    ensures
        r@ == piece_text(Piece::Close(name@)),
{
    let mut r = String::new();
    r.push('<');
    r.push('/');
    r.append(name);
    r.push('>');
    proof {
        assert(r@ =~= piece_text(Piece::Close(name@)));
    }
    r
}

/// `<name attribute="value">`.
fn attributed_tag(name: &str, attribute: &str, value: &str) -> (r: String)
    ensures
        r@ == piece_text(Piece::Attributed(name@, attribute@, value@)),
{
    let mut r = String::new();
    r.push('<');
    r.append(name);
    r.push(' ');
    r.append(attribute);
    r.push('=');
    r.push('"');
    r.append(value);
    r.push('"');
    r.push('>');
    proof {
        assert(r@ =~= piece_text(Piece::Attributed(name@, attribute@, value@)));
    }
    r
}

/// The text of the first element `name` in `t[lo..hi]`, trimmed and
/// unescaped; empty where there is none.
fn text_of(t: &Vec<char>, lo: usize, hi: usize, name: &str) -> (r: String)
    requires
        hi <= t.len(),
    ensures
        r@ == text_in(t@, lo as int, hi as int, name@),
{
    let named = chars_of(name);
    match element_exec(t, lo, hi, &named) {
        Some((c, e)) => {
            proof {
                crate::text::lemma_skip_space(t@, c as int, e as int);
            }
            let a = skip_space_exec(t, c, e);
            proof {
                crate::text::lemma_drop_space(t@, a as int, e as int);
            }
            let b = drop_space_exec(t, a, e);
            unescape_exec(t, a, b)
        },
        None => String::new(),
    }
}

/// Whether `a` and `b` are the same text.
fn same_text(a: &String, b: &str) -> (r: bool)
    ensures
        r == (a@ == b@),
{
    *a == b.to_owned()
}

/// What one `Scope` holding `t[c..e]` says.
fn scope_of(t: &Vec<char>, c: usize, e: usize) -> (r: (String, Identifier))
    requires
        e <= t.len(),
    ensures
        (r.0@, r.1@) == scope_in(t@, c as int, e as int),
{
    let kind = text_of(t, c, e, "Type");
    let value = text_of(t, c, e, "InstanceIdentifier");
    let named = text_of(t, c, e, "Identifier");
    let scheme = if named.as_str().unicode_len() == 0 {
        if same_text(&kind, "PROCESSID") {
            PROCESS_SCHEME.to_owned()
        } else {
            DOCUMENT_SCHEME.to_owned()
        }
    } else {
        named
    };
    (kind, Identifier { scheme, value })
}

/// The scopes as contracts speak of them.
pub open spec fn scope_views(found: Seq<(String, Identifier)>) -> Seq<
    (Seq<char>, (Seq<char>, Seq<char>)),
> {
    found.map_values(|x: (String, Identifier)| (x.0@, x.1@))
}

/// Every `Scope` in `t[lo..hi]`: its `Type` and the identifier it names.
fn scopes(t: &Vec<char>, lo: usize, hi: usize) -> (r: Vec<(String, Identifier)>)
    requires
        hi <= t.len(),
    ensures
        scope_views(r@) == scopes_in(t@, lo as int, hi as int),
{
    let mut found: Vec<(String, Identifier)> = Vec::new();
    let mut rest = lo;
    let scope_name = chars_of("Scope");
    loop
        invariant
            hi <= t.len(),
            scope_name@ == "Scope"@,
            scope_views(found@) + scopes_in(t@, rest as int, hi as int) == scopes_in(
                t@,
                lo as int,
                hi as int,
            ),
        decreases hi - rest,
    {
        if rest >= hi {
            proof {
                assert(scope_views(found@) + Seq::empty() == scope_views(found@));
            }
            return found;
        }
        match element_exec(t, rest, hi, &scope_name) {
            Some((c, e)) => {
                let ghost before = found@;
                let one = scope_of(t, c, e);
                found.push(one);
                proof {
                    assert(scope_views(found@) =~= scope_views(before).push(scope_in(t@, c as int, e as int)));
                    assert(scopes_in(t@, rest as int, hi as int) == seq![scope_in(t@, c as int, e as int)]
                        + scopes_in(t@, e as int, hi as int));
                    assert(scope_views(before) + (seq![scope_in(t@, c as int, e as int)]
                        + scopes_in(t@, e as int, hi as int)) == scope_views(before).push(
                        scope_in(t@, c as int, e as int),
                    ) + scopes_in(t@, e as int, hi as int));
                }
                rest = e;
            },
            None => {
                proof {
                    assert(scope_views(found@) + Seq::empty() == scope_views(found@));
                }
                return found;
            },
        }
    }
}

/// The identifier of the last scope of `kind` among `found`.
fn last_scope(found: &Vec<(String, Identifier)>, kind: &str) -> (r: Option<Identifier>)
    ensures
        match r {
            Some(id) => last_of(scope_views(found@), kind@) == Some(id@),
            None => last_of(scope_views(found@), kind@) is None,
        },
{
    let mut last: Option<Identifier> = None;
    let mut j: usize = 0;
    while j < found.len()
        invariant
            j <= found.len(),
            match last {
                Some(id) => last_of(scope_views(found@.take(j as int)), kind@) == Some(id@),
                None => last_of(scope_views(found@.take(j as int)), kind@) is None,
            },
        decreases found.len() - j,
    {
        proof {
            assert(scope_views(found@.take(j + 1)).drop_last() =~= scope_views(found@.take(j as int)));
            assert(scope_views(found@.take(j + 1)).last() == (found@[j as int].0@, found@[j as int].1@));
        }
        if same_text(&found[j].0, kind) {
            last = Some(found[j].1.duplicate());
        }
        j = j + 1;
    }
    proof {
        assert(found@.take(found.len() as int) == found@);
    }
    last
}

/// The participant the `Sender` or `Receiver` element named `side` in
/// `t[lo..hi]` names.
fn party_of(t: &Vec<char>, lo: usize, hi: usize, side: &str) -> (r: Result<Participant, PeppolError>)
    requires
        hi <= t.len(),
    ensures
        crate::participant::outcome(r) == party_outcome(t@, lo as int, hi as int, side@),
        r is Err ==> !r->Err_0.retryable,
{
    let side_name = chars_of(side);
    let (pc, pe) = match element_exec(t, lo, hi, &side_name) {
        Some(found) => found,
        None => {
            return Err(refuse(Refusal::NoParty, join("a header with no ", side)));
        },
    };
    let identifier = chars_of("Identifier");
    let authority_name = chars_of("Authority");
    let authority = match attribute_exec(t, pc, pe, &identifier, &authority_name) {
        Some((v, e)) => unescape_exec(t, v, e),
        None => SCHEME.to_owned(),
    };
    if !same_text(&authority, SCHEME) {
        let mut message = join("a ", side);
        message.append(" under ");
        message.append(authority.as_str());
        message.append(", and Peppol participants are ");
        message.append(SCHEME);
        return Err(refuse(Refusal::PartyUnderScheme, message));
    }
    match element_exec(t, pc, pe, &identifier) {
        None => {
            let mut message = join("a ", side);
            message.append(" with no Identifier");
            Err(refuse(Refusal::PartyWithoutIdentifier, message))
        },
        Some((ic, ie)) => {
            let value = unescape_exec(t, ic, ie);
            let v = chars_of(value.as_str());
            proof {
                crate::text::lemma_skip_space(v@, 0, v@.len() as int);
            }
            let a = skip_space_exec(&v, 0, v.len());
            proof {
                crate::text::lemma_drop_space(v@, a as int, v@.len() as int);
            }
            let b = drop_space_exec(&v, a, v.len());
            Participant::new(value.as_str().substring_char(a, b))
        },
    }
}

impl Header {
    /// A header for a `document` of `process` from `sender` to `receiver`,
    /// with the instance identifier `instance` and the creation time
    /// `created` that its User Message carries.
    pub fn stamped(
        sender: &Participant,
        receiver: &Participant,
        document: &Identifier,
        process: &Identifier,
        instance: &str,
        created: &str,
    ) -> (r: Header)
        ensures
            r@ == (HeaderView {
                sender: sender@,
                receiver: receiver@,
                document: document@,
                process: process@,
                instance: instance@,
                created: created@,
            }),
    {
        Header {
            sender: sender.duplicate(),
            receiver: receiver.duplicate(),
            document: document.duplicate(),
            process: process.duplicate(),
            instance: instance.to_owned(),
            created: created.to_owned(),
        }
    }

    /// `out` with one `<Scope>` of `kind` naming `identifier` after it,
    /// the pieces so far being `ps`.
    fn put_scope(
        &self,
        out: &mut String,
        kind: &str,
        identifier: &Identifier,
        Ghost(ps): Ghost<Seq<Piece>>,
        Ghost(scope): Ghost<Seq<Piece>>,
    )
        requires
            old(out)@ == render(ps),
            scope == seq![
                Piece::Open("Scope"@),
                Piece::Open("Type"@),
                Piece::Text(kind@),
                Piece::Close("Type"@),
                Piece::Open("InstanceIdentifier"@),
                Piece::Text(escape(identifier@.1)),
                Piece::Close("InstanceIdentifier"@),
                Piece::Open("Identifier"@),
                Piece::Text(escape(identifier@.0)),
                Piece::Close("Identifier"@),
                Piece::Close("Scope"@),
            ],
        ensures
            final(out)@ == render(ps + scope),
    {
        let ghost mut at = ps;
        put(out, open_tag("Scope").as_str(), Ghost(at), Ghost(scope[0]));
        proof { at = at.push(scope[0]); }
        put(out, open_tag("Type").as_str(), Ghost(at), Ghost(scope[1]));
        proof { at = at.push(scope[1]); }
        put(out, kind, Ghost(at), Ghost(scope[2]));
        proof { at = at.push(scope[2]); }
        put(out, close_tag("Type").as_str(), Ghost(at), Ghost(scope[3]));
        proof { at = at.push(scope[3]); }
        put(out, open_tag("InstanceIdentifier").as_str(), Ghost(at), Ghost(scope[4]));
        proof { at = at.push(scope[4]); }
        put(out, escape_exec(identifier.value.as_str()).as_str(), Ghost(at), Ghost(scope[5]));
        proof { at = at.push(scope[5]); }
        put(out, close_tag("InstanceIdentifier").as_str(), Ghost(at), Ghost(scope[6]));
        proof { at = at.push(scope[6]); }
        put(out, open_tag("Identifier").as_str(), Ghost(at), Ghost(scope[7]));
        proof { at = at.push(scope[7]); }
        put(out, escape_exec(identifier.scheme.as_str()).as_str(), Ghost(at), Ghost(scope[8]));
        proof { at = at.push(scope[8]); }
        put(out, close_tag("Identifier").as_str(), Ghost(at), Ghost(scope[9]));
        proof { at = at.push(scope[9]); }
        put(out, close_tag("Scope").as_str(), Ghost(at), Ghost(scope[10]));
        proof {
            at = at.push(scope[10]);
            assert(at =~= ps + scope);
        }
    }

    /// The Standard Business Document: this header, then `payload` as the
    /// business document, its XML declaration and the white space around
    /// it set aside. Refused where `payload` is not one XML element.
    pub fn wrap(&self, payload: &[u8]) -> (r: Result<Vec<u8>, PeppolError>)
        ensures
            match r {
                Ok(bytes) => wrap_outcome(self@, payload@) == Ok::<_, (Refusal, Seq<char>)>(
                    bytes@,
                ),
                Err(e) => wrap_outcome(self@, payload@) == Err::<Seq<u8>, _>(refused(e))
                    && !e.retryable,
            },
    {
        let document = match business_document(payload) {
            Ok(document) => document,
            Err(e) => {
                return Err(e);
            },
        };
        let (standard, kind, version) = self.document.parts();
        let ghost all = sbd_pieces(self@, document@);
        let mut r = String::new();
        let ghost mut ps: Seq<Piece> = seq![];
        proof {
            reveal_strlit("<?xml version=\"1.0\" encoding=\"UTF-8\"?>");
        }
        put(&mut r, "<?xml version=\"1.0\" encoding=\"UTF-8\"?>", Ghost(ps), Ghost(all[0]));
        proof { ps = ps.push(all[0]); }
        put(&mut r, attributed_tag("StandardBusinessDocument", "xmlns", NAMESPACE).as_str(), Ghost(ps), Ghost(all[1]));
        proof { ps = ps.push(all[1]); }
        put(&mut r, open_tag("StandardBusinessDocumentHeader").as_str(), Ghost(ps), Ghost(all[2]));
        proof { ps = ps.push(all[2]); }
        put(&mut r, open_tag("HeaderVersion").as_str(), Ghost(ps), Ghost(all[3]));
        proof { ps = ps.push(all[3]); }
        put(&mut r, "1.0", Ghost(ps), Ghost(all[4]));
        proof { ps = ps.push(all[4]); }
        put(&mut r, close_tag("HeaderVersion").as_str(), Ghost(ps), Ghost(all[5]));
        proof { ps = ps.push(all[5]); }
        put(&mut r, open_tag("Sender").as_str(), Ghost(ps), Ghost(all[6]));
        proof { ps = ps.push(all[6]); }
        put(&mut r, attributed_tag("Identifier", "Authority", SCHEME).as_str(), Ghost(ps), Ghost(all[7]));
        proof { ps = ps.push(all[7]); }
        put(&mut r, escape_exec(self.sender.value.as_str()).as_str(), Ghost(ps), Ghost(all[8]));
        proof { ps = ps.push(all[8]); }
        put(&mut r, close_tag("Identifier").as_str(), Ghost(ps), Ghost(all[9]));
        proof { ps = ps.push(all[9]); }
        put(&mut r, close_tag("Sender").as_str(), Ghost(ps), Ghost(all[10]));
        proof { ps = ps.push(all[10]); }
        put(&mut r, open_tag("Receiver").as_str(), Ghost(ps), Ghost(all[11]));
        proof { ps = ps.push(all[11]); }
        put(&mut r, attributed_tag("Identifier", "Authority", SCHEME).as_str(), Ghost(ps), Ghost(all[12]));
        proof { ps = ps.push(all[12]); }
        put(&mut r, escape_exec(self.receiver.value.as_str()).as_str(), Ghost(ps), Ghost(all[13]));
        proof { ps = ps.push(all[13]); }
        put(&mut r, close_tag("Identifier").as_str(), Ghost(ps), Ghost(all[14]));
        proof { ps = ps.push(all[14]); }
        put(&mut r, close_tag("Receiver").as_str(), Ghost(ps), Ghost(all[15]));
        proof { ps = ps.push(all[15]); }
        put(&mut r, open_tag("DocumentIdentification").as_str(), Ghost(ps), Ghost(all[16]));
        proof { ps = ps.push(all[16]); }
        put(&mut r, open_tag("Standard").as_str(), Ghost(ps), Ghost(all[17]));
        proof { ps = ps.push(all[17]); }
        put(&mut r, escape_exec(standard).as_str(), Ghost(ps), Ghost(all[18]));
        proof { ps = ps.push(all[18]); }
        put(&mut r, close_tag("Standard").as_str(), Ghost(ps), Ghost(all[19]));
        proof { ps = ps.push(all[19]); }
        put(&mut r, open_tag("TypeVersion").as_str(), Ghost(ps), Ghost(all[20]));
        proof { ps = ps.push(all[20]); }
        put(&mut r, escape_exec(version).as_str(), Ghost(ps), Ghost(all[21]));
        proof { ps = ps.push(all[21]); }
        put(&mut r, close_tag("TypeVersion").as_str(), Ghost(ps), Ghost(all[22]));
        proof { ps = ps.push(all[22]); }
        put(&mut r, open_tag("InstanceIdentifier").as_str(), Ghost(ps), Ghost(all[23]));
        proof { ps = ps.push(all[23]); }
        put(&mut r, escape_exec(self.instance.as_str()).as_str(), Ghost(ps), Ghost(all[24]));
        proof { ps = ps.push(all[24]); }
        put(&mut r, close_tag("InstanceIdentifier").as_str(), Ghost(ps), Ghost(all[25]));
        proof { ps = ps.push(all[25]); }
        put(&mut r, open_tag("Type").as_str(), Ghost(ps), Ghost(all[26]));
        proof { ps = ps.push(all[26]); }
        put(&mut r, escape_exec(kind).as_str(), Ghost(ps), Ghost(all[27]));
        proof { ps = ps.push(all[27]); }
        put(&mut r, close_tag("Type").as_str(), Ghost(ps), Ghost(all[28]));
        proof { ps = ps.push(all[28]); }
        put(&mut r, open_tag("CreationDateAndTime").as_str(), Ghost(ps), Ghost(all[29]));
        proof { ps = ps.push(all[29]); }
        put(&mut r, escape_exec(self.created.as_str()).as_str(), Ghost(ps), Ghost(all[30]));
        proof { ps = ps.push(all[30]); }
        put(&mut r, close_tag("CreationDateAndTime").as_str(), Ghost(ps), Ghost(all[31]));
        proof { ps = ps.push(all[31]); }
        put(&mut r, close_tag("DocumentIdentification").as_str(), Ghost(ps), Ghost(all[32]));
        proof { ps = ps.push(all[32]); }
        put(&mut r, open_tag("BusinessScope").as_str(), Ghost(ps), Ghost(all[33]));
        proof { ps = ps.push(all[33]); }
        proof {
            assert(all.subrange(34, 45) =~= seq![
                Piece::Open("Scope"@),
                Piece::Open("Type"@),
                Piece::Text("DOCUMENTID"@),
                Piece::Close("Type"@),
                Piece::Open("InstanceIdentifier"@),
                Piece::Text(escape(self.document@.1)),
                Piece::Close("InstanceIdentifier"@),
                Piece::Open("Identifier"@),
                Piece::Text(escape(self.document@.0)),
                Piece::Close("Identifier"@),
                Piece::Close("Scope"@),
            ]);
        }
        self.put_scope(&mut r, "DOCUMENTID", &self.document, Ghost(ps), Ghost(all.subrange(34, 45)));
        proof { ps = ps + all.subrange(34, 45); }
        proof {
            assert(all.subrange(45, 56) =~= seq![
                Piece::Open("Scope"@),
                Piece::Open("Type"@),
                Piece::Text("PROCESSID"@),
                Piece::Close("Type"@),
                Piece::Open("InstanceIdentifier"@),
                Piece::Text(escape(self.process@.1)),
                Piece::Close("InstanceIdentifier"@),
                Piece::Open("Identifier"@),
                Piece::Text(escape(self.process@.0)),
                Piece::Close("Identifier"@),
                Piece::Close("Scope"@),
            ]);
        }
        self.put_scope(&mut r, "PROCESSID", &self.process, Ghost(ps), Ghost(all.subrange(45, 56)));
        proof { ps = ps + all.subrange(45, 56); }
        put(&mut r, close_tag("BusinessScope").as_str(), Ghost(ps), Ghost(all[56]));
        proof { ps = ps.push(all[56]); }
        put(&mut r, close_tag("StandardBusinessDocumentHeader").as_str(), Ghost(ps), Ghost(all[57]));
        proof { ps = ps.push(all[57]); }
        put(&mut r, document, Ghost(ps), Ghost(all[58]));
        proof { ps = ps.push(all[58]); }
        put(&mut r, close_tag("StandardBusinessDocument").as_str(), Ghost(ps), Ghost(all[59]));
        proof {
            ps = ps.push(all[59]);
            assert(ps =~= all);
        }
        Ok(bytes_of(r.as_str()))
    }

    /// The header a Standard Business Document carries and the business
    /// document behind it, white space around it trimmed. Refused where
    /// `bytes` are not UTF-8, hold no Standard Business Document, one
    /// without its header, a header without its participants or its
    /// scopes, or nothing after the header.
    pub fn unwrap(bytes: &[u8]) -> (r: Result<(Header, Vec<u8>), PeppolError>)
        ensures
            match r {
                Ok((header, document)) => unwrap_outcome(bytes@) == Ok::<
                    _,
                    (Refusal, Seq<char>),
                >((header@, document@)),
                Err(e) => unwrap_outcome(bytes@) == Err::<(HeaderView, Seq<u8>), _>(refused(e))
                    && !e.retryable,
            },
    {
        let text = match utf8(bytes) {
            Some(text) => text,
            None => {
                return Err(
                    refuse(
                        Refusal::DocumentNotUtf8,
                        "a Standard Business Document that is not UTF-8".to_owned(),
                    ),
                );
            },
        };
        proof {
            lemma_utf8_text(text, bytes@);
        }
        let t = chars_of(text);
        let n = t.len();
        let (rc, re) = match element_exec(&t, 0, n, &chars_of("StandardBusinessDocument")) {
            Some(found) => found,
            None => {
                return Err(
                    refuse(
                        Refusal::NoStandardBusinessDocument,
                        "no StandardBusinessDocument in what arrived".to_owned(),
                    ),
                );
            },
        };
        let (hc, he) = match element_exec(&t, rc, re, &chars_of("StandardBusinessDocumentHeader")) {
            Some(found) => found,
            None => {
                return Err(
                    refuse(Refusal::NoHeader, "a StandardBusinessDocument with no header".to_owned()),
                );
            },
        };
        let gt = vec!['>'];
        assert(gt@ == seq!['>']);
        let g = match find_exec(&t, &gt, he, re) {
            Some(g) => g,
            None => {
                return Err(
                    refuse(Refusal::HeaderNeverCloses, "a header that never closes".to_owned()),
                );
            },
        };
        proof {
            crate::text::lemma_skip_space(t@, g + 1, re as int);
        }
        let a = skip_space_exec(&t, g + 1, re);
        proof {
            crate::text::lemma_drop_space(t@, a as int, re as int);
        }
        let b = drop_space_exec(&t, a, re);
        if a == b {
            return Err(
                refuse(
                    Refusal::NoBusinessDocument,
                    "a StandardBusinessDocument with no business document after its header".to_owned(),
                ),
            );
        }
        let found = match element_exec(&t, hc, he, &chars_of("BusinessScope")) {
            Some((c, e)) => scopes(&t, c, e),
            None => Vec::new(),
        };
        let (ic, ie) = match element_exec(&t, hc, he, &chars_of("DocumentIdentification")) {
            Some(w) => w,
            None => (0, 0),
        };
        let sender = match party_of(&t, hc, he, "Sender") {
            Ok(p) => p,
            Err(e) => {
                return Err(e);
            },
        };
        let receiver = match party_of(&t, hc, he, "Receiver") {
            Ok(p) => p,
            Err(e) => {
                return Err(e);
            },
        };
        let document = match last_scope(&found, "DOCUMENTID") {
            Some(id) => id,
            None => {
                return Err(
                    refuse(Refusal::NoDocumentScope, "a header with no DOCUMENTID scope".to_owned()),
                );
            },
        };
        let process = match last_scope(&found, "PROCESSID") {
            Some(id) => id,
            None => {
                return Err(
                    refuse(Refusal::NoProcessScope, "a header with no PROCESSID scope".to_owned()),
                );
            },
        };
        let header = Header {
            sender,
            receiver,
            document,
            process,
            instance: text_of(&t, ic, ie, "InstanceIdentifier"),
            created: text_of(&t, ic, ie, "CreationDateAndTime"),
        };
        Ok((header, bytes_of(text.substring_char(a, b))))
    }
}

} // verus!
