//! Peppol at both ends on this machine: one participant's access point
//! posting to itself. The far end is this participant's inbox bound at an
//! ephemeral port; the near end is this participant again, wrapping and
//! posting. What the protocol carries is one XML business document, so the
//! refusals are about content: bytes that are no XML element are not
//! carried, and a document with an XML declaration or white space around it
//! is carried without them, which is not as it is.

use vstd::prelude::*;
use vstd::string::*;
use vstd::utf8::*;

use crate::access_point::{PeppolTransport, TransportView};
use crate::error::Refusal;
use crate::participant::Participant;
use crate::sbdh::{document_range, document_window, payload_message, DOCUMENT_SCHEME, PROCESS_SCHEME};
use crate::text::{chars_of, find, find_exec, join, lemma_utf8_text, utf8};
use crate::{BILLING_INVOICE, BILLING_PROCESS};

verus! {

/// The participant both ends of a loopback are: a GLN under ICD 0088.
pub const PARTICIPANT: &'static str = "0088:7300010000001";

/// Where a loopback listens: an ephemeral local port.
pub const LOOPBACK_ENDPOINT: &'static str = "as4://127.0.0.1:0/as4";

/// The path of `endpoint`, `/` where it has none.
pub open spec fn path_spec(endpoint: Seq<char>) -> Seq<char> {
    let rest = match find(endpoint, "://"@) {
        Some(k) => endpoint.skip(k + "://"@.len()),
        None => endpoint,
    };
    match find(rest, seq!['/']) {
        Some(at) => rest.skip(at),
        None => "/"@,
    }
}

/// Why a loopback would not carry `payload` as it is: no business
/// document, or one that travels without what is around it.
pub open spec fn refusal_of(payload: Seq<u8>) -> Option<Seq<char>> {
    if !valid_utf8(payload) {
        Some(payload_message(Refusal::PayloadNotUtf8))
    } else {
        let t = decode_utf8(payload);
        match document_window(t) {
            Err(why) => Some(payload_message(why)),
            Ok((a, b)) => if a == 0 && b == t.len() {
                None
            } else {
                Some(
                    "a business document travels inside the Standard Business Document as an element: its XML declaration and the whitespace around it are set aside"@,
                )
            },
        }
    }
}

/// The path of `endpoint`, `/` where it has none.
pub fn path_of(endpoint: &str) -> (r: &str)
    ensures
        r@ == path_spec(endpoint@),
{
    let e = chars_of(endpoint);
    let mark = chars_of("://");
    let rest = match find_exec(&e, &mark, 0, e.len()) {
        Some(k) => endpoint.substring_char(k + mark.len(), e.len()),
        None => endpoint,
    };
    let r = chars_of(rest);
    let slash = vec!['/'];
    assert(slash@ == seq!['/']);
    match find_exec(&r, &slash, 0, r.len()) {
        Some(at) => rest.substring_char(at, r.len()),
        None => "/",
    }
}

impl PeppolTransport {
    /// Both ends on this machine: an ephemeral local port and one
    /// participant, [`PARTICIPANT`], sending to itself under the billing
    /// process until [`Self::carrying`].
    pub fn loopback() -> (r: PeppolTransport)
        ensures
            r@ == (TransportView {
                endpoint: LOOPBACK_ENDPOINT@,
                me: PARTICIPANT@,
                partner: PARTICIPANT@,
                document: (DOCUMENT_SCHEME@, BILLING_INVOICE@),
                process: (PROCESS_SCHEME@, BILLING_PROCESS@),
                directory: Map::empty(),
            }),
    {
        let me = Participant { value: PARTICIPANT.to_owned() };
        let partner = me.duplicate();
        PeppolTransport::new(LOOPBACK_ENDPOINT, me, partner)
    }

    /// The access point this participant's twin posts to when the far end
    /// listens at `address`: `as4://{address}` and the path of this
    /// endpoint.
    pub fn endpoint_at(&self, address: &str) -> (r: String)
        ensures
            r@ == "as4://"@ + address@ + path_spec(self@.endpoint),
    {
        let mut r = join("as4://", address);
        r.append(path_of(self.endpoint()));
        r
    }

    /// Why a loopback would not carry `payload` as it is, or nothing where
    /// it would.
    pub fn refuses(&self, payload: &[u8]) -> (r: Option<String>)
        ensures
            match r {
                Some(why) => refusal_of(payload@) == Some(why@),
                None => refusal_of(payload@) is None,
            },
    {
        let text = match utf8(payload) {
            Some(text) => text,
            None => {
                return Some(
                    "a Peppol payload is one XML business document, and these bytes are not UTF-8".to_owned(),
                );
            },
        };
        proof {
            lemma_utf8_text(text, payload@);
        }
        let t = chars_of(text);
        match document_range(&t) {
            Err(why) => {
                if why == Refusal::DeclarationNeverCloses {
                    Some("an XML declaration that never closes".to_owned())
                } else {
                    Some(
                        "a Peppol payload is one XML business document, and this is not one".to_owned(),
                    )
                }
            },
            Ok((a, b)) => {
                if a == 0 && b == t.len() {
                    None
                } else {
                    Some(
                        "a business document travels inside the Standard Business Document as an element: its XML declaration and the whitespace around it are set aside".to_owned(),
                    )
                }
            },
        }
    }
}

} // verus!
