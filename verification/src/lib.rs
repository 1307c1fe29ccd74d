//! Peppol business documents over AS4. One business document is one
//! Stream, its participants and its instance beside it.
//!
//! Between the two access points of the Peppol network the wire is AS4
//! under one profile: the document goes inside a Standard Business
//! Document whose header names the sending and the receiving participant,
//! the document type and the process ([`Header`]); the AS4 User Message
//! around it carries the access-point party type, the transport
//! infrastructure agreement, the process as its service, the document type
//! as its action, and the participants again as the `originalSender` and
//! `finalRecipient` properties. A receiving access point refuses what is
//! not under the profile or not for its participant and hands up the
//! business document alone; a sending one wraps the document and resolves
//! the far end from a [`Directory`], a static table, or from a URL given
//! as the target.

pub mod access_point;
pub mod error;
pub mod laws;
pub mod loopback;
pub mod participant;
pub mod sbdh;
pub mod text;
pub mod written;
pub mod xml;

pub use access_point::{under_the_profile, MessageHead, PeppolTransport, Template};
pub use error::{PeppolError, Refusal};
pub use loopback::{path_of, PARTICIPANT};
pub use participant::{Directory, Participant};
pub use sbdh::{business_document, Header, Identifier};

use vstd::prelude::*;

verus! {

/// The Peppol BIS Billing 3.0 invoice, the document type a transport
/// carries until [`PeppolTransport::carrying`].
pub const BILLING_INVOICE: &'static str =
    "urn:oasis:names:specification:ubl:schema:xsd:Invoice-2::Invoice##urn:cen.eu:en16931:2017#compliant#urn:fdc:peppol.eu:2017:poacc:billing:3.0::2.1";

/// The Peppol billing process, the one [`BILLING_INVOICE`] belongs to.
pub const BILLING_PROCESS: &'static str = "urn:fdc:peppol.eu:2017:poacc:billing:01:1.0";

/// The `type` both AS4 party ids carry: an access point.
pub const PARTY_TYPE: &'static str = "urn:fdc:peppol.eu:2017:identifiers:ap";

/// The agreement every Peppol exchange is under.
pub const AGREEMENT: &'static str = "urn:fdc:peppol.eu:2017:agreements:tia:ap_provider";

/// The message property naming the participant the document is from.
pub const ORIGINAL_SENDER: &'static str = "originalSender";

/// The message property naming the participant the document is for.
pub const FINAL_RECIPIENT: &'static str = "finalRecipient";

} // verus!
