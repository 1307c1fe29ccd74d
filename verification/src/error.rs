//! What the library refuses, and the words it refuses it with.

use vstd::prelude::*;

verus! {

/// Why something was refused.
#[derive(Clone, Copy, Debug, PartialEq, Eq, Structural)]
pub enum Refusal {
    /// A participant value with no `:` after its ICD.
    NoIcd,
    /// A participant whose ICD is not four digits.
    IcdNotFourDigits,
    /// A participant with nothing, or white space, after its ICD.
    NoIdentifier,
    /// A participant under another scheme than the Peppol one.
    ForeignScheme,
    /// An identifier that is not `scheme::value`.
    NotSchemeValue,
    /// A payload that is not UTF-8.
    PayloadNotUtf8,
    /// A payload whose XML declaration never closes.
    DeclarationNeverCloses,
    /// A payload that is not one XML element.
    NotOneElement,
    /// A Standard Business Document that is not UTF-8.
    DocumentNotUtf8,
    /// Bytes that hold no `StandardBusinessDocument`.
    NoStandardBusinessDocument,
    /// A Standard Business Document without its header.
    NoHeader,
    /// A header whose closing tag never closes.
    HeaderNeverCloses,
    /// Nothing after the header.
    NoBusinessDocument,
    /// A header with no `DOCUMENTID` scope.
    NoDocumentScope,
    /// A header with no `PROCESSID` scope.
    NoProcessScope,
    /// A header without its `Sender` or `Receiver`.
    NoParty,
    /// A `Sender` or `Receiver` under another authority than the Peppol one.
    PartyUnderScheme,
    /// A `Sender` or `Receiver` with no `Identifier`.
    PartyWithoutIdentifier,
    /// A business document for another participant.
    OtherReceiver,
    /// A message whose parties are not access points.
    NotAccessPoints,
    /// A message not under the Peppol agreement.
    NotUnderAgreement,
    /// A message with no `finalRecipient` property.
    NoFinalRecipient,
    /// A message whose final recipient is another participant.
    OtherFinalRecipient,
    /// A participant that the directory does not know.
    UnknownParticipant,
}

/// A refusal, with the words that say what was refused. Nothing the
/// library refuses is worth trying again as it is.
#[derive(Debug)]
pub struct PeppolError {
    pub refusal: Refusal,
    pub message: String,
    pub retryable: bool,
}

/// What an error is, as contracts speak of it: why, and the words.
pub open spec fn refused(e: PeppolError) -> (Refusal, Seq<char>) {
    (e.refusal, e.message@)
}

/// Refuse for `refusal`, saying `message`.
pub fn refuse(refusal: Refusal, message: String) -> (e: PeppolError)
    ensures
        e.refusal == refusal,
        e.message@ == message@,
        !e.retryable,
{
    PeppolError { refusal, message, retryable: false }
}

} // verus!
