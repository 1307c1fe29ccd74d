use xmip_core_transport_peppol::participant::{Directory, Participant};
use xmip_core_transport_peppol::sbdh::{business_document, Header, Identifier};
use xmip_core_transport_peppol::{under_the_profile, MessageHead, PeppolError, PeppolTransport, Refusal};
use xmip_core_transport_peppol::{AGREEMENT, FINAL_RECIPIENT, PARTY_TYPE};

fn participant(value: &str) -> Participant {
    Participant::new(value).expect("a well-formed participant")
}

fn check(result: PeppolError, refusal: Refusal, words: &str) {
    assert_eq!(result.refusal, refusal, "{}", result.message);
    assert_eq!(result.message, words);
    assert!(!result.retryable);
}

const SBD_HEAD: &str = "<StandardBusinessDocument><StandardBusinessDocumentHeader>";

fn sbd(header: &str, after: &str) -> Vec<u8> {
    format!("{SBD_HEAD}{header}</StandardBusinessDocumentHeader>{after}</StandardBusinessDocument>")
        .into_bytes()
}

const SENDER: &str = "<Sender><Identifier>0088:1</Identifier></Sender>";
const RECEIVER: &str = "<Receiver><Identifier>0192:2</Identifier></Receiver>";
const SCOPES: &str = "<BusinessScope><Scope><Type>DOCUMENTID</Type><InstanceIdentifier>d</InstanceIdentifier></Scope>\
    <Scope><Type>PROCESSID</Type><InstanceIdentifier>p</InstanceIdentifier></Scope></BusinessScope>";

#[test]
fn each_participant_refusal_comes_with_its_words() {
    check(Participant::new("7300010000001").expect_err("no icd"), Refusal::NoIcd,
        "a participant with no ICD before its identifier: 7300010000001");
    check(Participant::new("088:1").expect_err("three digits"), Refusal::IcdNotFourDigits,
        "a participant whose ICD 088 is not four digits: 088:1");
    check(Participant::new("0088:").expect_err("nothing after"), Refusal::NoIdentifier,
        "a participant with no identifier after its ICD: 0088:");
    check(Participant::new("0088:73 00").expect_err("white space"), Refusal::NoIdentifier,
        "a participant with no identifier after its ICD: 0088:73 00");
    check(Participant::parse("gln::0088:1").expect_err("scheme"), Refusal::ForeignScheme,
        "a participant under gln, and Peppol participants are iso6523-actorid-upis");
    check(Identifier::parse("::v").expect_err("empty scheme"), Refusal::NotSchemeValue,
        "an identifier that is not scheme::value: ::v");
}

#[test]
fn each_payload_refusal_comes_with_its_words() {
    check(business_document(&[0xff, 0xfe]).expect_err("bytes"), Refusal::PayloadNotUtf8,
        "a Peppol payload is one XML business document, and these bytes are not UTF-8");
    check(business_document(b"<?xml version=\"1.0\"").expect_err("open"), Refusal::DeclarationNeverCloses,
        "an XML declaration that never closes");
    check(business_document(b"<a>").expect_err("open"), Refusal::NotOneElement,
        "a Peppol payload is one XML business document, and this is not one");
    check(business_document(b" <Invoice xmlns=\"urn:x\"> ").expect_err("never closes"), Refusal::NotOneElement,
        "a Peppol payload is one XML business document, and this is not one");
}

#[test]
fn each_standard_business_document_refusal_comes_with_its_words() {
    check(Header::unwrap(&[0xc3]).expect_err("bytes"), Refusal::DocumentNotUtf8,
        "a Standard Business Document that is not UTF-8");
    check(Header::unwrap(b"<Order/>").expect_err("none"), Refusal::NoStandardBusinessDocument,
        "no StandardBusinessDocument in what arrived");
    check(Header::unwrap(b"<StandardBusinessDocument><Order/></StandardBusinessDocument>").expect_err("no header"),
        Refusal::NoHeader, "a StandardBusinessDocument with no header");
    check(Header::unwrap(&sbd(&format!("{SENDER}{RECEIVER}{SCOPES}"), "  ")).expect_err("empty"),
        Refusal::NoBusinessDocument, "a StandardBusinessDocument with no business document after its header");
    check(Header::unwrap(&sbd(&format!("{RECEIVER}{SCOPES}"), "<O/>")).expect_err("sender"),
        Refusal::NoParty, "a header with no Sender");
    check(Header::unwrap(&sbd(&format!("<Sender><Identifier Authority=\"gln\">0088:1</Identifier></Sender>{RECEIVER}{SCOPES}"), "<O/>"))
        .expect_err("authority"), Refusal::PartyUnderScheme,
        "a Sender under gln, and Peppol participants are iso6523-actorid-upis");
    check(Header::unwrap(&sbd(&format!("<Sender></Sender>{RECEIVER}{SCOPES}"), "<O/>")).expect_err("id"),
        Refusal::PartyWithoutIdentifier, "a Sender with no Identifier");
    check(Header::unwrap(&sbd(&format!("{SENDER}{RECEIVER}<BusinessScope><Scope><Type>PROCESSID</Type>\
        <InstanceIdentifier>p</InstanceIdentifier></Scope></BusinessScope>"), "<O/>")).expect_err("document"),
        Refusal::NoDocumentScope, "a header with no DOCUMENTID scope");
    check(Header::unwrap(&sbd(&format!("{SENDER}{RECEIVER}<BusinessScope><Scope><Type>DOCUMENTID</Type>\
        <InstanceIdentifier>d</InstanceIdentifier></Scope></BusinessScope>"), "<O/>")).expect_err("process"),
        Refusal::NoProcessScope, "a header with no PROCESSID scope");
    let (header, document) = Header::unwrap(&sbd(&format!("{SENDER}{RECEIVER}{SCOPES}"), " <O/> ")).expect("read");
    assert_eq!(document, b"<O/>");
    assert_eq!(header.document, Identifier::document("d"));
    assert_eq!(header.process, Identifier::process("p"));
    assert_eq!((header.instance.as_str(), header.created.as_str()), ("", ""));
}

#[test]
fn each_access_point_refusal_comes_with_its_words() {
    let me = participant("0192:2");
    let mut message = MessageHead { party_type: None, agreement: None, properties: Vec::new() };
    check(under_the_profile(&message, &me).expect_err("type"), Refusal::NotAccessPoints,
        "a message whose parties are not Peppol access points: the party type is not urn:fdc:peppol.eu:2017:identifiers:ap");
    message.party_type = Some(PARTY_TYPE.to_string());
    check(under_the_profile(&message, &me).expect_err("agreement"), Refusal::NotUnderAgreement,
        "a message that is not under the Peppol agreement urn:fdc:peppol.eu:2017:agreements:tia:ap_provider");
    message.agreement = Some(AGREEMENT.to_string());
    check(under_the_profile(&message, &me).expect_err("recipient"), Refusal::NoFinalRecipient,
        "a message with no finalRecipient property");
    message.properties = vec![(FINAL_RECIPIENT.to_string(), "0192:3".to_string()), (FINAL_RECIPIENT.to_string(), "0192:2".to_string())];
    check(under_the_profile(&message, &me).expect_err("other"), Refusal::OtherFinalRecipient,
        "a message whose final recipient is 0192:3, and this participant is iso6523-actorid-upis::0192:2");
    let buyer = PeppolTransport::new("as4://127.0.0.1:1/as4", participant("0088:1"), participant("0192:2"))
        .resolving_from(Directory::default());
    check(buyer.resolve("0192:3").expect_err("unknown"), Refusal::UnknownParticipant,
        "no access point known for iso6523-actorid-upis::0192:3: the directory does not hold it, and SMP lookup is not written");
    let (_, _, wrapped) = buyer.outgoing("https://ap.example/as4", b"<O/>", "1@xmip", "2026-09-16T10:00:00Z").expect("sent");
    check(buyer.arrived("as4://x/as4", &wrapped).expect_err("other"), Refusal::OtherReceiver,
        "a business document for iso6523-actorid-upis::0192:2, and this participant is iso6523-actorid-upis::0088:1");
}

#[test]
fn only_a_start_tag_that_never_closes_is_refused_of_what_opens_and_closes_with_a_tag() {
    assert_eq!(business_document(b"<a></a >").expect("end tag with space"), "<a></a >");
    assert_eq!(business_document(b"<a/><!-- c -->").expect("comment after"), "<a/><!-- c -->");
    assert_eq!(business_document(b"</a>").expect("a closing tag"), "</a>");
    assert_eq!(business_document(b"<a><b>").expect("two start tags"), "<a><b>");
    assert_eq!(business_document(b"<a x=\"/\"/>").expect("self-closed"), "<a x=\"/\"/>");
    check(business_document(b"<a x=\"1\">").expect_err("lone"), Refusal::NotOneElement,
        "a Peppol payload is one XML business document, and this is not one");
    assert!(business_document(b"<a/").is_err());
    assert!(business_document(b"<>").is_err());
}
