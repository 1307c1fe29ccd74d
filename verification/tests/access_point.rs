use xmip_core_transport_peppol::participant::{Directory, Participant};
use xmip_core_transport_peppol::sbdh::{Header, Identifier};
use xmip_core_transport_peppol::{
    under_the_profile, MessageHead, PeppolTransport, AGREEMENT, BILLING_INVOICE, BILLING_PROCESS,
    FINAL_RECIPIENT, PARTY_TYPE,
};

fn participant(value: &str) -> Participant {
    Participant::new(value).expect("a well-formed participant")
}

#[test]
fn a_document_sent_to_a_participant_the_directory_knows_arrives_unwrapped() {
    let seller = PeppolTransport::new(
        "as4://127.0.0.1:0/as4",
        participant("0192:2"),
        participant("0088:1"),
    );
    let address = "127.0.0.1:40123";
    let directory =
        Directory::default().with(participant("0192:2"), &format!("as4://{address}/as4"));
    let buyer = PeppolTransport::new(
        "as4://127.0.0.1:1/nowhere",
        participant("0088:1"),
        participant("0192:9"),
    )
    .resolving_from(directory)
    .carrying(
        Identifier::document("urn:o::Order##c::2.1"),
        Identifier::process("urn:p"),
    );
    let (receiver, endpoint, wrapped) = buyer
        .outgoing(
            "iso6523-actorid-upis::0192:2",
            b"<Order><ID>7</ID></Order>",
            "7.1@xmip",
            "2026-09-16T10:00:00Z",
        )
        .expect("wrapped");
    assert_eq!(receiver.value, "0192:2");
    assert_eq!(endpoint, format!("as4://{address}/as4"));
    let (origin, bytes) = seller
        .arrived(&format!("as4://{address}/as4?from=buyer"), &wrapped)
        .expect("accepted");
    assert_eq!(bytes, b"<Order><ID>7</ID></Order>");
    assert!(origin.starts_with("peppol://127.0.0.1:"));
    assert!(origin.contains("/as4?sender=0088:1&receiver=0192:2&instance="));
    assert_eq!(seller.partner().value, "0088:1");
}

#[test]
fn a_participant_the_directory_does_not_know_is_refused_by_name() {
    let buyer = PeppolTransport::new(
        "as4://127.0.0.1:1/as4",
        participant("0088:1"),
        participant("0192:2"),
    );
    let error = buyer
        .outgoing("0192:3", b"<Order/>", "1@xmip", "2026-09-16T10:00:00Z")
        .expect_err("unknown");
    assert!(!error.retryable);
    assert!(
        error.message.contains("iso6523-actorid-upis::0192:3"),
        "{}",
        error.message
    );
    assert!(
        error.message.contains("SMP lookup is not written"),
        "{}",
        error.message
    );
    assert!(buyer
        .outgoing("not a participant", b"<Order/>", "1@xmip", "2026-09-16T10:00:00Z")
        .is_err());
    let error = buyer
        .outgoing("", b"not a document", "1@xmip", "2026-09-16T10:00:00Z")
        .expect_err("no XML");
    assert!(
        error.message.contains("one XML business document"),
        "{}",
        error.message
    );
    let (partner, endpoint) = buyer.resolve("https://ap.example/as4").expect("a URL");
    assert_eq!(
        (partner.value.as_str(), endpoint.as_str()),
        ("0192:2", "https://ap.example/as4")
    );
    let (_, endpoint) = buyer.resolve("").expect("the partner");
    assert_eq!(endpoint, "as4://127.0.0.1:1/as4");
}

#[test]
fn a_message_that_is_not_under_the_profile_is_answered_with_an_error() {
    let plain = MessageHead {
        party_type: None,
        agreement: None,
        properties: Vec::new(),
    };
    let me = participant("0192:2");
    let refused = under_the_profile(&plain, &me).expect_err("plain as4");
    assert!(
        refused.message.contains("not Peppol access points"),
        "{}",
        refused.message
    );
    let mut message = MessageHead {
        party_type: Some(PARTY_TYPE.to_string()),
        agreement: None,
        properties: Vec::new(),
    };
    let why = |message: &MessageHead| under_the_profile(message, &me).expect_err("no").message;
    assert!(why(&message).contains("not under the Peppol agreement"));
    message.agreement = Some(AGREEMENT.to_string());
    assert!(why(&message).contains("no finalRecipient"));
    message.properties = vec![(FINAL_RECIPIENT.to_string(), "0192:3".to_string())];
    assert!(why(&message).contains("final recipient is 0192:3"));
    message.properties = vec![(FINAL_RECIPIENT.to_string(), "0192:2".to_string())];
    assert!(under_the_profile(&message, &me).is_ok());
}

#[test]
fn a_document_whose_header_names_another_receiver_is_not_handed_up() {
    let seller = PeppolTransport::new(
        "as4://127.0.0.1:0/as4",
        participant("0192:2"),
        participant("0088:1"),
    );
    let buyer = PeppolTransport::new(
        "as4://127.0.0.1:40123/as4",
        participant("0088:1"),
        participant("0192:2"),
    );
    let header = Header::stamped(
        buyer.me(),
        &participant("0192:3"),
        &Identifier::document(BILLING_INVOICE),
        &Identifier::process(BILLING_PROCESS),
        "3@xmip",
        "2026-09-16T10:00:00Z",
    );
    let wrapped = header.wrap(b"<Invoice/>").expect("wrapped");
    let error = seller
        .arrived("as4://127.0.0.1:40123/as4", &wrapped)
        .expect_err("another receiver");
    assert!(error.message.contains("a business document for"), "{}", error.message);
    assert!(error.message.contains("0192:3"), "{}", error.message);
}
