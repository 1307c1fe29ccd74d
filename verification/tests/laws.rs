use xmip_core_transport_peppol::participant::{Directory, Participant};
use xmip_core_transport_peppol::sbdh::{Header, Identifier};
use xmip_core_transport_peppol::{
    under_the_profile, MessageHead, PeppolTransport, BILLING_INVOICE, BILLING_PROCESS,
};

fn participant(value: &str) -> Participant {
    Participant::new(value).expect("a well-formed participant")
}

#[test]
fn a_participant_reads_the_same_qualified_or_bare() {
    for value in ["0192:987654321", "0007:5560001234", "9915:a-b.c"] {
        let bare = Participant::parse(value).expect("bare");
        let qualified = Participant::parse(&bare.qualified()).expect("qualified");
        assert_eq!(bare, qualified);
        assert_eq!(bare.value, value);
    }
}

#[test]
fn an_identifier_reads_back_as_it_prints() {
    for (scheme, value) in [
        ("busdox-docid-qns", BILLING_INVOICE),
        ("cenbii-procid-ubl", BILLING_PROCESS),
        ("s", "v::w"),
    ] {
        let identifier = Identifier::new(scheme, value);
        let read = Identifier::parse(&identifier.qualified()).expect("reads back");
        assert_eq!(read, identifier);
    }
    let odd = Identifier::new("a:", "v");
    assert_eq!(odd.qualified(), "a:::v");
    let read = Identifier::parse(&odd.qualified()).expect("reads");
    assert_eq!((read.scheme.as_str(), read.value.as_str()), ("a", ":v"));
}

#[test]
fn a_directory_with_a_participant_answers_its_endpoint_and_keeps_the_others() {
    let buyer = participant("0088:1");
    let seller = participant("0088:2");
    let before = Directory::default().with(buyer.clone(), "https://buyer.example/as4");
    assert_eq!(before.len(), 1);
    let after = before.duplicate().with(seller.clone(), "https://seller.example/as4");
    assert_eq!(after.len(), 2);
    assert_eq!(after.endpoint_of(&seller), Some("https://seller.example/as4"));
    assert_eq!(after.endpoint_of(&buyer), before.endpoint_of(&buyer));
    let again = after.with(seller.clone(), "https://moved.example/as4");
    assert_eq!(again.len(), 2);
    assert_eq!(again.endpoint_of(&seller), Some("https://moved.example/as4"));
    assert_eq!(again.endpoint_of(&buyer), Some("https://buyer.example/as4"));
}

#[test]
fn what_is_sent_to_a_participant_is_under_the_profile_at_its_access_point() {
    let buyer = PeppolTransport::new("as4://127.0.0.1:1/as4", participant("0088:1"), participant("0192:2"));
    let receiver = participant("0192:2");
    let template = buyer.template(&receiver);
    let message = MessageHead {
        party_type: Some(template.party_type.clone()),
        agreement: Some(template.agreement.clone()),
        properties: template.properties.clone(),
    };
    assert!(under_the_profile(&message, &receiver).is_ok());
    let error = under_the_profile(&message, &participant("0192:3")).expect_err("another");
    assert!(error.message.contains("final recipient is 0192:2"));
}

#[test]
fn a_header_with_markup_in_its_fields_reads_back_off_what_it_wrapped() {
    let header = Header::stamped(
        &participant("0088:1"),
        &participant("0192:2"),
        &Identifier::new("busdox-docid-qns", "urn:x::Doc##c<1>&\"q\"::2.1"),
        &Identifier::new("cenbii-procid-ubl", "urn:p'1'"),
        "a&b<c>@xmip",
        "2026-09-16T10:00:00Z",
    );
    let document = b"<Doc a=\"1\">x &lt; y</Doc>";
    let wrapped = header.wrap(document).expect("wrapped");
    let text = String::from_utf8(wrapped.clone()).expect("utf-8");
    assert!(text.contains("<InstanceIdentifier>a&amp;b&lt;c&gt;@xmip</InstanceIdentifier>"));
    let (read, back) = Header::unwrap(&wrapped).expect("unwrapped");
    assert_eq!(read, header);
    assert_eq!(back, document);
}

#[test]
fn a_document_one_access_point_sends_arrives_unwrapped_at_the_other() {
    let directory = Directory::default().with(participant("0192:2"), "https://seller.example/as4");
    let buyer = PeppolTransport::new("as4://127.0.0.1:1/nowhere", participant("0088:1"), participant("0192:9"))
        .resolving_from(directory)
        .carrying(Identifier::document("urn:o::Order##c::2.1"), Identifier::process("urn:p"));
    let seller = PeppolTransport::new("as4://127.0.0.1:0/as4", participant("0192:2"), participant("0088:1"));
    let (receiver, endpoint, wrapped) = buyer
        .outgoing("iso6523-actorid-upis::0192:2", b"  <Order><ID>7</ID></Order>\n", "9@xmip", "2026-09-16T10:00:00Z")
        .expect("sent");
    assert_eq!(receiver.value, "0192:2");
    assert_eq!(endpoint, "https://seller.example/as4");
    let (origin, document) = seller.arrived("as4://10.0.0.1:4431/as4?p=1", &wrapped).expect("arrived");
    assert_eq!(document, b"<Order><ID>7</ID></Order>");
    assert_eq!(origin, "peppol://10.0.0.1:4431/as4?sender=0088:1&receiver=0192:2&instance=9@xmip");
    let error = buyer.arrived("as4://x/as4", &wrapped).expect_err("not for the buyer");
    assert!(error.message.contains("a business document for iso6523-actorid-upis::0192:2"));
}

#[test]
fn the_loopback_carries_what_it_does_not_refuse_byte_for_byte() {
    let pair = PeppolTransport::loopback();
    for payload in [
        &b"<probe/>"[..],
        &b"<p q=\"1\">\xc3\xa9t\xc3\xa9</p>"[..],
        &b"<Invoice xmlns=\"urn:x\"><ID>A &amp; B</ID></Invoice>"[..],
    ] {
        assert!(pair.refuses(payload).is_none());
        let (_, _, wrapped) = pair.outgoing("", payload, "3@xmip", "2026-09-16T10:00:00Z").expect("sent");
        let (_, document) = pair.arrived("as4://127.0.0.1:9/as4", &wrapped).expect("arrived");
        assert_eq!(document, payload);
    }
}

#[test]
fn what_business_document_gives_is_a_business_document_on_its_own() {
    let pair = PeppolTransport::loopback();
    for payload in [
        &b"\xef\xbb\xbf<?xml version=\"1.0\"?>\n <a x=\"1\"><b/></a>\r\n"[..],
        &b"  <ns0:Invoice>t</ns0:Invoice>"[..],
        &b"<a/>"[..],
    ] {
        let once = xmip_core_transport_peppol::business_document(payload).expect("a document").to_string();
        let twice = xmip_core_transport_peppol::business_document(once.as_bytes()).expect("again");
        assert_eq!(twice, once);
        assert!(pair.refuses(once.as_bytes()).is_none());
    }
}

#[test]
fn a_directory_given_an_endpoint_twice_is_the_directory_given_the_second() {
    let base = Directory::default()
        .with(participant("0088:1"), "https://a.example/as4")
        .with(participant("0088:2"), "https://b.example/as4")
        .with(participant("0088:3"), "https://c.example/as4");
    let twice = base
        .duplicate()
        .with(participant("0088:2"), "https://old.example/as4")
        .with(participant("0088:2"), "https://new.example/as4");
    let once = base.duplicate().with(participant("0088:2"), "https://new.example/as4");
    assert_eq!(twice, once);
    assert_eq!(
        format!("{once:?}"),
        format!(
            "{:?}",
            Directory::default()
                .with(participant("0088:1"), "https://a.example/as4")
                .with(participant("0088:3"), "https://c.example/as4")
                .with(participant("0088:2"), "https://new.example/as4")
        )
    );
}

#[test]
fn what_unwrap_hands_up_is_a_trimmed_stretch_of_the_text_from_participants() {
    let sbd = "<sh:StandardBusinessDocument><sh:StandardBusinessDocumentHeader>\
        <sh:Sender><sh:Identifier> 0088:1 </sh:Identifier></sh:Sender>\
        <sh:Receiver><sh:Identifier>0192:2</sh:Identifier></sh:Receiver><sh:BusinessScope>\
        <sh:Scope><sh:Type>DOCUMENTID</sh:Type><sh:InstanceIdentifier>d</sh:InstanceIdentifier>\
        </sh:Scope><sh:Scope><sh:Type>PROCESSID</sh:Type><sh:InstanceIdentifier>p\
        </sh:InstanceIdentifier></sh:Scope></sh:BusinessScope></sh:StandardBusinessDocumentHeader>\
        \n  <O>x</O>\t</sh:StandardBusinessDocument>";
    let (header, document) = Header::unwrap(sbd.as_bytes()).expect("read");
    assert_eq!(document, b"<O>x</O>");
    assert!(sbd.contains("<O>x</O>"));
    assert_eq!(header.sender.value, "0088:1");
    assert_eq!(header.document.scheme, "busdox-docid-qns");
    assert_eq!(header.process.scheme, "cenbii-procid-ubl");
}

#[test]
fn what_a_send_wraps_for_a_receiver_is_what_goes_out_to_it() {
    let buyer = PeppolTransport::new("https://ap.example/as4", participant("0088:1"), participant("0192:2"));
    let (receiver, _, wrapped) = buyer
        .outgoing("", b"<Order/>", "4@xmip", "2026-09-16T10:00:00Z")
        .expect("sent");
    let direct = buyer
        .wrapped_for(&receiver, b"<Order/>", "4@xmip", "2026-09-16T10:00:00Z")
        .expect("wrapped");
    assert_eq!(wrapped, direct);
    assert!(buyer.wrapped_for(&receiver, b"plain", "4@xmip", "t").is_err());
}
