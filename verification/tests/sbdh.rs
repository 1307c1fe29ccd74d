use xmip_core_transport_peppol::participant::Participant;
use xmip_core_transport_peppol::sbdh::{business_document, Header, Identifier};
use xmip_core_transport_peppol::{BILLING_INVOICE, BILLING_PROCESS};

fn header() -> Header {
    Header::stamped(
        &Participant::new("0088:1").expect("sender"),
        &Participant::new("0192:2").expect("receiver"),
        &Identifier::document(BILLING_INVOICE),
        &Identifier::process(BILLING_PROCESS),
        "1.2@xmip",
        "2026-09-16T10:00:00Z",
    )
}

#[test]
fn a_business_document_reads_back_off_the_standard_business_document_it_went_in() {
    let header = header();
    let invoice = b"<Invoice xmlns=\"urn:x\"><ID>A &amp; B</ID></Invoice>";
    let wrapped = header.wrap(invoice).expect("wrapped");
    let text = String::from_utf8(wrapped.clone()).expect("utf-8");
    assert!(text.contains("<Sender><Identifier Authority=\"iso6523-actorid-upis\">0088:1"));
    assert!(text.contains("<Standard>urn:oasis:names:specification:ubl:schema:xsd:Invoice-2"));
    assert!(text.contains("<TypeVersion>2.1</TypeVersion>"));
    assert!(text.contains("<Type>Invoice</Type>"));
    assert!(text.contains("<Type>PROCESSID</Type><InstanceIdentifier>urn:fdc:peppol.eu"));
    assert!(text.ends_with("</StandardBusinessDocumentHeader><Invoice xmlns=\"urn:x\">\
        <ID>A &amp; B</ID></Invoice></StandardBusinessDocument>"));
    let (read, document) = Header::unwrap(&wrapped).expect("unwrapped");
    assert_eq!(read, header);
    assert_eq!(document, invoice);
}

#[test]
fn a_partner_header_with_a_prefix_and_indentation_is_read_and_a_hollow_one_refused() {
    let theirs = "<?xml version=\"1.0\"?>\n<sh:StandardBusinessDocument xmlns:sh=\"x\">\n  \
        <sh:StandardBusinessDocumentHeader>\n    <sh:HeaderVersion>1.0</sh:HeaderVersion>\n    \
        <sh:Sender><sh:Identifier Authority=\"iso6523-actorid-upis\">0007:5560001234\
        </sh:Identifier></sh:Sender>\n    <sh:Receiver><sh:Identifier>0088:2</sh:Identifier>\
        </sh:Receiver>\n    <sh:DocumentIdentification><sh:Standard>urn:x</sh:Standard>\
        <sh:InstanceIdentifier>ab-12</sh:InstanceIdentifier><sh:CreationDateAndTime>\
        2026-09-16T10:00:00Z</sh:CreationDateAndTime></sh:DocumentIdentification>\n    \
        <sh:BusinessScope><sh:Scope><sh:Type>PROCESSID</sh:Type><sh:InstanceIdentifier>\
        urn:p</sh:InstanceIdentifier></sh:Scope><sh:Scope><sh:Type>DOCUMENTID</sh:Type>\
        <sh:InstanceIdentifier>urn:d::D##c::2.1</sh:InstanceIdentifier><sh:Identifier>\
        busdox-docid-qns</sh:Identifier></sh:Scope></sh:BusinessScope>\n  \
        </sh:StandardBusinessDocumentHeader>\n  <Order xmlns=\"urn:o\">\n    <ID>7</ID>\n  \
        </Order>\n</sh:StandardBusinessDocument>\n";
    let (header, document) = Header::unwrap(theirs.as_bytes()).expect("read");
    assert_eq!(header.sender.value, "0007:5560001234");
    assert_eq!(header.receiver.value, "0088:2");
    assert_eq!(header.instance, "ab-12");
    assert_eq!(header.created, "2026-09-16T10:00:00Z");
    assert_eq!(header.process, Identifier::process("urn:p"));
    assert_eq!(header.document, Identifier::document("urn:d::D##c::2.1"));
    assert_eq!(document, b"<Order xmlns=\"urn:o\">\n    <ID>7</ID>\n  </Order>");
    let refused = |sbd: &str| Header::unwrap(sbd.as_bytes()).expect_err(sbd).message;
    assert!(refused("<Order/>").contains("no StandardBusinessDocument"));
    assert!(refused("<StandardBusinessDocument><Order/></StandardBusinessDocument>")
        .contains("no header"));
    assert!(refused(&theirs.replace("<Order xmlns=\"urn:o\">\n    <ID>7</ID>\n  </Order>", ""))
        .contains("no business document after"));
    assert!(refused(&theirs.replace("<sh:Type>DOCUMENTID</sh:Type>", "")).contains("DOCUMENTID"));
    assert!(refused(&theirs.replace("<sh:Type>PROCESSID</sh:Type>", "")).contains("PROCESSID"));
    assert!(refused(&theirs.replace("iso6523-actorid-upis", "gln")).contains("under gln"));
    assert!(refused(&theirs.replace("<sh:Receiver>", "<sh:Receiver/>")).contains("no Receiver"));
    assert!(refused(&theirs.replace("0088:2", "2")).contains("no ICD"));
    assert!(Header::unwrap(&[0xff, 0xfe]).is_err());
}

#[test]
fn a_declaration_is_set_aside_and_bytes_that_are_no_document_are_refused() {
    let declared = "\u{feff}<?xml version=\"1.0\" encoding=\"UTF-8\"?>\n<probe/>\n";
    assert_eq!(business_document(declared.as_bytes()).expect("document"), "<probe/>");
    assert_eq!(business_document(b"<a><b/></a>").expect("document"), "<a><b/></a>");
    for (name, bytes) in [
        ("empty", Vec::new()),
        ("white space", b" \n\t ".to_vec()),
        ("text", b"plain text".to_vec()),
        ("not UTF-8", vec![0xff, 0xfe, 0x00]),
    ] {
        let error = business_document(&bytes).expect_err(name);
        assert!(error.message.starts_with("a Peppol payload is one XML"), "{name}");
    }
    assert!(business_document(b"<!doctype html><p>x</p>").is_err());
    assert!(business_document(b"<?xml version=\"1.0\"?><?pi?>").is_err());
    assert!(business_document(b"<?xml version=\"1.0\"").is_err());
    assert!(business_document(b"<a>").is_err());
    assert!(business_document(b"<a></a>x").is_err());
    let invoice = Identifier::parse(&format!("busdox-docid-qns::{}", BILLING_INVOICE))
        .expect("parsed");
    assert_eq!(invoice, Identifier::document(BILLING_INVOICE));
    assert_eq!(
        invoice.parts(),
        (
            "urn:oasis:names:specification:ubl:schema:xsd:Invoice-2",
            "Invoice",
            "2.1"
        )
    );
    assert_eq!(Identifier::process("urn:p").parts(), ("urn:p", "", ""));
    assert_eq!(Identifier::process("urn:p").qualified(), "cenbii-procid-ubl::urn:p");
    assert!(Identifier::parse("no-colons").is_err());
    assert!(Identifier::parse("::value").is_err());
    assert!(Identifier::parse("scheme::").is_err());
}
