use xmip_core_transport_peppol::{path_of, PeppolTransport, PARTICIPANT};

#[test]
fn the_loopback_carries_a_business_document_whole_and_refuses_what_is_none() {
    let pair = PeppolTransport::loopback();
    let probe = b"<probe><n>1</n>round-trip</probe>";
    assert!(pair.refuses(probe).is_none());
    let (_, _, wrapped) = pair
        .outgoing("", probe, "1@xmip", "2026-09-16T10:00:00Z")
        .expect("round");
    let (_, document) = pair.arrived("as4://127.0.0.1:1/as4", &wrapped).expect("round");
    assert_eq!(document, probe);
    for (name, bytes) in [
        ("empty", Vec::new()),
        ("text", b"plain text".to_vec()),
        ("not UTF-8", vec![0xff, 0xfe, 0x00]),
    ] {
        let why = pair
            .refuses(&bytes)
            .unwrap_or_else(|| panic!("{name} not refused"));
        assert!(why.contains("one XML business document"), "{name}: {why}");
    }
    let declared = b"<?xml version=\"1.0\"?>\n<probe/>\n";
    let why = pair.refuses(declared).expect("not as it is");
    assert!(why.contains("set aside"), "{why}");
    let (_, _, wrapped) = pair
        .outgoing("", declared, "2@xmip", "2026-09-16T10:00:00Z")
        .expect("round");
    let (_, document) = pair.arrived("as4://127.0.0.1:1/as4", &wrapped).expect("round");
    assert_eq!(document, b"<probe/>");
}

#[test]
fn the_far_end_is_this_participant_unsigned_and_keeps_the_path() {
    let pair = PeppolTransport::loopback();
    let far = pair.twin(&pair.endpoint_at("127.0.0.1:40999"));
    assert_eq!(far.endpoint(), "as4://127.0.0.1:40999/as4");
    let (_, _, wrapped) = pair
        .outgoing("", b"<Order/>", "5@xmip", "2026-09-16T10:00:00Z")
        .expect("round");
    let (origin, _) = far
        .arrived("as4://127.0.0.1:40999/as4?x=1", &wrapped)
        .expect("round");
    assert!(origin.starts_with("peppol://127.0.0.1:"), "{origin}");
    assert!(
        origin.contains("/as4?sender=0088:7300010000001&receiver=0088:7300010000001&instance="),
        "{origin}"
    );
    assert_eq!(pair.me().value, PARTICIPANT);
    assert_eq!(path_of("as4://127.0.0.1:0/as4"), "/as4");
    assert_eq!(path_of("https://ap.example/peppol/as4"), "/peppol/as4");
    assert_eq!(path_of("as4://127.0.0.1:0"), "/");
    assert_eq!(path_of("host:1/x"), "/x");
}
