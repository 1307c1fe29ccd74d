use xmip_core_transport_peppol::participant::{Directory, Participant};

#[test]
fn a_participant_reads_qualified_or_bare_and_prints_qualified() {
    let qualified = Participant::parse("iso6523-actorid-upis::0088:7300010000001").expect("read");
    let bare = Participant::parse("0088:7300010000001").expect("read");
    assert_eq!(qualified, bare);
    assert_eq!(qualified.icd(), "0088");
    assert_eq!(qualified.value, "0088:7300010000001");
    assert_eq!(
        qualified.qualified(),
        "iso6523-actorid-upis::0088:7300010000001"
    );
    assert_eq!(
        Participant::new("0192:987654321").expect("read").icd(),
        "0192"
    );
}

#[test]
fn a_participant_under_another_scheme_or_without_its_icd_is_refused() {
    for malformed in [
        "busdox-docid-qns::0088:1",
        "7300010000001",
        "088:7300010000001",
        "00x8:7300010000001",
        "0088:",
        "0088:73 00",
        "",
    ] {
        let error = Participant::parse(malformed).expect_err(malformed);
        assert!(!error.retryable, "{malformed}");
    }
    assert!(
        Participant::parse("gln::0088:1")
            .expect_err("scheme")
            .message
            .contains("Peppol participants are iso6523-actorid-upis")
    );
}

#[test]
fn a_directory_answers_the_endpoint_of_a_participant_it_knows() {
    let buyer = Participant::new("0088:1").expect("buyer");
    let seller = Participant::new("0088:2").expect("seller");
    let directory = Directory::default()
        .with(buyer.clone(), "https://buyer.example/as4")
        .with(seller.clone(), "https://old.example/as4")
        .with(seller.clone(), "https://seller.example/as4");
    assert_eq!(directory.len(), 2);
    assert!(!directory.is_empty());
    assert_eq!(
        directory.endpoint_of(&buyer),
        Some("https://buyer.example/as4")
    );
    assert_eq!(
        directory.endpoint_of(&seller),
        Some("https://seller.example/as4")
    );
    assert_eq!(
        directory.endpoint_of(&Participant::new("0088:3").expect("stranger")),
        None
    );
    assert!(Directory::default().is_empty());
}
