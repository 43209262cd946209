use authenticate_kerberos::clock::seconds_after_epoch;
use authenticate_kerberos::crypto;
use authenticate_kerberos::crypto::{encrypt, TICKET_KEY_USAGE};
use authenticate_kerberos::der::{
    application, context, GENERALIZED_TIME, GENERAL_STRING, INTEGER, OCTET_STRING, SEQUENCE,
};
use authenticate_kerberos::{
    now, EncTicketPart, KeyEntry, Mechanism, Presented, Ticket, Verified, Verifier, AP_REQ_PROOF,
};
use base64::engine::general_purpose::STANDARD;
use base64::Engine;

const NOW: i64 = 1_800_000_000;
const KEY: [u8; 32] = [7u8; 32];
const SERVICE: &[&str] = &["HTTP", "xmip.example"];
const REALM: &str = "EXAMPLE.COM";
const PRINCIPAL: &str = "HTTP/xmip.example@EXAMPLE.COM";

/// `content` under `tag`, with the shortest length octets.
fn tlv(tag: u8, content: &[u8]) -> Vec<u8> {
    let mut bytes = vec![tag];
    let length = content.len();
    if length < 0x80 {
        bytes.push(length as u8);
    } else {
        let octets: Vec<u8> = length
            .to_be_bytes()
            .iter()
            .copied()
            .skip_while(|octet| *octet == 0)
            .collect();
        bytes.push(0x80 + octets.len() as u8);
        bytes.extend(octets);
    }
    bytes.extend_from_slice(content);
    bytes
}

/// `[number]` around `inner`.
fn field(number: u8, inner: &[u8]) -> Vec<u8> {
    tlv(context(number), inner)
}

/// A `PrincipalName` of these components.
fn name(components: &[&str]) -> Vec<u8> {
    let strings: Vec<u8> = components
        .iter()
        .flat_map(|component| tlv(GENERAL_STRING, component.as_bytes()))
        .collect();
    let mut fields = field(0, &tlv(INTEGER, &[1]));
    fields.extend(field(1, &tlv(SEQUENCE, &strings)));
    tlv(SEQUENCE, &fields)
}

/// `YYYYMMDDHHMMSSZ` for a Unix time; the tests use whole minutes.
fn kerberos_time(seconds: i64) -> Vec<u8> {
    // 2027-01-15T08:00:00Z is 1_800_000_000; the tests offset from there.
    let table = [
        (1_800_000_000i64, "20270115080000Z"),
        (1_800_000_000 - 3_600, "20270115070000Z"),
        (1_800_000_000 + 3_600, "20270115090000Z"),
        (1_800_000_000 - 86_400, "20270114080000Z"),
        (1_800_000_000 + 86_400, "20270116080000Z"),
    ];
    let text = table
        .iter()
        .find(|(at, _)| *at == seconds)
        .map(|(_, text)| *text)
        .expect("a tabulated time");
    tlv(GENERALIZED_TIME, text.as_bytes())
}

/// A sealed `EncTicketPart` for a client valid over `[start, end]`.
fn enc_ticket_part(realm: &str, client: &[&str], start: i64, end: i64) -> Vec<u8> {
    let mut fields = field(0, &tlv(0x03, &[0, 0, 0, 0, 0])); // flags, BIT STRING
    fields.extend(field(1, &tlv(SEQUENCE, &[]))); // key, elided shape
    fields.extend(field(2, &tlv(GENERAL_STRING, realm.as_bytes())));
    fields.extend(field(3, &name(client)));
    fields.extend(field(4, &tlv(SEQUENCE, &[]))); // transited
    fields.extend(field(5, &kerberos_time(start))); // authtime
    fields.extend(field(7, &kerberos_time(end))); // endtime
    tlv(application(3), &tlv(SEQUENCE, &fields))
}

/// A bare AP-REQ whose ticket is for `service@realm`, with this sealed part.
fn request(service: &[&str], realm: &str, enc_part: &[u8]) -> Vec<u8> {
    let mut ticket = field(0, &tlv(INTEGER, &[5]));
    ticket.extend(field(1, &tlv(GENERAL_STRING, realm.as_bytes())));
    ticket.extend(field(2, &name(service)));
    ticket.extend(field(3, &tlv(SEQUENCE, enc_part)));
    let ticket = tlv(application(1), &tlv(SEQUENCE, &ticket));
    let mut request = field(0, &tlv(INTEGER, &[5]));
    request.extend(field(1, &tlv(INTEGER, &[14]))); // msg-type
    request.extend(field(2, &tlv(0x03, &[0, 0, 0, 0, 0]))); // ap-options
    request.extend(field(3, &ticket));
    request.extend(field(4, &tlv(SEQUENCE, &[]))); // authenticator, sealed elsewhere
    tlv(application(14), &tlv(SEQUENCE, &request))
}

/// A bare AP-REQ whose ticket is for `service@realm`, sealed under `key`.
fn ap_req(service: &[&str], realm: &str, key: &[u8], sealed: &[u8]) -> Vec<u8> {
    let cipher = encrypt(key, TICKET_KEY_USAGE, [5u8; 16], sealed).expect("a key");
    let mut enc_part = field(0, &tlv(INTEGER, &[18]));
    enc_part.extend(field(1, &tlv(INTEGER, &[3]))); // kvno
    enc_part.extend(field(2, &tlv(OCTET_STRING, &cipher)));
    request(service, realm, &enc_part)
}

fn token(service: &[&str], realm: &str, key: &[u8], sealed: &[u8]) -> String {
    STANDARD.encode(ap_req(service, realm, key, sealed))
}

fn sealed_for(client: &[&str], start: i64, end: i64) -> Vec<u8> {
    enc_ticket_part(REALM, client, start, end)
}

fn holding_the_key() -> Verifier {
    Verifier::new(vec![KeyEntry::new(PRINCIPAL, Some(3), KEY.to_vec())]).with_clock(|| NOW)
}

fn presented(token: &str) -> Presented {
    Presented::passed(Mechanism::kerberos(), PRINCIPAL).with_proof(AP_REQ_PROOF, token)
}

/// A ticket that is good for an hour either way.
fn good_token() -> String {
    token(
        SERVICE,
        REALM,
        &KEY,
        &sealed_for(&["alice"], NOW - 3_600, NOW + 3_600),
    )
}

fn part(start: i64, end: i64) -> EncTicketPart {
    EncTicketPart {
        client_realm: REALM.to_string(),
        client: vec!["alice".to_string()],
        start,
        end,
    }
}

#[test]
fn a_ticket_sealed_under_the_service_key_is_proven_and_yields_the_client() {
    let sealed = sealed_for(&["alice"], NOW - 3_600, NOW + 3_600);
    let claim = presented(&token(SERVICE, REALM, &KEY, &sealed));

    let verified = holding_the_key().verify(&claim).expect("proven");
    let client = holding_the_key().client_of(&claim).expect("a client");

    assert_eq!(verified, Verified::Proven);
    assert_eq!(client, "alice@EXAMPLE.COM");
}

#[test]
fn a_ticket_sealed_under_another_key_fails_its_checksum() {
    let sealed = sealed_for(&["alice"], NOW - 3_600, NOW + 3_600);
    let claim = presented(&token(SERVICE, REALM, &[1u8; 32], &sealed));

    let failure = holding_the_key().verify(&claim).expect_err("refused");

    assert!(failure.message.contains("checksum does not match"));
}

#[test]
fn a_ticket_the_node_holds_no_key_for_is_refused_by_the_principal() {
    let sealed = sealed_for(&["alice"], NOW - 3_600, NOW + 3_600);
    let other = ["HTTP", "other.example"];
    let claim = Presented::passed(Mechanism::kerberos(), "HTTP/other.example@EXAMPLE.COM")
        .with_proof(AP_REQ_PROOF, &token(&other, REALM, &KEY, &sealed));

    let failure = holding_the_key().verify(&claim).expect_err("refused");

    assert!(failure
        .message
        .contains("holds no key for 'HTTP/other.example@EXAMPLE.COM'"));
}

#[test]
fn an_expired_ticket_is_refused_by_its_window() {
    let sealed = sealed_for(&["alice"], NOW - 86_400, NOW - 3_600);
    let claim = presented(&token(SERVICE, REALM, &KEY, &sealed));

    let failure = holding_the_key().verify(&claim).expect_err("refused");

    assert!(failure.message.contains("expired at"));
}

#[test]
fn a_ticket_not_yet_valid_is_refused_by_its_window() {
    let sealed = sealed_for(&["alice"], NOW + 3_600, NOW + 86_400);
    let claim = presented(&token(SERVICE, REALM, &KEY, &sealed));

    let failure = holding_the_key().verify(&claim).expect_err("refused");

    assert!(failure.message.contains("not valid before"));
}

#[test]
fn a_ticket_whose_service_is_not_the_claim_is_refused() {
    let sealed = sealed_for(&["alice"], NOW - 3_600, NOW + 3_600);
    let claim = Presented::passed(Mechanism::kerberos(), "HTTP/wrong.example@EXAMPLE.COM")
        .with_proof(AP_REQ_PROOF, &token(SERVICE, REALM, &KEY, &sealed));

    let failure = holding_the_key().verify(&claim).expect_err("refused");

    assert!(failure.message.contains("the claim is"));
}

#[test]
fn a_password_derived_keytab_opens_a_ticket_sealed_under_the_same_key() {
    let entry = KeyEntry::from_password(PRINCIPAL, Some(3), b"s3cret", b"EXAMPLE.COMHTTP", 4096)
        .expect("a key");
    let base_key = crypto::string_to_key(b"s3cret", b"EXAMPLE.COMHTTP", 4096).expect("a key");
    let sealed = sealed_for(&["bob"], NOW - 3_600, NOW + 3_600);
    let claim = presented(&token(SERVICE, REALM, &base_key, &sealed));
    let node = Verifier::new(vec![entry]).with_clock(|| NOW);

    assert_eq!(node.verify(&claim).expect("proven"), Verified::Proven);
    assert_eq!(node.client_of(&claim).expect("a client"), "bob@EXAMPLE.COM");
}

#[test]
fn another_mechanism_and_a_missing_proof_are_each_refused_by_name() {
    let other = Presented::passed(Mechanism::new("ntlm"), PRINCIPAL);
    let bare = Presented::passed(Mechanism::kerberos(), PRINCIPAL);

    assert!(holding_the_key()
        .verify(&other)
        .expect_err("refused")
        .message
        .contains("'ntlm' was presented"));
    assert!(holding_the_key()
        .verify(&bare)
        .expect_err("refused")
        .message
        .contains("kerberos.ap-req"));
}

#[test]
fn what_refuses_the_proof_refuses_the_client_in_the_same_words() {
    let refusals = [
        (
            Presented::passed(Mechanism::new("ntlm"), PRINCIPAL),
            "'ntlm' was presented and this authenticator verifies kerberos".to_string(),
        ),
        (
            Presented::passed(Mechanism::kerberos(), PRINCIPAL),
            "no kerberos.ap-req proof was presented".to_string(),
        ),
        (
            presented("this is not base64"),
            "the AP-REQ is not base64".to_string(),
        ),
        (
            presented(&STANDARD.encode(b"NTLMSSP\0")),
            "the Negotiate token carries no Kerberos ticket".to_string(),
        ),
        (
            Presented::passed(Mechanism::kerberos(), "HTTP/wrong.example@EXAMPLE.COM")
                .with_proof(AP_REQ_PROOF, &good_token()),
            format!(
                "the ticket is for '{PRINCIPAL}' and the claim is \
                 'HTTP/wrong.example@EXAMPLE.COM'"
            ),
        ),
        (
            presented(&token(
                SERVICE,
                REALM,
                &KEY,
                &sealed_for(&["alice"], NOW - 86_400, NOW - 3_600),
            )),
            format!("the ticket expired at {} and it is {NOW}", NOW - 3_600),
        ),
        (
            presented(&token(
                SERVICE,
                REALM,
                &KEY,
                &sealed_for(&["alice"], NOW + 3_600, NOW + 86_400),
            )),
            format!("the ticket is not valid before {} and it is {NOW}", NOW + 3_600),
        ),
    ];
    for (claim, why) in &refusals {
        assert_eq!(holding_the_key().verify(claim).expect_err("refused").message, *why);
        assert_eq!(holding_the_key().client_of(claim).expect_err("refused").message, *why);
    }
}

#[test]
fn another_encryption_type_is_refused_by_its_number() {
    let mut enc_part = field(0, &tlv(INTEGER, &[23]));
    enc_part.extend(field(2, &tlv(OCTET_STRING, &[0; 40])));
    let claim = presented(&STANDARD.encode(request(SERVICE, REALM, &enc_part)));

    assert_eq!(
        holding_the_key().verify(&claim).expect_err("refused").message,
        "the ticket's encryption type is 23 and this node decrypts aes256-cts-hmac-sha1-96 (18) only"
    );
}

#[test]
fn a_key_is_found_by_principal_and_version() {
    let claim = presented(&good_token());
    let opens = |entries: Vec<KeyEntry>| {
        Verifier::new(entries)
            .with_clock(|| NOW)
            .client_of(&claim)
            .map_err(|error| error.message)
    };

    // The ticket names version 3.
    assert_eq!(
        opens(vec![KeyEntry::new(PRINCIPAL, None, KEY.to_vec())]),
        Ok("alice@EXAMPLE.COM".to_string())
    );
    assert_eq!(
        opens(vec![
            KeyEntry::new(PRINCIPAL, Some(2), vec![1; 32]),
            KeyEntry::new("HTTP/other@EXAMPLE.COM", Some(3), vec![2; 32]),
            KeyEntry::new(PRINCIPAL, Some(3), KEY.to_vec()),
            KeyEntry::new(PRINCIPAL, Some(3), vec![3; 32]),
        ]),
        Ok("alice@EXAMPLE.COM".to_string())
    );
    assert_eq!(
        opens(vec![KeyEntry::new(PRINCIPAL, Some(2), KEY.to_vec())]),
        Err(format!(
            "the node's keytab holds no key for '{PRINCIPAL}' at version Some(3)"
        ))
    );
    // The first that is for the ticket is the one tried.
    assert!(opens(vec![
        KeyEntry::new(PRINCIPAL, None, vec![1; 32]),
        KeyEntry::new(PRINCIPAL, Some(3), KEY.to_vec()),
    ])
    .expect_err("refused")
    .contains("checksum does not match"));
    assert!(opens(vec![]).is_err());
}

#[test]
fn a_ticket_that_names_no_version_is_opened_by_a_key_that_names_none() {
    let sealed = sealed_for(&["alice"], NOW - 3_600, NOW + 3_600);
    let mut enc_part = field(0, &tlv(INTEGER, &[18]));
    enc_part.extend(field(
        2,
        &tlv(
            OCTET_STRING,
            &encrypt(&KEY, TICKET_KEY_USAGE, [9; 16], &sealed).expect("a key"),
        ),
    ));
    let claim = presented(&STANDARD.encode(request(SERVICE, REALM, &enc_part)));

    let node =
        Verifier::new(vec![KeyEntry::new(PRINCIPAL, None, KEY.to_vec())]).with_clock(|| NOW);

    assert_eq!(node.client_of(&claim).expect("a client"), "alice@EXAMPLE.COM");
    assert_eq!(
        holding_the_key().client_of(&claim).expect_err("refused").message,
        format!("the node's keytab holds no key for '{PRINCIPAL}' at version None")
    );
}

#[test]
fn white_space_round_the_proof_is_passed_over() {
    let claim = presented(&format!(" \t\r\n\u{a0}{}\u{2003}\n", good_token()));

    assert_eq!(
        holding_the_key().client_of(&claim).expect("a client"),
        "alice@EXAMPLE.COM"
    );
}

#[test]
fn white_space_inside_the_proof_is_not_base64() {
    let mut broken = good_token();
    broken.insert(8, '\n');

    assert_eq!(
        holding_the_key().verify(&presented(&broken)).expect_err("refused").message,
        "the AP-REQ is not base64"
    );
}

#[test]
fn base64_without_its_padding_is_refused() {
    for short in ["YWI", "YWI=="] {
        assert_eq!(
            Verifier::ticket_of(&presented(short)).expect_err("refused").message,
            "the AP-REQ is not base64"
        );
    }
}

#[test]
fn the_first_proof_under_a_name_is_the_one_read() {
    let claim = Presented::passed(Mechanism::kerberos(), PRINCIPAL)
        .with_proof("kerberos.other", "?")
        .with_proof(AP_REQ_PROOF, &good_token())
        .with_proof(AP_REQ_PROOF, "?");

    assert!(holding_the_key().verify(&claim).is_ok());
    assert_eq!(claim.proof_named("kerberos.other"), Some("?"));
    assert_eq!(claim.proof_named("kerberos"), None);
    assert_eq!(claim.mechanism().name(), "kerberos");
    assert_eq!(claim.value().as_str(), PRINCIPAL);
}

#[test]
fn the_presented_ticket_is_what_its_token_says() {
    let bytes = ap_req(SERVICE, REALM, &KEY, b"sealed");

    let said = Verifier::ticket_of(&presented(&STANDARD.encode(&bytes))).expect("a ticket");

    assert_eq!(said, Ticket::parse(&bytes).expect("a ticket"));
    assert_eq!(said, Verifier::ticket_of_token(&bytes).expect("a ticket"));
    assert_eq!(
        Verifier::ticket_of_token(b"NTLMSSP\0").expect_err("refused").message,
        "the Negotiate token carries no Kerberos ticket"
    );
}

#[test]
fn an_opened_ticket_is_what_was_sealed() {
    let sealed = sealed_for(&["alice", "admin"], NOW - 3_600, NOW + 3_600);
    let opened = holding_the_key()
        .open(&presented(&token(SERVICE, REALM, &KEY, &sealed)))
        .expect("opened");

    assert_eq!(opened, EncTicketPart::parse(&sealed).expect("a part"));
    assert_eq!(opened.client_principal(), "alice/admin@EXAMPLE.COM");
}

#[test]
fn a_sealed_part_that_is_no_part_is_refused() {
    let claim = presented(&token(SERVICE, REALM, &KEY, b"not DER at all"));

    assert!(holding_the_key().verify(&claim).is_err());
}

#[test]
fn the_leeway_is_five_minutes_unless_another_is_given() {
    let window = part(NOW - 3_600, NOW + 3_600);
    let node = holding_the_key();

    assert!(node.within_window(&window, NOW - 3_600 - 300).is_ok());
    assert!(node.within_window(&window, NOW - 3_600 - 301).is_err());
    assert!(node.within_window(&window, NOW + 3_600 + 300).is_ok());
    assert!(node.within_window(&window, NOW + 3_600 + 301).is_err());

    let strict = holding_the_key().with_leeway(0);
    assert!(strict.within_window(&window, NOW - 3_600).is_ok());
    assert!(strict.within_window(&window, NOW - 3_601).is_err());
    assert!(strict.within_window(&window, NOW + 3_600).is_ok());
    assert!(strict.within_window(&window, NOW + 3_601).is_err());
}

#[test]
fn a_leeway_that_would_overflow_is_kept_to_what_a_time_holds() {
    let node = holding_the_key().with_leeway(i64::MAX);

    assert!(node.within_window(&part(i64::MAX, i64::MAX), i64::MAX).is_ok());
    assert!(node.within_window(&part(i64::MIN, i64::MIN), i64::MIN).is_ok());
    assert!(node.within_window(&part(0, 0), i64::MAX).is_ok());
    assert!(node.within_window(&part(0, 0), 1).is_ok());
    assert!(holding_the_key()
        .with_leeway(-10)
        .within_window(&part(0, 100), 5)
        .is_err());
}

#[test]
fn the_window_is_told_in_seconds() {
    let node = holding_the_key().with_leeway(0);

    assert_eq!(
        node.within_window(&part(10, 20), -5).expect_err("refused").message,
        "the ticket is not valid before 10 and it is -5"
    );
    assert_eq!(
        node.within_window(&part(-20, -10), 0).expect_err("refused").message,
        "the ticket expired at -10 and it is 0"
    );
    assert_eq!(
        node.within_window(&part(i64::MIN, i64::MIN), i64::MAX)
            .expect_err("refused")
            .message,
        "the ticket expired at -9223372036854775808 and it is 9223372036854775807"
    );
}

#[test]
fn an_opened_ticket_is_judged_at_the_time_it_is_judged() {
    let node = holding_the_key().with_leeway(0);
    let window = part(10, 20);

    assert_eq!(node.verify_at_time(&window, 10).expect("proven"), Verified::Proven);
    assert_eq!(
        node.client_at_time(&window, 20).expect("a client"),
        "alice@EXAMPLE.COM"
    );
    assert!(node.verify_at_time(&window, 21).is_err());
    assert!(node.client_at_time(&window, 9).is_err());
}

#[test]
fn the_clock_is_the_one_given_last() {
    let claim = presented(&good_token());

    assert!(holding_the_key().with_clock(|| NOW + 86_400).verify(&claim).is_err());
    assert!(holding_the_key()
        .with_clock(|| NOW + 86_400)
        .with_clock(|| NOW)
        .verify(&claim)
        .is_ok());
}

#[test]
fn the_mechanism_is_kerberos() {
    assert_eq!(holding_the_key().mechanism().name(), "kerberos");
    assert_eq!(holding_the_key().mechanism(), Mechanism::kerberos());
}

#[test]
fn the_system_clock_counts_from_the_epoch() {
    let before = now();
    // 2020-01-01T00:00:00Z, which any clock that runs these is past.
    assert!(before > 1_577_836_800);
    let since = std::time::SystemTime::now()
        .duration_since(std::time::UNIX_EPOCH)
        .expect("after the epoch")
        .as_secs() as i64;
    assert!(before <= since && since <= now());
}

#[test]
fn a_time_before_the_epoch_is_zero_and_one_too_late_the_last() {
    assert_eq!(seconds_after_epoch(None), 0);
    assert_eq!(seconds_after_epoch(Some(1_800_000_000)), NOW);
    assert_eq!(seconds_after_epoch(Some(u64::MAX)), i64::MAX);
}

#[test]
fn a_key_entry_opens_its_principal_at_its_version() {
    let principal = PRINCIPAL.to_string();
    let other = "HTTP/other@EXAMPLE.COM".to_string();
    let any = KeyEntry::new(PRINCIPAL, None, KEY.to_vec());
    let third = KeyEntry::new(PRINCIPAL, Some(3), KEY.to_vec());

    assert!(any.opens(&principal, None) && any.opens(&principal, Some(9)));
    assert!(third.opens(&principal, Some(3)));
    assert!(!third.opens(&principal, Some(4)) && !third.opens(&principal, None));
    assert!(!any.opens(&other, None) && !third.opens(&other, Some(3)));
    assert_eq!(third.base_key(), &KEY[..]);
}

#[test]
fn a_key_that_is_not_thirty_two_bytes_opens_nothing() {
    let claim = presented(&good_token());
    let node = Verifier::new(vec![KeyEntry::new(PRINCIPAL, Some(3), vec![7; 16])])
        .with_clock(|| NOW);

    assert_eq!(
        node.verify(&claim).expect_err("refused").message,
        crypto::cipher(&[7; 16]).err().expect("refused").message
    );
}

#[test]
fn a_ticket_of_too_short_a_cipher_is_refused() {
    let mut enc_part = field(0, &tlv(INTEGER, &[18]));
    enc_part.extend(field(1, &tlv(INTEGER, &[3])));
    enc_part.extend(field(2, &tlv(OCTET_STRING, &[0; 27])));
    let claim = presented(&STANDARD.encode(request(SERVICE, REALM, &enc_part)));

    assert!(holding_the_key().verify(&claim).is_err());
}

#[test]
fn a_slash_inside_a_component_leaves_the_principal_as_it_is() {
    let sealed = sealed_for(&["alice/admin"], NOW - 3_600, NOW + 3_600);
    let claim = presented(&token(&["HTTP/xmip.example"], REALM, &KEY, &sealed));

    assert_eq!(
        holding_the_key().client_of(&claim).expect("a client"),
        "alice/admin@EXAMPLE.COM"
    );
    assert_eq!(
        holding_the_key().open(&claim).expect("opened").client,
        ["alice", "admin"]
    );
}
