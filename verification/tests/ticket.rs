use authenticate_kerberos::crypto::{encrypt, TICKET_KEY_USAGE};
use authenticate_kerberos::der::{
    application, context, GENERALIZED_TIME, GENERAL_STRING, INTEGER, OCTET_STRING, OID, SEQUENCE,
};
use authenticate_kerberos::ticket::{unwrap_token, EncTicketPart, Unwrapped};
use authenticate_kerberos::Ticket;

const SPNEGO: &[u8] = &[0x2b, 0x06, 0x01, 0x05, 0x05, 0x02];
const KERBEROS: &[u8] = &[0x2a, 0x86, 0x48, 0x86, 0xf7, 0x12, 0x01, 0x02, 0x02];
const KERBEROS_LEGACY: &[u8] = &[0x2a, 0x86, 0x48, 0x82, 0xf7, 0x12, 0x01, 0x02, 0x02];

/// `content` under `tag`, with the shortest length octets.
fn tlv(tag: u8, content: &[u8]) -> Vec<u8> {
    let mut bytes = vec![tag];
    let length = content.len();
    if length < 0x80 {
        bytes.push(length as u8);
    } else {
        let octets: Vec<u8> = length
            .to_be_bytes()
            .iter()
            .copied()
            .skip_while(|octet| *octet == 0)
            .collect();
        bytes.push(0x80 + octets.len() as u8);
        bytes.extend(octets);
    }
    bytes.extend_from_slice(content);
    bytes
}

/// `[number]` around `inner`.
fn field(number: u8, inner: &[u8]) -> Vec<u8> {
    tlv(context(number), inner)
}

/// A `PrincipalName` of these components.
fn name(components: &[&str]) -> Vec<u8> {
    let strings: Vec<u8> = components
        .iter()
        .flat_map(|component| tlv(GENERAL_STRING, component.as_bytes()))
        .collect();
    let mut fields = field(0, &tlv(INTEGER, &[1]));
    fields.extend(field(1, &tlv(SEQUENCE, &strings)));
    tlv(SEQUENCE, &fields)
}

/// `YYYYMMDDHHMMSSZ` for a Unix time; the tests use whole minutes.
fn kerberos_time(seconds: i64) -> Vec<u8> {
    // 2027-01-15T08:00:00Z is 1_800_000_000; the tests offset from there.
    let table = [
        (1_800_000_000i64, "20270115080000Z"),
        (1_800_000_000 - 3_600, "20270115070000Z"),
        (1_800_000_000 + 3_600, "20270115090000Z"),
        (1_800_000_000 - 86_400, "20270114080000Z"),
        (1_800_000_000 + 86_400, "20270116080000Z"),
    ];
    let text = table
        .iter()
        .find(|(at, _)| *at == seconds)
        .map(|(_, text)| *text)
        .expect("a tabulated time");
    tlv(GENERALIZED_TIME, text.as_bytes())
}

/// A sealed `EncTicketPart` for a client valid over `[start, end]`.
fn enc_ticket_part(realm: &str, client: &[&str], start: i64, end: i64) -> Vec<u8> {
    let mut fields = field(0, &tlv(0x03, &[0, 0, 0, 0, 0])); // flags, BIT STRING
    fields.extend(field(1, &tlv(SEQUENCE, &[]))); // key, elided shape
    fields.extend(field(2, &tlv(GENERAL_STRING, realm.as_bytes())));
    fields.extend(field(3, &name(client)));
    fields.extend(field(4, &tlv(SEQUENCE, &[]))); // transited
    fields.extend(field(5, &kerberos_time(start))); // authtime
    fields.extend(field(7, &kerberos_time(end))); // endtime
    tlv(application(3), &tlv(SEQUENCE, &fields))
}

/// A bare AP-REQ whose ticket is for `service@realm`, with this sealed part.
fn request(service: &[&str], realm: &str, enc_part: &[u8]) -> Vec<u8> {
    let mut ticket = field(0, &tlv(INTEGER, &[5]));
    ticket.extend(field(1, &tlv(GENERAL_STRING, realm.as_bytes())));
    ticket.extend(field(2, &name(service)));
    ticket.extend(field(3, &tlv(SEQUENCE, enc_part)));
    let ticket = tlv(application(1), &tlv(SEQUENCE, &ticket));
    let mut request = field(0, &tlv(INTEGER, &[5]));
    request.extend(field(1, &tlv(INTEGER, &[14]))); // msg-type
    request.extend(field(2, &tlv(0x03, &[0, 0, 0, 0, 0]))); // ap-options
    request.extend(field(3, &ticket));
    request.extend(field(4, &tlv(SEQUENCE, &[]))); // authenticator, sealed elsewhere
    tlv(application(14), &tlv(SEQUENCE, &request))
}

/// A bare AP-REQ whose ticket is for `service@realm`, sealed under `key`.
fn ap_req(service: &[&str], realm: &str, key: &[u8], sealed: &[u8]) -> Vec<u8> {
    let cipher = encrypt(key, TICKET_KEY_USAGE, [5u8; 16], sealed).expect("a key");
    let mut enc_part = field(0, &tlv(INTEGER, &[18]));
    enc_part.extend(field(1, &tlv(INTEGER, &[3]))); // kvno
    enc_part.extend(field(2, &tlv(OCTET_STRING, &cipher)));
    request(service, realm, &enc_part)
}

fn some_request() -> Vec<u8> {
    ap_req(&["HTTP", "xmip.example"], "EXAMPLE.COM", &[7u8; 32], b"sealed")
}

/// A GSS-API token of a mechanism.
fn gss(mechanism: &[u8], inner: &[u8]) -> Vec<u8> {
    let mut content = tlv(OID, mechanism);
    content.extend_from_slice(inner);
    tlv(application(0), &content)
}

/// A GSS-API token of Kerberos with an AP-REQ in it.
fn kerberos_token(mechanism: &[u8], message: &[u8]) -> Vec<u8> {
    let mut inner = vec![0x01, 0x00];
    inner.extend_from_slice(message);
    gss(mechanism, &inner)
}

/// A SPNEGO message with a mechanism token in it.
fn negotiation(token: &[u8]) -> Vec<u8> {
    tlv(SEQUENCE, &field(2, &tlv(OCTET_STRING, token)))
}

fn init(token: &[u8]) -> Vec<u8> {
    gss(SPNEGO, &field(0, &negotiation(token)))
}

fn response(token: &[u8]) -> Vec<u8> {
    field(1, &negotiation(token))
}

/// What a ticket of these fields is refused for.
fn refused_ticket(fields: &[u8]) -> String {
    let ticket = tlv(application(1), &tlv(SEQUENCE, fields));
    let mut request = field(0, &tlv(INTEGER, &[5]));
    request.extend(field(1, &tlv(INTEGER, &[14])));
    request.extend(field(3, &ticket));
    refused_request(&request)
}

/// What an AP-REQ of these fields is refused for.
fn refused_request(fields: &[u8]) -> String {
    Ticket::parse(&tlv(application(14), &tlv(SEQUENCE, fields)))
        .expect_err("refused")
        .message
}

/// What an `EncTicketPart` of these fields is refused for.
fn refused_part(fields: &[u8]) -> String {
    EncTicketPart::parse(&tlv(application(3), &tlv(SEQUENCE, fields)))
        .expect_err("refused")
        .message
}

#[test]
fn a_bare_ap_req_reads_its_service_realm_etype_kvno_and_cipher() {
    let request = ap_req(
        &["HTTP", "xmip.example"],
        "EXAMPLE.COM",
        &[7u8; 32],
        b"sealed",
    );

    let ticket = Ticket::from_negotiate(&request)
        .expect("read")
        .expect("a ticket");

    assert_eq!(ticket.service_principal(), "HTTP/xmip.example@EXAMPLE.COM");
    assert_eq!(ticket.encryption_type, 18);
    assert_eq!(ticket.key_version, Some(3));
    assert!(!ticket.cipher.is_empty());
}

#[test]
fn an_ntlm_message_under_negotiate_is_not_a_kerberos_ticket() {
    let mut token = b"NTLMSSP\0".to_vec();
    token.extend_from_slice(&3u32.to_le_bytes());

    assert_eq!(Ticket::from_negotiate(&token).expect("read"), None);
}

#[test]
fn ticket_a_decrypted_enc_ticket_part_reads_the_client_and_the_window() {
    let sealed = enc_ticket_part(
        "EXAMPLE.COM",
        &["alice"],
        1_800_000_000 - 3_600,
        1_800_000_000 + 3_600,
    );

    let part = EncTicketPart::parse(&sealed).expect("read");

    assert_eq!(part.client_principal(), "alice@EXAMPLE.COM");
    assert_eq!(part.start, 1_800_000_000 - 3_600);
    assert_eq!(part.end, 1_800_000_000 + 3_600);
}

#[test]
fn a_token_that_is_neither_gss_nor_an_ap_req_is_refused_by_its_tag() {
    let failure = Ticket::from_negotiate(&tlv(SEQUENCE, &[1, 2, 3])).expect_err("refused");

    assert!(failure.message.contains("neither GSS-API"));
}

#[test]
fn enc_ticket_part_a_decrypted_enc_ticket_part_reads_the_client_and_the_window() {
    let sealed = enc_ticket_part(
        "EXAMPLE.COM",
        &["alice"],
        1_800_000_000 - 3_600,
        1_800_000_000 + 3_600,
    );

    let part = authenticate_kerberos::enc_ticket_part::EncTicketPart::parse(&sealed)
        .expect("read");

    assert_eq!(part.client_principal(), "alice@EXAMPLE.COM");
    assert_eq!(part.start, 1_800_000_000 - 3_600);
    assert_eq!(part.end, 1_800_000_000 + 3_600);
}

#[test]
fn a_part_missing_its_client_name_is_refused_naming_it() {
    let part = tlv(
        application(3),
        &tlv(SEQUENCE, &field(2, &tlv(GENERAL_STRING, b"EXAMPLE.COM"))),
    );

    let failure = EncTicketPart::parse(&part).expect_err("refused");

    assert!(
        failure.message.contains("has no client name"),
        "{}",
        failure.message
    );
}

#[test]
fn a_ticket_is_read_whole() {
    let mut enc_part = field(0, &tlv(INTEGER, &[23]));
    enc_part.extend(field(2, &tlv(OCTET_STRING, &[1, 2, 3])));

    let ticket = Ticket::parse(&request(&["krbtgt", "EXAMPLE.COM"], "OTHER", &enc_part))
        .expect("a ticket");

    assert_eq!(
        ticket,
        Ticket {
            service: vec!["krbtgt".to_string(), "EXAMPLE.COM".to_string()],
            realm: "OTHER".to_string(),
            encryption_type: 23,
            key_version: None,
            cipher: vec![1, 2, 3],
        }
    );
    assert_eq!(ticket.service_principal(), "krbtgt/EXAMPLE.COM@OTHER");
}

#[test]
fn a_key_version_that_is_not_read_is_none() {
    let mut enc_part = field(0, &tlv(INTEGER, &[18]));
    enc_part.extend(field(1, &tlv(INTEGER, &[0xff])));
    enc_part.extend(field(2, &tlv(OCTET_STRING, &[1])));

    let ticket = Ticket::parse(&request(&["HTTP"], "R", &enc_part)).expect("a ticket");

    assert_eq!(ticket.key_version, None);
}

#[test]
fn a_slash_inside_a_component_cuts_it_in_two() {
    let mut enc_part = field(0, &tlv(INTEGER, &[18]));
    enc_part.extend(field(2, &tlv(OCTET_STRING, &[1])));

    let ticket = Ticket::parse(&request(&["HTTP/a", "b"], "R", &enc_part)).expect("a ticket");

    assert_eq!(ticket.service, ["HTTP", "a", "b"]);
    assert_eq!(ticket.service_principal(), "HTTP/a/b@R");
}

#[test]
fn every_wrapping_reaches_the_same_ticket() {
    let message = some_request();
    let bare = Ticket::parse(&message).expect("a ticket");

    for token in [
        message.clone(),
        kerberos_token(KERBEROS, &message),
        kerberos_token(KERBEROS_LEGACY, &message),
        init(&message),
        init(&kerberos_token(KERBEROS, &message)),
        response(&kerberos_token(KERBEROS, &message)),
        init(&response(&init(&kerberos_token(KERBEROS_LEGACY, &message)))),
    ] {
        let ticket = Ticket::from_negotiate(&token)
            .expect("read")
            .expect("a ticket");
        assert_eq!(ticket, bare);
    }
}

#[test]
fn one_wrapping_is_taken_off_at_a_time() {
    let message = some_request();
    let token = kerberos_token(KERBEROS, &message);

    assert!(matches!(
        unwrap_token(&token),
        Ok(Unwrapped::Request { message: inside }) if inside == &message[..]
    ));
    assert!(matches!(
        unwrap_token(&init(&token)),
        Ok(Unwrapped::Token { token: inside }) if inside == &token[..]
    ));
    assert!(matches!(
        unwrap_token(b"NTLMSSP\0"),
        Ok(Unwrapped::Foreign)
    ));
}

#[test]
fn a_negotiation_without_a_token_carries_no_ticket() {
    let empty = tlv(SEQUENCE, &field(0, &tlv(SEQUENCE, &[])));

    assert_eq!(
        Ticket::from_negotiate(&field(1, &empty)).expect("read"),
        None
    );
    assert_eq!(
        Ticket::from_negotiate(&gss(SPNEGO, &field(0, &empty))).expect("read"),
        None
    );
    assert_eq!(
        Ticket::from_negotiate(&init(b"NTLMSSP\0\x01")).expect("read"),
        None
    );
}

#[test]
fn tokens_that_are_not_unwrapped_are_each_refused_by_why() {
    let refused = |token: &[u8]| {
        Ticket::from_negotiate(token)
            .expect_err("refused")
            .message
    };

    assert_eq!(
        refused(&tlv(SEQUENCE, &[1, 2, 3])),
        "the Negotiate token starts with tag 0x30, which is neither GSS-API, SPNEGO nor an AP-REQ"
    );
    assert_eq!(
        refused(&tlv(0x04, &[])),
        "the Negotiate token starts with tag 0x04, which is neither GSS-API, SPNEGO nor an AP-REQ"
    );
    assert_eq!(
        refused(&tlv(application(0), &tlv(INTEGER, &[1]))),
        "the GSS-API token does not start with a mechanism OID"
    );
    assert_eq!(
        refused(&gss(&[0x2a, 0x03], &[])),
        "the GSS-API token names a mechanism that is neither SPNEGO nor Kerberos"
    );
    for inner in [&[0x02, 0x00, 0x6e][..], &[0x01][..], &[][..]] {
        assert_eq!(
            refused(&gss(KERBEROS, inner)),
            "the Kerberos token is not an AP-REQ: its token id is not 01 00"
        );
    }
    assert_eq!(
        refused(&field(1, &tlv(SEQUENCE, &field(2, &tlv(INTEGER, &[1]))))),
        "the SPNEGO mechanism token is not an OCTET STRING"
    );
    assert!(refused(&gss(SPNEGO, &field(1, &[]))).contains("a NegTokenInit"));
    assert!(refused(&gss(SPNEGO, &field(0, &tlv(INTEGER, &[1])))).contains("a NegTokenInit"));
    assert!(refused(&field(1, &tlv(INTEGER, &[1]))).contains("a NegTokenResp"));
    assert!(Ticket::from_negotiate(&[]).is_err());
}

#[test]
fn an_ap_req_of_another_version_or_type_is_refused() {
    let refused = "the AP-REQ is not Kerberos 5 message type 14";
    let mut other_version = field(0, &tlv(INTEGER, &[4]));
    other_version.extend(field(1, &tlv(INTEGER, &[14])));
    let mut other_kind = field(0, &tlv(INTEGER, &[5]));
    other_kind.extend(field(1, &tlv(INTEGER, &[13])));
    let mut no_number = field(0, &tlv(OCTET_STRING, &[5]));
    no_number.extend(field(1, &tlv(INTEGER, &[14])));

    assert_eq!(refused_request(&[]), refused);
    assert_eq!(refused_request(&other_version), refused);
    assert_eq!(refused_request(&other_kind), refused);
    assert_eq!(refused_request(&no_number), refused);
    assert!(Ticket::parse(&tlv(application(15), &[]))
        .expect_err("refused")
        .message
        .contains("an AP-REQ"));
    assert!(Ticket::parse(&tlv(application(14), &tlv(INTEGER, &[1])))
        .expect_err("refused")
        .message
        .contains("an AP-REQ"));
}

#[test]
fn an_ap_req_whose_ticket_is_missing_or_no_ticket_is_refused() {
    let mut fields = field(0, &tlv(INTEGER, &[5]));
    fields.extend(field(1, &tlv(INTEGER, &[14])));
    assert_eq!(
        refused_request(&fields),
        "the Kerberos message has no ticket"
    );

    let mut other = fields.clone();
    other.extend(field(3, &tlv(application(2), &[])));
    assert_eq!(
        refused_request(&other),
        "the AP-REQ's ticket is not a Ticket"
    );

    let mut hollow = fields;
    hollow.extend(field(3, &tlv(application(1), &tlv(INTEGER, &[1]))));
    assert!(refused_request(&hollow).contains("a Ticket"));
}

#[test]
fn a_ticket_that_lacks_something_is_refused_naming_it() {
    assert_eq!(
        refused_ticket(&[]),
        "the Kerberos message has no realm in its ticket"
    );

    let unreadable = "the ticket's realm is not readable";
    assert_eq!(
        refused_ticket(&field(1, &tlv(GENERAL_STRING, b""))),
        unreadable
    );
    assert_eq!(
        refused_ticket(&field(1, &tlv(GENERAL_STRING, &[0xff]))),
        unreadable
    );

    let mut fields = field(1, &tlv(GENERAL_STRING, b"EXAMPLE.COM"));
    assert_eq!(
        refused_ticket(&fields),
        "the Kerberos message has no service name in its ticket"
    );

    let mut nameless = fields.clone();
    nameless.extend(field(2, &name(&[])));
    assert_eq!(
        refused_ticket(&nameless),
        "a principal name in the ticket is not readable"
    );

    fields.extend(field(2, &name(&["HTTP"])));
    assert_eq!(
        refused_ticket(&fields),
        "the Kerberos message has no sealed part in its ticket"
    );

    let with_part = |enc_part: &[u8]| {
        let mut whole = fields.clone();
        whole.extend(field(3, &tlv(SEQUENCE, enc_part)));
        refused_ticket(&whole)
    };
    assert_eq!(
        with_part(&[]),
        "the Kerberos message has no encryption type on its ticket"
    );
    assert_eq!(
        with_part(&field(0, &tlv(INTEGER, &[0x80]))),
        "the ticket's encryption type is not read"
    );
    assert_eq!(
        with_part(&field(0, &tlv(INTEGER, &[18]))),
        "the Kerberos message has no cipher in its ticket"
    );
}

#[test]
fn a_starttime_comes_before_an_authtime() {
    let mut fields = field(2, &tlv(GENERAL_STRING, b"EXAMPLE.COM"));
    fields.extend(field(3, &name(&["alice", "admin"])));
    fields.extend(field(5, &kerberos_time(1_800_000_000)));
    fields.extend(field(6, &kerberos_time(1_800_000_000 + 3_600)));
    fields.extend(field(7, &kerberos_time(1_800_000_000 + 86_400)));

    let part = EncTicketPart::parse(&tlv(application(3), &tlv(SEQUENCE, &fields))).expect("read");

    assert_eq!(
        part,
        EncTicketPart {
            client_realm: "EXAMPLE.COM".to_string(),
            client: vec!["alice".to_string(), "admin".to_string()],
            start: 1_800_000_000 + 3_600,
            end: 1_800_000_000 + 86_400,
        }
    );
    assert_eq!(part.client_principal(), "alice/admin@EXAMPLE.COM");
}

#[test]
fn a_starttime_that_is_not_read_leaves_the_authtime() {
    let mut fields = field(2, &tlv(GENERAL_STRING, b""));
    fields.extend(field(3, &name(&["alice"])));
    fields.extend(field(5, &kerberos_time(1_800_000_000)));
    fields.extend(field(6, &tlv(GENERALIZED_TIME, b"20270230080000Z")));
    fields.extend(field(7, &kerberos_time(1_800_000_000 + 86_400)));

    let part = EncTicketPart::parse(&tlv(application(3), &tlv(SEQUENCE, &fields))).expect("read");

    assert_eq!(part.start, 1_800_000_000);
    assert_eq!(part.client_principal(), "alice@");
}

#[test]
fn a_part_that_lacks_something_is_refused_naming_it() {
    assert!(EncTicketPart::parse(&tlv(application(2), &[]))
        .expect_err("refused")
        .message
        .contains("an EncTicketPart"));
    assert!(EncTicketPart::parse(&tlv(application(3), &tlv(INTEGER, &[1])))
        .expect_err("refused")
        .message
        .contains("an EncTicketPart"));
    assert_eq!(
        refused_part(&[]),
        "the Kerberos message has no client realm"
    );
    assert_eq!(
        refused_part(&field(2, &tlv(INTEGER, &[1]))),
        "the ticket's client realm is not readable"
    );

    let mut fields = field(2, &tlv(GENERAL_STRING, b"EXAMPLE.COM"));
    let mut nameless = fields.clone();
    nameless.extend(field(3, &name(&[])));
    assert_eq!(
        refused_part(&nameless),
        "a principal name in the ticket is not readable"
    );

    fields.extend(field(3, &name(&["alice"])));
    assert_eq!(refused_part(&fields), "the Kerberos message has no authtime");

    let mut timeless = fields.clone();
    timeless.extend(field(5, &tlv(GENERALIZED_TIME, b"20270115080000")));
    assert_eq!(
        refused_part(&timeless),
        "the ticket's authtime is not a KerberosTime"
    );

    fields.extend(field(5, &kerberos_time(1_800_000_000)));
    assert_eq!(refused_part(&fields), "the Kerberos message has no endtime");

    fields.extend(field(7, &tlv(INTEGER, &[1])));
    assert_eq!(
        refused_part(&fields),
        "the ticket's endtime is not a KerberosTime"
    );
}
