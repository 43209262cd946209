use authenticate_kerberos::der::{
    application, context, principal, Element, Required, GENERALIZED_TIME, GENERAL_STRING, INTEGER,
    OCTET_STRING, OID, SEQUENCE,
};

/// `content` under `tag`, with the shortest length octets.
fn tlv(tag: u8, content: &[u8]) -> Vec<u8> {
    let mut bytes = vec![tag];
    let length = content.len();
    if length < 0x80 {
        bytes.push(length as u8);
    } else {
        let octets: Vec<u8> = length
            .to_be_bytes()
            .iter()
            .copied()
            .skip_while(|octet| *octet == 0)
            .collect();
        bytes.push(0x80 + octets.len() as u8);
        bytes.extend(octets);
    }
    bytes.extend_from_slice(content);
    bytes
}

/// `[number]` around `inner`.
fn field(number: u8, inner: &[u8]) -> Vec<u8> {
    tlv(context(number), inner)
}

/// A `PrincipalName` of these components.
fn name(components: &[&str]) -> Vec<u8> {
    let strings: Vec<u8> = components
        .iter()
        .flat_map(|component| tlv(GENERAL_STRING, component.as_bytes()))
        .collect();
    let mut fields = field(0, &tlv(INTEGER, &[1]));
    fields.extend(field(1, &tlv(SEQUENCE, &strings)));
    tlv(SEQUENCE, &fields)
}

fn integer(content: &[u8]) -> Option<u32> {
    Element { tag: INTEGER, content }.integer()
}

#[test]
fn a_principal_name_is_its_components_joined_by_a_slash() {
    let encoded = name(&["HTTP", "xmip.example"]);
    let (element, _) = Element::read(&encoded).expect("read");

    assert_eq!(principal(element).expect("a name"), "HTTP/xmip.example");
}

#[test]
fn a_missing_required_field_is_named() {
    let sequence = tlv(SEQUENCE, &field(0, &tlv(INTEGER, &[5])));
    let (element, _) = Element::read(&sequence).expect("read");

    let failure = element.required(3, "ticket").expect_err("missing");

    assert_eq!(
        element.required(0, "number").expect("there").integer(),
        Some(5)
    );
    assert!(failure.message.contains("no ticket"));
}

#[test]
fn a_missing_field_is_named_in_full() {
    let sequence = tlv(SEQUENCE, &[]);
    let (element, _) = Element::read(&sequence).expect("read");

    assert_eq!(
        element.required(1, "realm in its ticket").expect_err("missing").message,
        "the Kerberos message has no realm in its ticket"
    );
}

#[test]
fn tags_are_context_and_application_constructed() {
    assert_eq!(context(0), 0xa0);
    assert_eq!(context(7), 0xa7);
    assert_eq!(application(0), 0x60);
    assert_eq!(application(1), 0x61);
    assert_eq!(application(3), 0x63);
    assert_eq!(application(14), 0x6e);
    assert_eq!(
        (INTEGER, OCTET_STRING, OID, GENERALIZED_TIME, GENERAL_STRING, SEQUENCE),
        (0x02, 0x04, 0x06, 0x18, 0x1b, 0x30)
    );
}

#[test]
fn an_element_and_what_follows_it_are_read() {
    let (element, rest) = Element::read(&[0x04, 0x02, 9, 8, 7, 6]).expect("read");

    assert_eq!(element.tag, OCTET_STRING);
    assert_eq!(element.content, &[9u8, 8][..]);
    assert_eq!(rest, &[7u8, 6][..]);
}

#[test]
fn an_element_is_read_back_at_every_form_of_length() {
    for length in [0usize, 1, 127, 128, 255, 256, 65_535, 65_536, 70_000] {
        let content = vec![0x5a; length];
        let mut bytes = tlv(OCTET_STRING, &content);
        bytes.push(0xee);

        let (element, rest) = Element::read(&bytes).expect("read");

        assert_eq!(element.content, &content[..]);
        assert_eq!(rest, &[0xee][..]);
    }
}

#[test]
fn bytes_that_are_cut_short_are_refused() {
    for bytes in [
        &[][..],
        &[0x30][..],
        &[0x30, 0x01][..],
        &[0x30, 0x81][..],
        &[0x30, 0x81, 0x80, 1, 2][..],
        &[0x30, 0x82, 0x01][..],
    ] {
        assert!(Element::read(bytes).is_err());
    }
}

#[test]
fn lengths_that_are_not_the_shortest_and_definite_are_refused() {
    for bytes in [
        &[0x30, 0x80, 0, 0][..],
        &[0x30, 0x81, 0x01, 0][..],
        &[0x30, 0x81, 0x7f, 0][..],
        &[0x30, 0x82, 0x00, 0x80, 0][..],
        &[0x30, 0xff][..],
    ] {
        assert!(Element::read(bytes).is_err());
    }
}

#[test]
fn a_length_no_message_has_is_refused() {
    assert!(Element::read(&[0x30, 0x88, 0xff, 0xff, 0xff, 0xff, 0xff, 0xff, 0xff, 0xff]).is_err());
    assert!(
        Element::read(&[0x30, 0x89, 1, 0, 0, 0, 0, 0, 0, 0, 0]).is_err()
    );
}

#[test]
fn a_tag_of_several_bytes_is_refused() {
    assert!(Element::read(&[0x1f, 0x81, 0x01, 0x00]).is_err());
    assert!(Element::read(&[0x7f, 0x21, 0x00]).is_err());
}

#[test]
fn another_tag_than_expected_is_refused_by_what_was_expected() {
    let bytes = tlv(OCTET_STRING, &[1]);

    let failure = Element::expect(&bytes, SEQUENCE, "a Ticket").expect_err("refused");

    assert!(failure.message.contains("a Ticket"));
    assert_eq!(
        Element::expect(&bytes, OCTET_STRING, "a Ticket").expect("read").content,
        &[1u8][..]
    );
}

#[test]
fn children_are_read_in_order() {
    let mut content = tlv(INTEGER, &[1]);
    content.extend(tlv(OCTET_STRING, &[2, 3]));
    let bytes = tlv(SEQUENCE, &content);
    let (element, _) = Element::read(&bytes).expect("read");

    let children = element.children().expect("children");

    assert_eq!(children.len(), 2);
    assert_eq!((children[0].tag, children[0].content), (INTEGER, &[1u8][..]));
    assert_eq!(
        (children[1].tag, children[1].content),
        (OCTET_STRING, &[2u8, 3][..])
    );
}

#[test]
fn a_child_that_is_cut_short_refuses_every_field() {
    let mut content = field(0, &tlv(INTEGER, &[5]));
    content.extend_from_slice(&[0xa1, 0x05, 0]);
    let bytes = tlv(SEQUENCE, &content);
    let (element, _) = Element::read(&bytes).expect("read");

    assert!(element.children().is_err());
    assert!(element.field(0).is_err());
    assert!(element.required(0, "number").is_err());
}

#[test]
fn the_first_field_of_a_number_is_the_one_read() {
    let mut content = field(1, &tlv(INTEGER, &[4]));
    content.extend(field(2, &tlv(INTEGER, &[5])));
    content.extend(field(2, &tlv(INTEGER, &[6])));
    let bytes = tlv(SEQUENCE, &content);
    let (element, _) = Element::read(&bytes).expect("read");

    assert_eq!(
        element.field(2).expect("read").expect("there").integer(),
        Some(5)
    );
    assert!(element.field(3).expect("read").is_none());
}

#[test]
fn a_field_that_holds_nothing_is_refused() {
    let bytes = tlv(SEQUENCE, &field(0, &[]));
    let (element, _) = Element::read(&bytes).expect("read");

    assert!(element.field(0).is_err());
}

#[test]
fn integers_of_thirty_two_bits_are_read() {
    assert_eq!(integer(&[0]), Some(0));
    assert_eq!(integer(&[0x7f]), Some(127));
    assert_eq!(integer(&[0x00, 0x80]), Some(128));
    assert_eq!(integer(&[0x01, 0x00]), Some(256));
    assert_eq!(integer(&[0x7f, 0xff, 0xff, 0xff]), Some(0x7fff_ffff));
    assert_eq!(integer(&[0x00, 0xff, 0xff, 0xff, 0xff]), Some(u32::MAX));
}

#[test]
fn integers_that_are_negative_longer_or_not_shortest_are_not_read() {
    assert_eq!(integer(&[]), None);
    assert_eq!(integer(&[0x80]), None);
    assert_eq!(integer(&[0xff, 0xff]), None);
    assert_eq!(integer(&[0x00, 0x7f]), None);
    assert_eq!(integer(&[0x01, 0x00, 0x00, 0x00, 0x00]), None);
    assert_eq!(integer(&[0x00, 0x80, 0x00, 0x00, 0x00, 0x00]), None);
    assert_eq!(Element { tag: OCTET_STRING, content: &[5] }.integer(), None);
}

#[test]
fn a_text_is_a_general_string_of_utf8() {
    let word = "b\u{e4}r\u{20ac}";
    assert_eq!(
        Element { tag: GENERAL_STRING, content: word.as_bytes() }.text(),
        Some(word)
    );
    assert_eq!(Element { tag: GENERAL_STRING, content: &[] }.text(), Some(""));
    assert_eq!(Element { tag: GENERAL_STRING, content: &[0xc3, 0x28] }.text(), None);
    assert_eq!(Element { tag: GENERAL_STRING, content: &[0xed, 0xa0, 0x80] }.text(), None);
    assert_eq!(Element { tag: OCTET_STRING, content: b"word" }.text(), None);
}

#[test]
fn a_time_is_a_generalized_time() {
    assert_eq!(
        Element { tag: GENERALIZED_TIME, content: b"20270115080000Z" }.time(),
        Some(1_800_000_000)
    );
    assert_eq!(
        Element { tag: GENERAL_STRING, content: b"20270115080000Z" }.time(),
        None
    );
    assert_eq!(Element { tag: GENERALIZED_TIME, content: b"2027" }.time(), None);
}

#[test]
fn a_name_of_one_component_is_that_component() {
    let encoded = name(&["alice"]);
    let (element, _) = Element::read(&encoded).expect("read");

    assert_eq!(principal(element).expect("a name"), "alice");
}

#[test]
fn a_name_without_readable_components_is_refused() {
    let unreadable = "a principal name in the ticket is not readable";
    let mut one_is_not_text = field(0, &tlv(INTEGER, &[1]));
    let mut strings = tlv(GENERAL_STRING, b"HTTP");
    strings.extend(tlv(GENERAL_STRING, &[0xff]));
    one_is_not_text.extend(field(1, &tlv(SEQUENCE, &strings)));

    for encoded in [
        tlv(SEQUENCE, &field(0, &tlv(INTEGER, &[1]))),
        name(&[]),
        tlv(SEQUENCE, &one_is_not_text),
    ] {
        let (element, _) = Element::read(&encoded).expect("read");
        assert_eq!(principal(element).expect_err("refused").message, unreadable);
    }
}
