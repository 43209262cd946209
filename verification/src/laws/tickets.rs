//! Laws of `Negotiate` tokens, of the tickets in them and of what those seal.
use crate::bits;
use crate::calendar;
use crate::der;
use crate::enc_ticket_part;
use crate::encoding;
use crate::minting;
use crate::text;
use crate::ticket;
use vstd::prelude::*;

verus! {

/// What starts with another byte than `N` is no NTLM message.
proof fn lemma_no_ntlm(token: Seq<u8>)
    requires
        token.len() > 0,
        token[0] != 0x4e,
    ensures
        !bits::begins(token, ticket::NTLMSSP@),
{
    if bits::begins(token, ticket::NTLMSSP@) {
        assert(token.take(8)[0] == ticket::NTLMSSP@[0]);
    }
}

/// A token that starts with `NTLMSSP` and a zero carries no ticket.
pub proof fn law_an_ntlm_message_carries_no_ticket(rest: Seq<u8>)
    ensures
        ticket::negotiated(seq![0x4eu8, 0x54, 0x4c, 0x4d, 0x53, 0x53, 0x50, 0x00] + rest) == Ok::<
            Option<ticket::TicketView>,
            Seq<char>,
        >(None),
{
    let token = seq![0x4eu8, 0x54, 0x4c, 0x4d, 0x53, 0x53, 0x50, 0x00] + rest;
    assert(token.take(8) =~= ticket::NTLMSSP@);
}

/// A token that is an AP-REQ carries that AP-REQ's ticket.
pub proof fn law_a_bare_ap_req_carries_its_ticket(token: Seq<u8>, outer: der::Tlv, rest: Seq<u8>)
    requires
        der::element_at(token) == Ok::<(der::Tlv, Seq<u8>), Seq<char>>((outer, rest)),
        outer.tag == 0x6e,
    ensures
        ticket::ticket_in(token) matches Ok(said) ==> ticket::negotiated(token) == Ok::<
            Option<ticket::TicketView>,
            Seq<char>,
        >(Some(said)),
        ticket::ticket_in(token) matches Err(why) ==> ticket::negotiated(token) == Err::<
            Option<ticket::TicketView>,
            Seq<char>,
        >(why),
{
    lemma_no_ntlm(token);
}

/// A GSS-API token of Kerberos, by either of its OIDs, carries the ticket of
/// the AP-REQ behind its token id, and is refused where the id is another.
pub proof fn law_a_kerberos_token_carries_its_ap_req(
    token: Seq<u8>,
    outer: der::Tlv,
    rest: Seq<u8>,
    mechanism: Seq<u8>,
    inner: Seq<u8>,
)
    requires
        der::element_at(token) == Ok::<(der::Tlv, Seq<u8>), Seq<char>>((outer, rest)),
        outer.tag == 0x60,
        der::element_at(outer.content) == Ok::<(der::Tlv, Seq<u8>), Seq<char>>(
            (der::Tlv { tag: 6, content: mechanism }, inner),
        ),
        mechanism == seq![0x2au8, 0x86, 0x48, 0x86, 0xf7, 0x12, 0x01, 0x02, 0x02] || mechanism
            == seq![0x2au8, 0x86, 0x48, 0x82, 0xf7, 0x12, 0x01, 0x02, 0x02],
    ensures
        inner.len() >= 2 && inner[0] == 1 && inner[1] == 0 ==> {
            &&& ticket::ticket_in(inner.skip(2)) matches Ok(said) ==> ticket::negotiated(token)
                == Ok::<Option<ticket::TicketView>, Seq<char>>(Some(said))
            &&& ticket::ticket_in(inner.skip(2)) matches Err(why) ==> ticket::negotiated(token)
                == Err::<Option<ticket::TicketView>, Seq<char>>(why)
        },
        !(inner.len() >= 2 && inner[0] == 1 && inner[1] == 0) ==> ticket::negotiated(token) == Err::<
            Option<ticket::TicketView>,
            Seq<char>,
        >("the Kerberos token is not an AP-REQ: its token id is not 01 00"@),
{
    lemma_no_ntlm(token);
    assert(mechanism =~= ticket::KERBEROS@ || mechanism =~= ticket::KERBEROS_LEGACY@);
    assert(mechanism.len() != ticket::SPNEGO@.len());
    if inner.len() >= 2 {
        if inner[0] == 1 && inner[1] == 0 {
            assert(inner.take(2) =~= ticket::TOKEN_AP_REQ@);
        } else if inner.take(2) == ticket::TOKEN_AP_REQ@ {
            assert(inner.take(2)[0] == 1 && inner.take(2)[1] == 0);
        }
    }
}

/// What a `NegTokenInit` carries in its field `[2]` is read as if it came on
/// its own, whatever other fields there are; without that field it carries no
/// ticket, and what is not an `OCTET STRING` there is refused.
pub proof fn law_a_neg_token_init_is_its_mechanism_token(
    token: Seq<u8>,
    outer: der::Tlv,
    init: der::Tlv,
    message: Seq<u8>,
    rest: Seq<u8>,
    inner: Seq<u8>,
    inner_rest: Seq<u8>,
    init_rest: Seq<u8>,
)
    requires
        der::element_at(token) == Ok::<(der::Tlv, Seq<u8>), Seq<char>>((outer, rest)),
        outer.tag == 0x60,
        der::element_at(outer.content) == Ok::<(der::Tlv, Seq<u8>), Seq<char>>(
            (
                der::Tlv { tag: 6, content: seq![0x2bu8, 0x06, 0x01, 0x05, 0x05, 0x02] },
                inner,
            ),
        ),
        der::element_at(inner) == Ok::<(der::Tlv, Seq<u8>), Seq<char>>((init, inner_rest)),
        init.tag == 0xa0,
        der::element_at(init.content) == Ok::<(der::Tlv, Seq<u8>), Seq<char>>(
            (der::Tlv { tag: 0x30, content: message }, init_rest),
        ),
    ensures
        der::field_of(message, 2) matches Ok(Some(inside)) ==> inside.tag == 4
            ==> ticket::negotiated(token) == ticket::negotiated(inside.content),
        der::field_of(message, 2) matches Ok(Some(inside)) ==> inside.tag != 4
            ==> ticket::negotiated(token) == Err::<Option<ticket::TicketView>, Seq<char>>(
            "the SPNEGO mechanism token is not an OCTET STRING"@,
        ),
        der::field_of(message, 2) matches Ok(None) ==> ticket::negotiated(token) == Ok::<
            Option<ticket::TicketView>,
            Seq<char>,
        >(None),
        der::field_of(message, 2) matches Err(why) ==> ticket::negotiated(token) == Err::<
            Option<ticket::TicketView>,
            Seq<char>,
        >(why),
{
    lemma_no_ntlm(token);
    assert(seq![0x2bu8, 0x06, 0x01, 0x05, 0x05, 0x02] =~= ticket::SPNEGO@);
}

/// What a `NegTokenResp` carries in its field `[2]` is read as if it came on
/// its own, whatever other fields there are; without that field it carries no
/// ticket, and what is not an `OCTET STRING` there is refused.
pub proof fn law_a_neg_token_resp_is_its_mechanism_token(
    token: Seq<u8>,
    outer: der::Tlv,
    message: Seq<u8>,
    rest: Seq<u8>,
    outer_rest: Seq<u8>,
)
    requires
        der::element_at(token) == Ok::<(der::Tlv, Seq<u8>), Seq<char>>((outer, rest)),
        outer.tag == 0xa1,
        der::element_at(outer.content) == Ok::<(der::Tlv, Seq<u8>), Seq<char>>(
            (der::Tlv { tag: 0x30, content: message }, outer_rest),
        ),
    ensures
        der::field_of(message, 2) matches Ok(Some(inside)) ==> inside.tag == 4
            ==> ticket::negotiated(token) == ticket::negotiated(inside.content),
        der::field_of(message, 2) matches Ok(Some(inside)) ==> inside.tag != 4
            ==> ticket::negotiated(token) == Err::<Option<ticket::TicketView>, Seq<char>>(
            "the SPNEGO mechanism token is not an OCTET STRING"@,
        ),
        der::field_of(message, 2) matches Ok(None) ==> ticket::negotiated(token) == Ok::<
            Option<ticket::TicketView>,
            Seq<char>,
        >(None),
        der::field_of(message, 2) matches Err(why) ==> ticket::negotiated(token) == Err::<
            Option<ticket::TicketView>,
            Seq<char>,
        >(why),
{
    lemma_no_ntlm(token);
}

/// A token of another tag, a GSS-API token without an OID at its front and one
/// of another mechanism carry nothing that is read.
pub proof fn law_other_tokens_are_refused(token: Seq<u8>, outer: der::Tlv, rest: Seq<u8>)
    requires
        der::element_at(token) == Ok::<(der::Tlv, Seq<u8>), Seq<char>>((outer, rest)),
        outer.tag != 0x4e,
    ensures
        outer.tag != 0x60 && outer.tag != 0x6e && outer.tag != 0xa1 ==> ticket::negotiated(token)
            == Err::<Option<ticket::TicketView>, Seq<char>>(
            "the Negotiate token starts with tag "@ + text::hex(outer.tag)
                + ", which is neither GSS-API, SPNEGO nor an AP-REQ"@,
        ),
        outer.tag == 0x60 ==> (der::element_at(outer.content) matches Ok((mechanism, _))
            ==> mechanism.tag != 6 ==> ticket::negotiated(token) == Err::<
            Option<ticket::TicketView>,
            Seq<char>,
        >("the GSS-API token does not start with a mechanism OID"@)),
        outer.tag == 0x60 ==> (der::element_at(outer.content) matches Ok((mechanism, _))
            ==> mechanism.tag == 6 && mechanism.content != seq![
            0x2bu8,
            0x06,
            0x01,
            0x05,
            0x05,
            0x02,
        ] && mechanism.content != seq![0x2au8, 0x86, 0x48, 0x86, 0xf7, 0x12, 0x01, 0x02, 0x02]
            && mechanism.content != seq![0x2au8, 0x86, 0x48, 0x82, 0xf7, 0x12, 0x01, 0x02, 0x02]
            ==> ticket::negotiated(token) == Err::<Option<ticket::TicketView>, Seq<char>>(
            "the GSS-API token names a mechanism that is neither SPNEGO nor Kerberos"@,
        )),
{
    lemma_no_ntlm(token);
    assert(ticket::SPNEGO@ =~= seq![0x2bu8, 0x06, 0x01, 0x05, 0x05, 0x02]);
    assert(ticket::KERBEROS@ =~= seq![0x2au8, 0x86, 0x48, 0x86, 0xf7, 0x12, 0x01, 0x02, 0x02]);
    assert(ticket::KERBEROS_LEGACY@ =~= seq![
        0x2au8,
        0x86,
        0x48,
        0x82,
        0xf7,
        0x12,
        0x01,
        0x02,
        0x02,
    ]);
}

/// A token is read only where it is an element, and a SPNEGO message only
/// where its wrappings are.
pub proof fn law_a_token_that_is_not_der_is_refused(token: Seq<u8>)
    requires
        token.len() == 0 || token[0] != 0x4e,
    ensures
        der::element_at(token) matches Err(why) ==> ticket::negotiated(token) == Err::<
            Option<ticket::TicketView>,
            Seq<char>,
        >(why),
        der::element_at(token) matches Ok((outer, _)) ==> (outer.tag == 0x60 ==> (der::element_at(
            outer.content,
        ) matches Err(why) ==> ticket::negotiated(token) == Err::<
            Option<ticket::TicketView>,
            Seq<char>,
        >(why))),
        der::element_at(token) matches Ok((outer, _)) ==> (outer.tag == 0xa1 ==> (der::expected(
            outer.content,
            0x30,
            "a NegTokenResp"@,
        ) matches Err(why) ==> ticket::negotiated(token) == Err::<
            Option<ticket::TicketView>,
            Seq<char>,
        >(why))),
{
    if token.len() > 0 {
        lemma_no_ntlm(token);
    }
}

/// A ticket is read from an AP-REQ exactly where it is Kerberos version 5 and
/// message type 14, and carries a ticket with a realm that is not empty, a
/// service name, an encryption type and a cipher; and it says what those
/// fields do, whatever other fields there are.
pub proof fn law_a_ticket_says_what_its_fields_do(message: Seq<u8>, said: ticket::TicketView)
    ensures
        ticket::ticket_in(message) == Ok::<ticket::TicketView, Seq<char>>(said) <==> {
            &&& der::element_at(message) matches Ok((outer, _))
            &&& outer.tag == 0x6e
            &&& der::element_at(outer.content) matches Ok((request, _))
            &&& request.tag == 0x30
            &&& der::field_of(request.content, 0) matches Ok(Some(version))
            &&& der::integer_of(version) == Some(5int)
            &&& der::field_of(request.content, 1) matches Ok(Some(kind))
            &&& der::integer_of(kind) == Some(14int)
            &&& der::field_of(request.content, 3) matches Ok(Some(wrapping))
            &&& wrapping.tag == 0x61
            &&& der::element_at(wrapping.content) matches Ok((body, _))
            &&& body.tag == 0x30
            &&& der::field_of(body.content, 1) matches Ok(Some(realm))
            &&& der::text_of(realm) == Some(said.realm)
            &&& said.realm.len() > 0
            &&& der::field_of(body.content, 2) matches Ok(Some(service))
            &&& der::principal_of(service.content) matches Ok(name)
            &&& said.service == text::split_at_slashes(name)
            &&& der::field_of(body.content, 3) matches Ok(Some(sealed))
            &&& der::field_of(sealed.content, 0) matches Ok(Some(etype))
            &&& der::integer_of(etype) == Some(said.encryption_type as int)
            &&& der::field_of(sealed.content, 1) matches Ok(kvno)
            &&& match said.key_version {
                Some(number) => kvno is Some && der::integer_of(kvno->0) == Some(number as int),
                None => kvno is None || der::integer_of(kvno->0) is None,
            }
            &&& der::field_of(sealed.content, 2) matches Ok(Some(cipher))
            &&& said.cipher == cipher.content
        },
{
    if let Ok((outer, _)) = der::element_at(message) {
        if let Ok((request, _)) = der::element_at(outer.content) {
            if let Ok(Some(wrapping)) = der::field_of(request.content, 3) {
                if let Ok((body, _)) = der::element_at(wrapping.content) {
                    lemma_fields_of_a_ticket(body.content, said);
                }
            }
        }
    }
}

/// What is read of a ticket's own fields.
proof fn lemma_fields_of_a_ticket(body: Seq<u8>, said: ticket::TicketView)
    ensures
        ticket::ticket_said(body) == Ok::<ticket::TicketView, Seq<char>>(said) <==> {
            &&& der::field_of(body, 1) matches Ok(Some(realm))
            &&& der::text_of(realm) == Some(said.realm)
            &&& said.realm.len() > 0
            &&& der::field_of(body, 2) matches Ok(Some(service))
            &&& der::principal_of(service.content) matches Ok(name)
            &&& said.service == text::split_at_slashes(name)
            &&& der::field_of(body, 3) matches Ok(Some(sealed))
            &&& der::field_of(sealed.content, 0) matches Ok(Some(etype))
            &&& der::integer_of(etype) == Some(said.encryption_type as int)
            &&& der::field_of(sealed.content, 1) matches Ok(kvno)
            &&& match said.key_version {
                Some(number) => kvno is Some && der::integer_of(kvno->0) == Some(number as int),
                None => kvno is None || der::integer_of(kvno->0) is None,
            }
            &&& der::field_of(sealed.content, 2) matches Ok(Some(cipher))
            &&& said.cipher == cipher.content
        },
{
    if let Ok(Some(sealed)) = der::field_of(body, 3) {
        if let Ok(Some(etype)) = der::field_of(sealed.content, 0) {
            crate::ones::lemma_be_value_bound(etype.content);
        }
        if let Ok(Some(kvno)) = der::field_of(sealed.content, 1) {
            crate::ones::lemma_be_value_bound(kvno.content);
        }
    }
}

/// What is read of a sealed part is its client and its times, whatever other
/// fields there are: the realm and name in fields `[2]` and `[3]`, from its
/// starttime `[6]` where there is one that is read and else from its authtime
/// `[5]`, until its endtime `[7]`.
pub proof fn law_a_part_says_what_its_fields_do(
    plaintext: Seq<u8>,
    said: enc_ticket_part::EncTicketPartView,
)
    ensures
        enc_ticket_part::part_in(plaintext) == Ok::<enc_ticket_part::EncTicketPartView, Seq<char>>(
            said,
        ) <==> {
            &&& der::element_at(plaintext) matches Ok((outer, _))
            &&& outer.tag == 0x63
            &&& der::element_at(outer.content) matches Ok((part, _))
            &&& part.tag == 0x30
            &&& der::field_of(part.content, 2) matches Ok(Some(realm))
            &&& der::text_of(realm) == Some(said.client_realm)
            &&& der::field_of(part.content, 3) matches Ok(Some(client))
            &&& der::principal_of(client.content) matches Ok(name)
            &&& said.client == text::split_at_slashes(name)
            &&& der::field_of(part.content, 5) matches Ok(Some(authtime))
            &&& der::time_of(authtime) is Some
            &&& der::field_of(part.content, 6) matches Ok(starttime)
            &&& if starttime is Some && der::time_of(starttime->0) is Some {
                der::time_of(starttime->0) == Some(said.start)
            } else {
                der::time_of(authtime) == Some(said.start)
            }
            &&& der::field_of(part.content, 7) matches Ok(Some(endtime))
            &&& der::time_of(endtime) == Some(said.end)
        },
{
}

/// Two sealed parts with the same client and times are read alike, whatever
/// else each holds.
pub proof fn law_a_part_is_read_by_its_client_and_times_alone(one: Seq<u8>, other: Seq<u8>)
    requires
        forall|number: u8|
            number == 2 || number == 3 || number == 5 || number == 6 || number == 7
                ==> #[trigger] der::field_of(one, number) == der::field_of(other, number),
    ensures
        enc_ticket_part::part_said(one) == enc_ticket_part::part_said(other),
{
    assert(der::field_of(one, 2) == der::field_of(other, 2));
    assert(der::field_of(one, 3) == der::field_of(other, 3));
    assert(der::field_of(one, 5) == der::field_of(other, 5));
    assert(der::field_of(one, 6) == der::field_of(other, 6));
    assert(der::field_of(one, 7) == der::field_of(other, 7));
}

/// Tags of one octet are on all of these.
spec fn are_short(children: Seq<der::Tlv>) -> bool {
    forall|i: int| 0 <= i < children.len() ==> (#[trigger] children[i]).tag % 32 != 31
}

/// Children of written content that fits can be written.
proof fn lemma_children_fit(children: Seq<der::Tlv>)
    requires
        are_short(children),
        encoding::all_written(children).len() <= u64::MAX,
    ensures
        encoding::all_writable(children),
{
    encoding::lemma_children_are_shorter(children);
    assert forall|i: int| 0 <= i < children.len() implies encoding::writable(
        #[trigger] children[i],
    ) by {
        let tag = children[i].tag;
        assert(tag & 0x1fu8 == tag % 32) by (bit_vector);
    }
}

/// A SPNEGO message of these fields, with a mechanism token among them.
pub open spec fn negotiation_among(
    before: Seq<der::Tlv>,
    token: Seq<u8>,
    after: Seq<der::Tlv>,
) -> der::Tlv {
    encoding::sequence(
        before + seq![encoding::field(2, minting::octet_string(token))] + after,
    )
}

/// The mechanism token of a SPNEGO message that is written with other fields
/// before and after it is read from its field `[2]`.
proof fn lemma_token_among_fields(before: Seq<der::Tlv>, token: Seq<u8>, after: Seq<der::Tlv>)
    requires
        are_short(before),
        are_short(after),
        forall|i: int| 0 <= i < before.len() ==> (#[trigger] before[i]).tag != 0xa2,
        negotiation_among(before, token, after).content.len() <= u64::MAX,
    ensures
        der::field_of(negotiation_among(before, token, after).content, 2) == Ok::<
            Option<der::Tlv>,
            Seq<char>,
        >(Some(der::Tlv { tag: 4, content: token })),
{
    encoding::lemma_context_tags();
    let inside = minting::octet_string(token);
    let fields = before + seq![encoding::field(2, inside)] + after;
    let at = before.len() as int;
    assert(fields[at] == encoding::field(2, inside));
    assert forall|i: int| 0 <= i < fields.len() implies (#[trigger] fields[i]).tag % 32 != 31 by {
        if i < at {
            assert(fields[i] == before[i]);
        } else if i > at {
            assert(fields[i] == after[i - at - 1]);
        }
    }
    assert forall|j: int| 0 <= j < at implies (#[trigger] fields[j]).tag != 0xa0u8 | 2u8 by {
        assert(fields[j] == before[j]);
    }
    lemma_children_fit(fields);
    assert(encoding::writable(fields[at]));
    assert(inside.content.len() < encoding::written(inside).len());
    encoding::law_a_field_is_read_back(fields, 2, at, inside);
}

/// A `NegTokenInit` that lists its mechanisms and says more besides is read as
/// if its mechanism token came on its own: whatever fields stand before that
/// token under other numbers, and whatever fields stand after it.
pub proof fn law_a_neg_token_init_is_its_token_among_other_fields(
    before: Seq<der::Tlv>,
    token: Seq<u8>,
    after: Seq<der::Tlv>,
)
    requires
        forall|i: int|
            0 <= i < before.len() ==> (#[trigger] before[i]).tag != 0xa2 && before[i].tag % 32
                != 31,
        forall|i: int| 0 <= i < after.len() ==> (#[trigger] after[i]).tag % 32 != 31,
        encoding::written(
            encoding::field(0, negotiation_among(before, token, after)),
        ).len() + 8 <= u64::MAX,
    ensures
        ticket::negotiated(
            encoding::tlv(
                0x60,
                encoding::tlv(6, seq![0x2bu8, 0x06, 0x01, 0x05, 0x05, 0x02]) + encoding::written(
                    encoding::field(0, negotiation_among(before, token, after)),
                ),
            ),
        ) == ticket::negotiated(token),
{
    encoding::lemma_context_tags();
    let message = negotiation_among(before, token, after);
    let init = encoding::field(0, message);
    let oid = der::Tlv { tag: 6, content: seq![0x2bu8, 0x06, 0x01, 0x05, 0x05, 0x02] };
    let outer = der::Tlv {
        tag: 0x60,
        content: encoding::written(oid) + encoding::written(init),
    };
    let whole = encoding::written(outer);
    assert(init.content.len() < encoding::written(init).len());
    assert(message.content.len() < encoding::written(message).len());
    assert(6u8 & 0x1fu8 != 0x1fu8) by (bit_vector);
    encoding::law_an_element_is_read_back(outer, Seq::empty());
    assert(whole + Seq::empty() =~= whole);
    encoding::law_an_element_is_read_back(oid, encoding::written(init));
    encoding::law_an_element_is_read_back(init, Seq::empty());
    assert(encoding::written(init) + Seq::empty() =~= encoding::written(init));
    encoding::law_an_element_is_read_back(message, Seq::empty());
    assert(encoding::written(message) + Seq::empty() =~= encoding::written(message));
    lemma_token_among_fields(before, token, after);
    law_a_neg_token_init_is_its_mechanism_token(
        whole,
        outer,
        init,
        message.content,
        Seq::empty(),
        encoding::written(init),
        Seq::empty(),
        Seq::empty(),
    );
}

/// A `NegTokenResp` is read as if its mechanism token came on its own,
/// whatever fields stand before that token under other numbers, and whatever
/// fields stand after it.
pub proof fn law_a_neg_token_resp_is_its_token_among_other_fields(
    before: Seq<der::Tlv>,
    token: Seq<u8>,
    after: Seq<der::Tlv>,
)
    requires
        forall|i: int|
            0 <= i < before.len() ==> (#[trigger] before[i]).tag != 0xa2 && before[i].tag % 32
                != 31,
        forall|i: int| 0 <= i < after.len() ==> (#[trigger] after[i]).tag % 32 != 31,
        encoding::written(negotiation_among(before, token, after)).len() <= u64::MAX,
    ensures
        ticket::negotiated(
            encoding::tlv(0xa1, encoding::written(negotiation_among(before, token, after))),
        ) == ticket::negotiated(token),
{
    encoding::lemma_context_tags();
    let message = negotiation_among(before, token, after);
    let outer = der::Tlv { tag: 0xa1, content: encoding::written(message) };
    let whole = encoding::written(outer);
    assert(message.content.len() < encoding::written(message).len());
    encoding::law_an_element_is_read_back(outer, Seq::empty());
    assert(whole + Seq::empty() =~= whole);
    encoding::law_an_element_is_read_back(message, Seq::empty());
    assert(encoding::written(message) + Seq::empty() =~= encoding::written(message));
    lemma_token_among_fields(before, token, after);
    law_a_neg_token_resp_is_its_mechanism_token(
        whole,
        outer,
        message.content,
        Seq::empty(),
        Seq::empty(),
    );
}

/// The fields of an `EncTicketPart` with others behind them are read as they
/// are without those.
proof fn lemma_fields_behind(fields: Seq<der::Tlv>, after: Seq<der::Tlv>, number: u8, at: int)
    requires
        number <= 7,
        encoding::all_writable(fields),
        encoding::all_writable(fields + after),
        0 <= at <= fields.len(),
        forall|j: int| 0 <= j < at ==> (#[trigger] fields[j]).tag != 160 + number,
        at < fields.len() ==> fields[at].tag == 160 + number,
        at == fields.len() ==> forall|j: int|
            0 <= j < after.len() ==> (#[trigger] after[j]).tag != 160 + number,
    ensures
        der::field_of(encoding::all_written(fields + after), number) == der::field_of(
            encoding::all_written(fields),
            number,
        ),
{
    let all = fields + after;
    encoding::law_elements_are_read_back(fields);
    encoding::law_elements_are_read_back(all);
    crate::laws::reading::law_a_field_is_the_first_of_its_number(
        encoding::all_written(fields),
        fields,
        number,
        at,
    );
    let end = if at < fields.len() {
        at
    } else {
        all.len() as int
    };
    assert forall|j: int| 0 <= j < end implies (#[trigger] all[j]).tag != 160 + number by {
        if j < fields.len() {
            assert(all[j] == fields[j]);
        } else {
            assert(all[j] == after[j - fields.len()]);
        }
    }
    crate::laws::reading::law_a_field_is_the_first_of_its_number(
        encoding::all_written(all),
        all,
        number,
        end,
    );
}

/// A sealed part that is written with more fields behind its endtime, such as
/// how long it may be renewed, is read as it is without them: it ends when its
/// endtime `[7]` says, whatever those are.
pub proof fn law_fields_behind_the_endtime_make_no_difference(
    minted: minting::Minted,
    name_type: der::Tlv,
    flags: der::Tlv,
    key: der::Tlv,
    transited: der::Tlv,
    after: Seq<der::Tlv>,
)
    requires
        minted.client.len() > 0,
        calendar::seconds_written(minted.authtime) is Some,
        minted.starttime matches Some(time) ==> calendar::seconds_written(time) is Some,
        calendar::seconds_written(minted.endtime) is Some,
        name_type.tag % 32 != 31,
        name_type.content.len() <= u64::MAX,
        forall|i: int|
            0 <= i < after.len() ==> (#[trigger] after[i]).tag != 0xa6 && after[i].tag % 32 != 31,
        encoding::written(
            encoding::sequence(
                minting::client_fields(minted, name_type, flags, key, transited)
                    + minting::time_fields(minted) + after,
            ),
        ).len() <= u64::MAX,
    ensures
        ({
            let part = enc_ticket_part::part_in(
                encoding::tlv(
                    0x63,
                    encoding::written(
                        encoding::sequence(
                            minting::client_fields(minted, name_type, flags, key, transited)
                                + minting::time_fields(minted) + after,
                        ),
                    ),
                ),
            );
            let without = enc_ticket_part::part_in(
                encoding::tlv(
                    0x63,
                    encoding::written(
                        encoding::sequence(
                            minting::client_fields(minted, name_type, flags, key, transited)
                                + minting::time_fields(minted),
                        ),
                    ),
                ),
            );
            &&& part == without
            &&& part is Ok
            &&& part->Ok_0.end == calendar::seconds_written(minted.endtime)->0
            &&& part->Ok_0.start == match minted.starttime {
                Some(time) => calendar::seconds_written(time)->0,
                None => calendar::seconds_written(minted.authtime)->0,
            }
        }),
{
    let fields = minting::client_fields(minted, name_type, flags, key, transited)
        + minting::time_fields(minted);
    let all = fields + after;
    let short = encoding::sequence(fields);
    let long = encoding::sequence(all);
    lemma_all_written(fields, after);
    assert(long.content.len() < encoding::written(long).len());
    lemma_written_grows(short, long);
    lemma_part_tags(minted, name_type, flags, key, transited);
    assert forall|i: int| 0 <= i < all.len() implies (#[trigger] all[i]).tag % 32 != 31 by {
        if i < fields.len() {
            assert(all[i] == fields[i]);
        } else {
            assert(all[i] == after[i - fields.len()]);
        }
    }
    lemma_children_fit(all);
    lemma_children_fit(fields);
    lemma_part_is_its_fields(all);
    lemma_part_is_its_fields(fields);
    lemma_part_with_fields_behind(minted, name_type, flags, key, transited, after);
    let kind = name_type.tag;
    assert(kind & 0x1fu8 == kind % 32) by (bit_vector);
    encoding::lemma_context_tags();
    minting::law_an_enc_ticket_part_is_read_back(minted, name_type, flags, key, transited);
}

/// The fields of an `EncTicketPart` stand in order.
proof fn lemma_part_tags(
    minted: minting::Minted,
    name_type: der::Tlv,
    flags: der::Tlv,
    key: der::Tlv,
    transited: der::Tlv,
)
    ensures
        ({
            let fields = minting::client_fields(minted, name_type, flags, key, transited)
                + minting::time_fields(minted);
            &&& fields.len() == if minted.starttime is Some {
                8int
            } else {
                7
            }
            &&& forall|i: int| 0 <= i < 6 ==> (#[trigger] fields[i]).tag == 160 + i
            &&& minted.starttime is Some ==> fields[6].tag == 166 && fields[7].tag == 167
            &&& minted.starttime is None ==> fields[6].tag == 167
        }),
{
    encoding::lemma_context_tags();
}

/// An `EncTicketPart` that is written says what its fields do.
proof fn lemma_part_is_its_fields(fields: Seq<der::Tlv>)
    requires
        encoding::written(encoding::sequence(fields)).len() <= u64::MAX,
    ensures
        enc_ticket_part::part_in(
            encoding::tlv(0x63, encoding::written(encoding::sequence(fields))),
        ) == enc_ticket_part::part_said(encoding::all_written(fields)),
{
    encoding::lemma_context_tags();
    let part = encoding::sequence(fields);
    assert(part.content.len() < encoding::written(part).len());
    let outer = der::Tlv { tag: 0x63, content: encoding::written(part) };
    encoding::law_an_expected_element_is_read_back(outer, "an EncTicketPart"@);
    encoding::law_an_expected_element_is_read_back(part, "an EncTicketPart"@);
}

/// An `EncTicketPart` says with more fields behind it what it says without.
proof fn lemma_part_with_fields_behind(
    minted: minting::Minted,
    name_type: der::Tlv,
    flags: der::Tlv,
    key: der::Tlv,
    transited: der::Tlv,
    after: Seq<der::Tlv>,
)
    requires
        ({
            let fields = minting::client_fields(minted, name_type, flags, key, transited)
                + minting::time_fields(minted);
            &&& encoding::all_writable(fields)
            &&& encoding::all_writable(fields + after)
        }),
        forall|i: int| 0 <= i < after.len() ==> (#[trigger] after[i]).tag != 0xa6,
    ensures
        ({
            let fields = minting::client_fields(minted, name_type, flags, key, transited)
                + minting::time_fields(minted);
            enc_ticket_part::part_said(encoding::all_written(fields + after))
                == enc_ticket_part::part_said(encoding::all_written(fields))
        }),
{
    let fields = minting::client_fields(minted, name_type, flags, key, transited)
        + minting::time_fields(minted);
    lemma_part_tags(minted, name_type, flags, key, transited);
    let start = if minted.starttime is Some {
        6
    } else {
        fields.len() as int
    };
    lemma_fields_behind(fields, after, 2, 2);
    lemma_fields_behind(fields, after, 3, 3);
    lemma_fields_behind(fields, after, 5, 5);
    lemma_fields_behind(fields, after, 6, start);
    lemma_fields_behind(fields, after, 7, fields.len() - 1);
    law_a_part_is_read_by_its_client_and_times_alone(
        encoding::all_written(fields + after),
        encoding::all_written(fields),
    );
}

/// What is written one after the other is written in a row.
proof fn lemma_all_written(one: Seq<der::Tlv>, other: Seq<der::Tlv>)
    ensures
        encoding::all_written(one + other) == encoding::all_written(one) + encoding::all_written(
            other,
        ),
    decreases one.len(),
{
    if one.len() == 0 {
        assert(one + other =~= other);
        assert(encoding::all_written(one) + encoding::all_written(other) =~= encoding::all_written(
            other,
        ));
    } else {
        lemma_all_written(one.drop_first(), other);
        assert((one + other).drop_first() =~= one.drop_first() + other);
        assert(encoding::all_written(one + other) =~= encoding::all_written(one)
            + encoding::all_written(other));
    }
}

/// More content takes no fewer bytes.
proof fn lemma_written_grows(short: der::Tlv, long: der::Tlv)
    requires
        short.content.len() <= long.content.len() <= u64::MAX,
    ensures
        encoding::written(short).len() <= encoding::written(long).len(),
{
    encoding::lemma_length_octets_grow(short.content.len(), long.content.len());
}

/// An AP-REQ that is not read to its ticket is refused by the first thing that
/// is wrong with it; one that is says what its ticket does.
pub proof fn law_a_request_is_refused_by_its_first_fault(message: Seq<u8>)
    ensures
        der::expected(message, 0x6e, "an AP-REQ"@) matches Err(why) ==> ticket::ticket_in(message)
            == Err::<ticket::TicketView, Seq<char>>(why),
        der::expected(message, 0x6e, "an AP-REQ"@) matches Ok(outer) ==> (der::expected(
            outer.content,
            0x30,
            "an AP-REQ"@,
        ) matches Err(why) ==> ticket::ticket_in(message) == Err::<ticket::TicketView, Seq<char>>(
            why,
        )),
{
}

/// An AP-REQ's fields are refused by the first that is wrong: its version and
/// type, and the ticket it carries.
pub proof fn law_a_request_is_refused_by_its_first_field(
    message: Seq<u8>,
    outer: der::Tlv,
    request: Seq<u8>,
)
    requires
        der::expected(message, 0x6e, "an AP-REQ"@) == Ok::<der::Tlv, Seq<char>>(outer),
        der::expected(outer.content, 0x30, "an AP-REQ"@) == Ok::<der::Tlv, Seq<char>>(
            der::Tlv { tag: 0x30, content: request },
        ),
    ensures
        ({
            let version = der::field_of(request, 0);
            let kind = der::field_of(request, 1);
            let carried = der::required_of(request, 3, "ticket"@);
            let answer = ticket::ticket_in(message);
            let five = version is Ok && version->Ok_0 is Some && der::integer_of(version->Ok_0->0)
                == Some(5int);
            let fourteen = kind is Ok && kind->Ok_0 is Some && der::integer_of(kind->Ok_0->0)
                == Some(14int);
            &&& version is Err ==> answer == Err::<ticket::TicketView, Seq<char>>(version->Err_0)
            &&& version is Ok && kind is Err ==> answer == Err::<ticket::TicketView, Seq<char>>(
                kind->Err_0,
            )
            &&& version is Ok && kind is Ok && !(five && fourteen) ==> answer == Err::<
                ticket::TicketView,
                Seq<char>,
            >("the AP-REQ is not Kerberos 5 message type 14"@)
            &&& five && fourteen && carried is Err ==> answer == Err::<
                ticket::TicketView,
                Seq<char>,
            >(carried->Err_0)
            &&& five && fourteen && carried is Ok && carried->Ok_0.tag != 0x61 ==> answer == Err::<
                ticket::TicketView,
                Seq<char>,
            >("the AP-REQ's ticket is not a Ticket"@)
            &&& five && fourteen && carried is Ok && carried->Ok_0.tag == 0x61 ==> (der::expected(
                carried->Ok_0.content,
                0x30,
                "a Ticket"@,
            ) matches Err(why) ==> answer == Err::<ticket::TicketView, Seq<char>>(why))
            &&& five && fourteen && carried is Ok && carried->Ok_0.tag == 0x61 ==> (der::expected(
                carried->Ok_0.content,
                0x30,
                "a Ticket"@,
            ) matches Ok(body) ==> answer == ticket::ticket_said(body.content))
        }),
{
}

/// A ticket's fields are refused by the first that is wrong: its realm, its
/// service, its sealed part and what that holds.
pub proof fn law_a_ticket_is_refused_by_its_first_fault(body: Seq<u8>)
    ensures
        ({
            let answer = ticket::ticket_said(body);
            let realm = der::required_of(body, 1, "realm in its ticket"@);
            let named = realm is Ok && der::text_of(realm->Ok_0) is Some && der::text_of(
                realm->Ok_0,
            )->0.len() > 0;
            let service = der::required_of(body, 2, "service name in its ticket"@);
            let name = der::principal_of(service->Ok_0.content);
            let sealed = der::required_of(body, 3, "sealed part in its ticket"@);
            let part = sealed->Ok_0.content;
            let etype = der::required_of(part, 0, "encryption type on its ticket"@);
            let kvno = der::field_of(part, 1);
            let cipher = der::required_of(part, 2, "cipher in its ticket"@);
            let read = named && service is Ok && name is Ok;
            let typed = read && sealed is Ok && etype is Ok && der::integer_of(etype->Ok_0) is Some;
            &&& realm is Err ==> answer == Err::<ticket::TicketView, Seq<char>>(realm->Err_0)
            &&& realm is Ok && !named ==> answer == Err::<ticket::TicketView, Seq<char>>(
                "the ticket's realm is not readable"@,
            )
            &&& named && service is Err ==> answer == Err::<ticket::TicketView, Seq<char>>(
                service->Err_0,
            )
            &&& named && service is Ok && name is Err ==> answer == Err::<
                ticket::TicketView,
                Seq<char>,
            >(name->Err_0)
            &&& read && sealed is Err ==> answer == Err::<ticket::TicketView, Seq<char>>(
                sealed->Err_0,
            )
            &&& read && sealed is Ok && etype is Err ==> answer == Err::<
                ticket::TicketView,
                Seq<char>,
            >(etype->Err_0)
            &&& read && sealed is Ok && etype is Ok && !typed ==> answer == Err::<
                ticket::TicketView,
                Seq<char>,
            >("the ticket's encryption type is not read"@)
            &&& typed && kvno is Err ==> answer == Err::<ticket::TicketView, Seq<char>>(kvno->Err_0)
            &&& typed && kvno is Ok && cipher is Err ==> answer == Err::<
                ticket::TicketView,
                Seq<char>,
            >(cipher->Err_0)
        }),
{
}

/// A sealed part is refused by the first thing that is wrong with it: its
/// wrappings, its client, its times.
pub proof fn law_a_part_is_refused_by_its_first_fault(plaintext: Seq<u8>)
    ensures
        der::expected(plaintext, 0x63, "an EncTicketPart"@) matches Err(why)
            ==> enc_ticket_part::part_in(plaintext) == Err::<
            enc_ticket_part::EncTicketPartView,
            Seq<char>,
        >(why),
        der::expected(plaintext, 0x63, "an EncTicketPart"@) matches Ok(outer) ==> (der::expected(
            outer.content,
            0x30,
            "an EncTicketPart"@,
        ) matches Err(why) ==> enc_ticket_part::part_in(plaintext) == Err::<
            enc_ticket_part::EncTicketPartView,
            Seq<char>,
        >(why)),
        der::expected(plaintext, 0x63, "an EncTicketPart"@) matches Ok(outer) ==> (der::expected(
            outer.content,
            0x30,
            "an EncTicketPart"@,
        ) matches Ok(part) ==> {
            let answer = enc_ticket_part::part_in(plaintext);
            let realm = der::required_of(part.content, 2, "client realm"@);
            let named = realm is Ok && der::text_of(realm->Ok_0) is Some;
            let client = der::required_of(part.content, 3, "client name"@);
            let name = der::principal_of(client->Ok_0.content);
            let authtime = der::required_of(part.content, 5, "authtime"@);
            let starttime = der::field_of(part.content, 6);
            let endtime = der::required_of(part.content, 7, "endtime"@);
            let known = named && client is Ok && name is Ok;
            let timed = known && authtime is Ok && der::time_of(authtime->Ok_0) is Some;
            &&& realm is Err ==> answer == Err::<enc_ticket_part::EncTicketPartView, Seq<char>>(
                realm->Err_0,
            )
            &&& realm is Ok && !named ==> answer == Err::<
                enc_ticket_part::EncTicketPartView,
                Seq<char>,
            >("the ticket's client realm is not readable"@)
            &&& named && client is Err ==> answer == Err::<
                enc_ticket_part::EncTicketPartView,
                Seq<char>,
            >(client->Err_0)
            &&& named && client is Ok && name is Err ==> answer == Err::<
                enc_ticket_part::EncTicketPartView,
                Seq<char>,
            >(name->Err_0)
            &&& known && authtime is Err ==> answer == Err::<
                enc_ticket_part::EncTicketPartView,
                Seq<char>,
            >(authtime->Err_0)
            &&& known && authtime is Ok && !timed ==> answer == Err::<
                enc_ticket_part::EncTicketPartView,
                Seq<char>,
            >("the ticket's authtime is not a KerberosTime"@)
            &&& timed && starttime is Err ==> answer == Err::<
                enc_ticket_part::EncTicketPartView,
                Seq<char>,
            >(starttime->Err_0)
            &&& timed && starttime is Ok && endtime is Err ==> answer == Err::<
                enc_ticket_part::EncTicketPartView,
                Seq<char>,
            >(endtime->Err_0)
            &&& timed && starttime is Ok && endtime is Ok && der::time_of(endtime->Ok_0) is None
                ==> answer == Err::<enc_ticket_part::EncTicketPartView, Seq<char>>(
                "the ticket's endtime is not a KerberosTime"@,
            )
        }),
{
}

/// A SPNEGO token whose `NegTokenInit` is not one is refused.
pub proof fn law_a_neg_token_init_that_is_none_is_refused(
    token: Seq<u8>,
    outer: der::Tlv,
    rest: Seq<u8>,
    inner: Seq<u8>,
)
    requires
        der::element_at(token) == Ok::<(der::Tlv, Seq<u8>), Seq<char>>((outer, rest)),
        outer.tag == 0x60,
        der::element_at(outer.content) == Ok::<(der::Tlv, Seq<u8>), Seq<char>>(
            (
                der::Tlv { tag: 6, content: seq![0x2bu8, 0x06, 0x01, 0x05, 0x05, 0x02] },
                inner,
            ),
        ),
    ensures
        der::expected(inner, 0xa0, "a NegTokenInit"@) matches Err(why) ==> ticket::negotiated(token)
            == Err::<Option<ticket::TicketView>, Seq<char>>(why),
        der::expected(inner, 0xa0, "a NegTokenInit"@) matches Ok(init) ==> (der::expected(
            init.content,
            0x30,
            "a NegTokenInit"@,
        ) matches Err(why) ==> ticket::negotiated(token) == Err::<
            Option<ticket::TicketView>,
            Seq<char>,
        >(why)),
{
    lemma_no_ntlm(token);
    assert(seq![0x2bu8, 0x06, 0x01, 0x05, 0x05, 0x02] =~= ticket::SPNEGO@);
}

} // verus!
