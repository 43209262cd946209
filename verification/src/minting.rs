//! Kerberos messages as a KDC and a client write them, and that they are read
//! back as what was written.
use crate::bits;
use crate::calendar;
use crate::der;
use crate::enc_ticket_part;
use crate::encoding;
use crate::text;
use crate::ticket;
use vstd::prelude::*;

verus! {

/// An `OCTET STRING` of `content`.
pub open spec fn octet_string(content: Seq<u8>) -> der::Tlv {
    der::Tlv { tag: der::OCTET_STRING, content }
}

/// A ticket's sealed part: `EncryptedData`.
pub open spec fn sealed_part(said: ticket::TicketView) -> der::Tlv {
    encoding::sequence(sealed_fields(said))
}

/// The fields of a ticket's sealed part.
pub open spec fn sealed_fields(said: ticket::TicketView) -> Seq<der::Tlv> {
    let kind = encoding::field(0, encoding::integer(said.encryption_type as nat));
    let cipher = encoding::field(2, octet_string(said.cipher));
    match said.key_version {
        Some(version) => seq![kind, encoding::field(1, encoding::integer(version as nat)), cipher],
        None => seq![kind, cipher],
    }
}

/// The fields of a `Ticket`, its service name of type `name_type`.
pub open spec fn ticket_fields(said: ticket::TicketView, name_type: der::Tlv) -> Seq<der::Tlv> {
    seq![
        encoding::field(0, encoding::integer(5)),
        encoding::field(1, encoding::general_string(said.realm)),
        encoding::field(2, encoding::principal_name(name_type, said.service)),
        encoding::field(3, sealed_part(said)),
    ]
}

/// A `Ticket`.
pub open spec fn ticket_element(said: ticket::TicketView, name_type: der::Tlv) -> der::Tlv {
    encoding::wrapped(ticket::TICKET_TAG, encoding::sequence(ticket_fields(said, name_type)))
}

/// The fields of an AP-REQ.
pub open spec fn request_fields(
    said: ticket::TicketView,
    name_type: der::Tlv,
    options: der::Tlv,
    authenticator: der::Tlv,
) -> Seq<der::Tlv> {
    seq![
        encoding::field(0, encoding::integer(5)),
        encoding::field(1, encoding::integer(14)),
        encoding::field(2, options),
        encoding::field(3, ticket_element(said, name_type)),
        encoding::field(4, authenticator),
    ]
}

/// An AP-REQ that carries the ticket.
pub open spec fn ap_req(
    said: ticket::TicketView,
    name_type: der::Tlv,
    options: der::Tlv,
    authenticator: der::Tlv,
) -> der::Tlv {
    encoding::wrapped(
        ticket::AP_REQ_TAG,
        encoding::sequence(request_fields(said, name_type, options, authenticator)),
    )
}

/// Each of `fields` is under a tag from `[0]` to `[7]`.
spec fn are_fields(fields: Seq<der::Tlv>) -> bool {
    forall|i: int| 0 <= i < fields.len() ==> 0xa0 <= (#[trigger] fields[i]).tag <= 0xa7
}

/// The fields of a sequence that fits are short enough to be written.
proof fn lemma_fields_fit(fields: Seq<der::Tlv>)
    requires
        are_fields(fields),
        encoding::all_written(fields).len() <= u64::MAX,
    ensures
        encoding::all_writable(fields),
{
    encoding::lemma_context_tags();
    encoding::lemma_children_are_shorter(fields);
    assert forall|i: int| 0 <= i < fields.len() implies encoding::writable(
        #[trigger] fields[i],
    ) by {
        let tag = fields[i].tag;
        assert(tag & 0x1fu8 != 0x1fu8);
    }
}

/// What an element wraps is shorter than it.
proof fn lemma_inside_fits(inside: der::Tlv)
    ensures
        inside.content.len() < encoding::written(inside).len(),
{
}

/// The sealed part of a ticket is read back.
proof fn lemma_sealed_part_is_read_back(said: ticket::TicketView)
    requires
        sealed_part(said).content.len() <= u64::MAX,
    ensures
        ({
            let content = sealed_part(said).content;
            &&& ticket::encryption_type_in(content) == Ok::<u32, Seq<char>>(said.encryption_type)
            &&& ticket::key_version_in(content) == Ok::<Option<u32>, Seq<char>>(said.key_version)
            &&& der::required_of(content, 2, "cipher in its ticket"@) == Ok::<
                der::Tlv,
                Seq<char>,
            >(octet_string(said.cipher))
        }),
{
    encoding::lemma_context_tags();
    let fields = sealed_fields(said);
    lemma_fields_fit(fields);
    encoding::law_an_integer_is_read_back(said.encryption_type);
    encoding::law_a_field_is_read_back(
        fields,
        0,
        0,
        encoding::integer(said.encryption_type as nat),
    );
    let cipher = octet_string(said.cipher);
    lemma_inside_fits(cipher);
    match said.key_version {
        Some(version) => {
            encoding::law_an_integer_is_read_back(version);
            encoding::law_a_field_is_read_back(fields, 1, 1, encoding::integer(version as nat));
            assert(encoding::writable(fields[2]));
            encoding::law_a_field_is_read_back(fields, 2, 2, cipher);
        },
        None => {
            encoding::law_a_field_is_read_back(fields, 1, 2, cipher);
            assert(encoding::writable(fields[1]));
            encoding::law_a_field_is_read_back(fields, 2, 1, cipher);
        },
    }
}

/// A ticket as it can be written: it has a service and a realm.
pub open spec fn is_mintable(said: ticket::TicketView) -> bool {
    &&& said.service.len() > 0
    &&& said.realm.len() > 0
}

/// No component holds the `/` that would cut it in two.
pub open spec fn are_uncut(components: Seq<Seq<char>>) -> bool {
    forall|i: int| 0 <= i < components.len() ==> !(#[trigger] components[i]).contains('/')
}

/// The components as they are read: cut at every `/` that one holds.
pub open spec fn as_read(components: Seq<Seq<char>>) -> Seq<Seq<char>> {
    text::split_at_slashes(text::joined(components))
}

/// The ticket as it is read: its service cut at every `/` that a component
/// holds.
pub open spec fn ticket_as_read(said: ticket::TicketView) -> ticket::TicketView {
    ticket::TicketView {
        service: as_read(said.service),
        realm: said.realm,
        encryption_type: said.encryption_type,
        key_version: said.key_version,
        cipher: said.cipher,
    }
}

/// Components are written as the same principal once they are read, and are
/// the same components where none holds a `/`.
pub proof fn law_components_as_read_are_the_same_principal(
    components: Seq<Seq<char>>,
    realm: Seq<char>,
)
    ensures
        text::at_realm(as_read(components), realm) == text::at_realm(components, realm),
        components.len() > 0 && are_uncut(components) ==> as_read(components) == components,
{
    text::law_split_is_undone_by_join(text::joined(components));
    if components.len() > 0 && are_uncut(components) {
        text::law_join_is_undone_by_split(components);
    }
}

/// The fields of a ticket are read back.
proof fn lemma_ticket_is_read_back(said: ticket::TicketView, name_type: der::Tlv)
    requires
        is_mintable(said),
        encoding::writable(name_type),
        encoding::all_written(ticket_fields(said, name_type)).len() <= u64::MAX,
    ensures
        ticket::ticket_said(encoding::all_written(ticket_fields(said, name_type))) == Ok::<
            ticket::TicketView,
            Seq<char>,
        >(ticket_as_read(said)),
{
    encoding::lemma_context_tags();
    let fields = ticket_fields(said, name_type);
    lemma_fields_fit(fields);
    let realm = encoding::general_string(said.realm);
    let name = encoding::principal_name(name_type, said.service);
    let sealed = sealed_part(said);
    assert(encoding::writable(fields[1]) && encoding::writable(fields[2]) && encoding::writable(
        fields[3],
    ));
    lemma_inside_fits(realm);
    lemma_inside_fits(name);
    lemma_inside_fits(sealed);
    encoding::law_a_field_is_read_back(fields, 1, 1, realm);
    encoding::law_a_text_is_read_back(said.realm);
    encoding::law_a_field_is_read_back(fields, 2, 2, name);
    encoding::law_a_principal_name_is_its_components_joined(name_type, said.service);
    encoding::law_a_field_is_read_back(fields, 3, 3, sealed);
    lemma_sealed_part_is_read_back(said);
}

/// The ticket an AP-REQ carries is read back from it: for the same service
/// principal, and the same ticket where no component of the service holds a
/// `/`.
pub proof fn law_the_ticket_of_an_ap_req_is_read_back(
    said: ticket::TicketView,
    name_type: der::Tlv,
    options: der::Tlv,
    authenticator: der::Tlv,
)
    requires
        is_mintable(said),
        encoding::writable(name_type),
        encoding::writable(ap_req(said, name_type, options, authenticator)),
    ensures
        ({
            let message = encoding::written(ap_req(said, name_type, options, authenticator));
            let read = ticket_as_read(said);
            &&& ticket::ticket_in(message) == Ok::<ticket::TicketView, Seq<char>>(read)
            &&& ticket::negotiated(message) == Ok::<Option<ticket::TicketView>, Seq<char>>(
                Some(read),
            )
            &&& read.service_principal() == said.service_principal()
            &&& are_uncut(said.service) ==> read == said
        }),
{
    encoding::lemma_context_tags();
    let fields = request_fields(said, name_type, options, authenticator);
    let outer = ap_req(said, name_type, options, authenticator);
    let request = encoding::sequence(fields);
    let message = encoding::written(outer);
    lemma_inside_fits(request);
    lemma_fields_fit(fields);
    let element = ticket_element(said, name_type);
    let inside = encoding::sequence(ticket_fields(said, name_type));
    assert(encoding::writable(fields[3]));
    lemma_inside_fits(element);
    lemma_inside_fits(inside);
    encoding::law_an_expected_element_is_read_back(outer, "an AP-REQ"@);
    encoding::law_an_expected_element_is_read_back(request, "an AP-REQ"@);
    encoding::law_an_integer_is_read_back(5);
    encoding::law_an_integer_is_read_back(14);
    encoding::law_a_field_is_read_back(fields, 0, 0, encoding::integer(5));
    encoding::law_a_field_is_read_back(fields, 1, 1, encoding::integer(14));
    encoding::law_a_field_is_read_back(fields, 3, 3, element);
    encoding::law_an_expected_element_is_read_back(inside, "a Ticket"@);
    lemma_ticket_is_read_back(said, name_type);
    law_components_as_read_are_the_same_principal(said.service, said.realm);
    lemma_not_ntlm(message);
    encoding::law_an_element_is_read_back(outer, Seq::empty());
    assert(encoding::written(outer) + Seq::empty() =~= message);
}

/// What starts with a tag above `N` is no NTLM message.
proof fn lemma_not_ntlm(token: Seq<u8>)
    requires
        token.len() > 0,
        token[0] != 0x4e,
    ensures
        !bits::begins(token, ticket::NTLMSSP@),
{
    if bits::begins(token, ticket::NTLMSSP@) {
        assert(token.take(8)[0] == ticket::NTLMSSP@[0]);
    }
}

/// A GSS-API token of the Kerberos mechanism that `oid` names, with an AP-REQ
/// behind the RFC 4121 token id.
pub open spec fn gss_token(oid: Seq<u8>, message: Seq<u8>) -> der::Tlv {
    der::Tlv {
        tag: ticket::GSS_TAG,
        content: encoding::tlv(der::OID, oid) + ticket::TOKEN_AP_REQ@ + message,
    }
}

/// The ticket of a GSS-API token is that of the AP-REQ in it.
pub proof fn law_a_gss_token_is_unwrapped(oid: Seq<u8>, message: Seq<u8>)
    requires
        oid == ticket::KERBEROS@ || oid == ticket::KERBEROS_LEGACY@,
        encoding::writable(gss_token(oid, message)),
    ensures
        ticket::unwrapped(encoding::written(gss_token(oid, message))) == Ok::<
            ticket::UnwrappedView,
            Seq<char>,
        >(ticket::UnwrappedView::Request { message }),
        ticket::negotiated(encoding::written(gss_token(oid, message))) == match ticket::ticket_in(
            message,
        ) {
            Ok(said) => Ok::<Option<ticket::TicketView>, Seq<char>>(Some(said)),
            Err(why) => Err(why),
        },
{
    let outer = gss_token(oid, message);
    let token = encoding::written(outer);
    let inner = ticket::TOKEN_AP_REQ@ + message;
    lemma_not_ntlm(token);
    encoding::law_an_element_is_read_back(outer, Seq::empty());
    assert(token + Seq::empty() =~= token);
    let mechanism = der::Tlv { tag: der::OID, content: oid };
    assert(der::OID & 0x1fu8 != 0x1fu8) by (bit_vector);
    encoding::law_an_element_is_read_back(mechanism, inner);
    assert(outer.content =~= encoding::written(mechanism) + inner);
    assert(oid != ticket::SPNEGO@) by {
        assert(oid.len() == 9);
        assert(ticket::SPNEGO@.len() == 6);
    }
    assert(inner.take(2) =~= ticket::TOKEN_AP_REQ@);
    assert(inner.skip(2) =~= message);
}

/// A SPNEGO message whose mechanism token is `token`.
pub open spec fn negotiation(token: Seq<u8>) -> der::Tlv {
    encoding::sequence(seq![encoding::field(2, octet_string(token))])
}

/// A GSS-API token with a `NegTokenInit` in it.
pub open spec fn neg_token_init(token: Seq<u8>) -> der::Tlv {
    der::Tlv {
        tag: ticket::GSS_TAG,
        content: encoding::tlv(der::OID, ticket::SPNEGO@) + encoding::written(
            encoding::field(0, negotiation(token)),
        ),
    }
}

/// A `NegTokenResp`.
pub open spec fn neg_token_resp(token: Seq<u8>) -> der::Tlv {
    encoding::field(1, negotiation(token))
}

/// The mechanism token of a SPNEGO message is read back.
proof fn lemma_mechanism_token_is_read_back(token: Seq<u8>)
    requires
        negotiation(token).content.len() <= u64::MAX,
    ensures
        ticket::mechanism_token(negotiation(token).content) == Ok::<
            ticket::UnwrappedView,
            Seq<char>,
        >(ticket::UnwrappedView::Token { token }),
{
    encoding::lemma_context_tags();
    let inside = octet_string(token);
    let fields = seq![encoding::field(2, inside)];
    lemma_fields_fit(fields);
    assert(encoding::writable(fields[0]));
    lemma_inside_fits(inside);
    encoding::law_a_field_is_read_back(fields, 2, 0, inside);
}

/// What a `NegTokenInit` carries is read as if it came on its own.
pub proof fn law_a_neg_token_init_is_unwrapped(token: Seq<u8>)
    requires
        encoding::writable(neg_token_init(token)),
    ensures
        ticket::negotiated(encoding::written(neg_token_init(token))) == ticket::negotiated(token),
{
    encoding::lemma_context_tags();
    let outer = neg_token_init(token);
    let whole = encoding::written(outer);
    lemma_not_ntlm(whole);
    encoding::law_an_element_is_read_back(outer, Seq::empty());
    assert(whole + Seq::empty() =~= whole);
    let mechanism = der::Tlv { tag: der::OID, content: ticket::SPNEGO@ };
    assert(der::OID & 0x1fu8 != 0x1fu8) by (bit_vector);
    let message = negotiation(token);
    let init = encoding::field(0, message);
    encoding::law_an_element_is_read_back(mechanism, encoding::written(init));
    assert(outer.content =~= encoding::written(mechanism) + encoding::written(init));
    lemma_inside_fits(init);
    lemma_inside_fits(message);
    encoding::law_an_expected_element_is_read_back(init, "a NegTokenInit"@);
    encoding::law_an_expected_element_is_read_back(message, "a NegTokenInit"@);
    lemma_mechanism_token_is_read_back(token);
}

/// What a `NegTokenResp` carries is read as if it came on its own.
pub proof fn law_a_neg_token_resp_is_unwrapped(token: Seq<u8>)
    requires
        encoding::writable(neg_token_resp(token)),
    ensures
        ticket::negotiated(encoding::written(neg_token_resp(token))) == ticket::negotiated(token),
{
    encoding::lemma_context_tags();
    let outer = neg_token_resp(token);
    let whole = encoding::written(outer);
    lemma_not_ntlm(whole);
    encoding::law_an_element_is_read_back(outer, Seq::empty());
    assert(whole + Seq::empty() =~= whole);
    let message = negotiation(token);
    lemma_inside_fits(message);
    encoding::law_an_expected_element_is_read_back(message, "a NegTokenResp"@);
    lemma_mechanism_token_is_read_back(token);
}

/// What an `EncTicketPart` is written from: its realm, its client's
/// components, and its times in the bytes of a `KerberosTime`.
pub struct Minted {
    pub client_realm: Seq<char>,
    pub client: Seq<Seq<char>>,
    pub authtime: Seq<u8>,
    pub starttime: Option<Seq<u8>>,
    pub endtime: Seq<u8>,
}

impl Minted {
    /// There is a client, and each time is one.
    pub open spec fn is_mintable(self) -> bool {
        &&& self.client.len() > 0
        &&& calendar::seconds_written(self.authtime) is Some
        &&& self.starttime matches Some(starttime) ==> calendar::seconds_written(starttime) is Some
        &&& calendar::seconds_written(self.endtime) is Some
    }

    /// What it says once it is read.
    pub open spec fn said(self) -> enc_ticket_part::EncTicketPartView {
        enc_ticket_part::EncTicketPartView {
            client_realm: self.client_realm,
            client: as_read(self.client),
            start: match self.starttime {
                Some(starttime) => calendar::seconds_written(starttime)->0,
                None => calendar::seconds_written(self.authtime)->0,
            },
            end: calendar::seconds_written(self.endtime)->0,
        }
    }
}

/// A `KerberosTime` of `content`.
pub open spec fn kerberos_time(content: Seq<u8>) -> der::Tlv {
    der::Tlv { tag: der::GENERALIZED_TIME, content }
}

/// The fields of an `EncTicketPart` before its times: flags, session key,
/// client and transited realms.
pub open spec fn client_fields(
    minted: Minted,
    name_type: der::Tlv,
    flags: der::Tlv,
    key: der::Tlv,
    transited: der::Tlv,
) -> Seq<der::Tlv> {
    seq![
        encoding::field(0, flags),
        encoding::field(1, key),
        encoding::field(2, encoding::general_string(minted.client_realm)),
        encoding::field(3, encoding::principal_name(name_type, minted.client)),
        encoding::field(4, transited),
    ]
}

/// The times of an `EncTicketPart`.
pub open spec fn time_fields(minted: Minted) -> Seq<der::Tlv> {
    let authtime = encoding::field(5, kerberos_time(minted.authtime));
    let endtime = encoding::field(7, kerberos_time(minted.endtime));
    match minted.starttime {
        Some(starttime) => seq![authtime, encoding::field(6, kerberos_time(starttime)), endtime],
        None => seq![authtime, endtime],
    }
}

/// An `EncTicketPart`.
pub open spec fn enc_part(
    minted: Minted,
    name_type: der::Tlv,
    flags: der::Tlv,
    key: der::Tlv,
    transited: der::Tlv,
) -> der::Tlv {
    encoding::wrapped(
        enc_ticket_part::ENC_TICKET_PART_TAG,
        encoding::sequence(
            client_fields(minted, name_type, flags, key, transited) + time_fields(minted),
        ),
    )
}

/// A field that is a `KerberosTime` is read back.
proof fn lemma_time_is_read_back(fields: Seq<der::Tlv>, number: u8, at: int, time: Seq<u8>)
    requires
        encoding::all_writable(fields),
        0 <= at < fields.len(),
        forall|j: int| 0 <= j < at ==> (#[trigger] fields[j]).tag != 0xa0u8 | number,
        fields[at] == encoding::field(number, kerberos_time(time)),
        calendar::seconds_written(time) is Some,
    ensures
        der::field_of(encoding::all_written(fields), number) == Ok::<
            Option<der::Tlv>,
            Seq<char>,
        >(Some(kerberos_time(time))),
{
    encoding::lemma_context_tags();
    encoding::law_a_field_is_read_back(fields, number, at, kerberos_time(time));
}

/// The fields of an `EncTicketPart` are read back.
proof fn lemma_part_is_read_back(
    minted: Minted,
    name_type: der::Tlv,
    flags: der::Tlv,
    key: der::Tlv,
    transited: der::Tlv,
)
    requires
        minted.is_mintable(),
        encoding::writable(name_type),
        encoding::all_written(
            client_fields(minted, name_type, flags, key, transited) + time_fields(minted),
        ).len() <= u64::MAX,
    ensures
        enc_ticket_part::part_said(
            encoding::all_written(
                client_fields(minted, name_type, flags, key, transited) + time_fields(minted),
            ),
        ) == Ok::<enc_ticket_part::EncTicketPartView, Seq<char>>(minted.said()),
{
    encoding::lemma_context_tags();
    let fields = client_fields(minted, name_type, flags, key, transited) + time_fields(minted);
    lemma_fields_fit(fields);
    let realm = encoding::general_string(minted.client_realm);
    let name = encoding::principal_name(name_type, minted.client);
    assert(encoding::writable(fields[2]) && encoding::writable(fields[3]));
    lemma_inside_fits(realm);
    lemma_inside_fits(name);
    encoding::law_a_field_is_read_back(fields, 2, 2, realm);
    encoding::law_a_text_is_read_back(minted.client_realm);
    encoding::law_a_field_is_read_back(fields, 3, 3, name);
    encoding::law_a_principal_name_is_its_components_joined(name_type, minted.client);
    lemma_time_is_read_back(fields, 5, 5, minted.authtime);
    match minted.starttime {
        Some(starttime) => {
            lemma_time_is_read_back(fields, 6, 6, starttime);
            lemma_time_is_read_back(fields, 7, 7, minted.endtime);
        },
        None => {
            assert(fields.len() == 7);
            encoding::law_a_field_is_read_back(fields, 6, 7, realm);
            lemma_time_is_read_back(fields, 7, 6, minted.endtime);
        },
    }
}

/// The client and the window an `EncTicketPart` names are read back from it:
/// the same client principal, and the same components where none holds a `/`.
pub proof fn law_an_enc_ticket_part_is_read_back(
    minted: Minted,
    name_type: der::Tlv,
    flags: der::Tlv,
    key: der::Tlv,
    transited: der::Tlv,
)
    requires
        minted.is_mintable(),
        encoding::writable(name_type),
        encoding::writable(enc_part(minted, name_type, flags, key, transited)),
    ensures
        enc_ticket_part::part_in(
            encoding::written(enc_part(minted, name_type, flags, key, transited)),
        ) == Ok::<enc_ticket_part::EncTicketPartView, Seq<char>>(minted.said()),
        minted.said().client_principal() == text::at_realm(minted.client, minted.client_realm),
        are_uncut(minted.client) ==> minted.said().client == minted.client,
{
    law_components_as_read_are_the_same_principal(minted.client, minted.client_realm);
    encoding::lemma_context_tags();
    let outer = enc_part(minted, name_type, flags, key, transited);
    let fields = client_fields(minted, name_type, flags, key, transited) + time_fields(minted);
    let part = encoding::sequence(fields);
    lemma_inside_fits(part);
    encoding::law_an_expected_element_is_read_back(outer, "an EncTicketPart"@);
    encoding::law_an_expected_element_is_read_back(part, "an EncTicketPart"@);
    lemma_part_is_read_back(minted, name_type, flags, key, transited);
}

} // verus!
