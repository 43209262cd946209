//! The AP-REQ's ticket, in the clear.
//!
//! [`Ticket`] is what an AP-REQ says without a key: whom the ticket is for,
//! the realm that issued it, and the encryption type, key version and cipher
//! of its sealed part (RFC 4120 sections 5.5.1 and 5.3). The `Negotiate`
//! wrappings — GSS-API, SPNEGO, the RFC 4121 token id — are unwrapped to
//! reach it. What the cipher holds once the node's key opens it is
//! [`EncTicketPart`].
use crate::bits;
use crate::der;
use crate::der::{Element, Required};
pub use crate::enc_ticket_part::EncTicketPart;
use crate::error::AuthenticateError;
use crate::text;
use vstd::prelude::*;
use vstd::slice::*;
use vstd::string::*;

verus! {

/// 1.3.6.1.5.5.2, SPNEGO.
pub const SPNEGO: [u8; 6] = [0x2b, 0x06, 0x01, 0x05, 0x05, 0x02];

/// 1.2.840.113554.1.2.2, Kerberos 5.
pub const KERBEROS: [u8; 9] = [0x2a, 0x86, 0x48, 0x86, 0xf7, 0x12, 0x01, 0x02, 0x02];

/// 1.2.840.48018.1.2.2, the Kerberos 5 OID older Windows clients send.
pub const KERBEROS_LEGACY: [u8; 9] = [0x2a, 0x86, 0x48, 0x82, 0xf7, 0x12, 0x01, 0x02, 0x02];

/// What an NTLM message starts with; `Negotiate` carries those too.
pub const NTLMSSP: [u8; 8] = [0x4e, 0x54, 0x4c, 0x4d, 0x53, 0x53, 0x50, 0x00];

/// RFC 4121 section 4.1: the token id of an AP-REQ.
pub const TOKEN_AP_REQ: [u8; 2] = [0x01, 0x00];

/// The `msg-type` of an AP-REQ, and the number of its application tag.
pub const AP_REQ: u8 = 14;

/// The tag of an AP-REQ: `[APPLICATION 14]`.
pub const AP_REQ_TAG: u8 = 0x6e;

/// The tag of a `Ticket`: `[APPLICATION 1]`.
pub const TICKET_TAG: u8 = 0x61;

/// The tag of a GSS-API token: `[APPLICATION 0]`.
pub const GSS_TAG: u8 = 0x60;

/// The tag of a SPNEGO `NegTokenInit`: `[0]`.
pub const NEG_TOKEN_INIT_TAG: u8 = 0xa0;

/// The tag of a SPNEGO `NegTokenResp`: `[1]`.
pub const NEG_TOKEN_RESP_TAG: u8 = 0xa1;

/// A service ticket as it arrives, sealed part unread.
#[derive(Clone, Debug, Eq, PartialEq)]
pub struct Ticket {
    /// The service principal's components: `HTTP`, `xmip.example`.
    pub service: Vec<String>,
    /// The realm that issued the ticket.
    pub realm: String,
    /// The encryption type of the sealed part; 18 is the one opened here.
    pub encryption_type: u32,
    /// The version of the service key the ticket is sealed under, where the
    /// KDC named one.
    pub key_version: Option<u32>,
    /// The sealed `enc-part` cipher, for the node's key to open.
    pub cipher: Vec<u8>,
}

/// What a [`Ticket`] says.
pub struct TicketView {
    pub service: Seq<Seq<char>>,
    pub realm: Seq<char>,
    pub encryption_type: u32,
    pub key_version: Option<u32>,
    pub cipher: Seq<u8>,
}

impl View for Ticket {
    type V = TicketView;

    open spec fn view(&self) -> TicketView {
        TicketView {
            service: text::texts(self.service@),
            realm: self.realm@,
            encryption_type: self.encryption_type,
            key_version: self.key_version,
            cipher: self.cipher@,
        }
    }
}

impl TicketView {
    /// The service principal as Kerberos writes one.
    pub open spec fn service_principal(self) -> Seq<char> {
        text::at_realm(self.service, self.realm)
    }
}

/// The number an element writes, where there is an element.
pub open spec fn number_in(element: Option<der::Tlv>) -> Option<int> {
    match element {
        Some(element) => der::integer_of(element),
        None => None,
    }
}

/// What is said of an AP-REQ of another version or type.
pub open spec fn not_an_ap_req() -> Seq<char> {
    "the AP-REQ is not Kerberos 5 message type 14"@
}

/// The content of the `Ticket` an AP-REQ carries.
pub open spec fn carried_ticket(message: Seq<u8>) -> Result<Seq<u8>, Seq<char>> {
    match der::expected(message, AP_REQ_TAG, "an AP-REQ"@) {
        Err(why) => Err(why),
        Ok(outer) => match der::expected(outer.content, der::SEQUENCE, "an AP-REQ"@) {
            Err(why) => Err(why),
            Ok(request) => ticket_in_request(request.content),
        },
    }
}

/// The content of the `Ticket` the fields of an AP-REQ hold.
pub open spec fn ticket_in_request(request: Seq<u8>) -> Result<Seq<u8>, Seq<char>> {
    match (der::field_of(request, 0), der::field_of(request, 1)) {
        (Err(why), _) => Err(why),
        (Ok(_), Err(why)) => Err(why),
        (Ok(version), Ok(kind)) => if number_in(version) != Some(5int) || number_in(kind) != Some(
            AP_REQ as int,
        ) {
            Err(not_an_ap_req())
        } else {
            match der::required_of(request, 3, "ticket"@) {
                Err(why) => Err(why),
                Ok(ticket) => if ticket.tag != TICKET_TAG {
                    Err("the AP-REQ's ticket is not a Ticket"@)
                } else {
                    match der::expected(ticket.content, der::SEQUENCE, "a Ticket"@) {
                        Err(why) => Err(why),
                        Ok(ticket) => Ok(ticket.content),
                    }
                },
            }
        },
    }
}

/// The realm of a `Ticket`, which has to be some text.
pub open spec fn realm_in(ticket: Seq<u8>) -> Result<Seq<char>, Seq<char>> {
    match der::required_of(ticket, 1, "realm in its ticket"@) {
        Err(why) => Err(why),
        Ok(realm) => match der::text_of(realm) {
            Some(realm) => if realm.len() > 0 {
                Ok(realm)
            } else {
                Err("the ticket's realm is not readable"@)
            },
            None => Err("the ticket's realm is not readable"@),
        },
    }
}

/// The service name of a `Ticket`, its components joined by `/`.
pub open spec fn service_in(ticket: Seq<u8>) -> Result<Seq<char>, Seq<char>> {
    match der::required_of(ticket, 2, "service name in its ticket"@) {
        Err(why) => Err(why),
        Ok(name) => der::principal_of(name.content),
    }
}

/// The encryption type of a sealed part.
pub open spec fn encryption_type_in(sealed: Seq<u8>) -> Result<u32, Seq<char>> {
    match der::required_of(sealed, 0, "encryption type on its ticket"@) {
        Err(why) => Err(why),
        Ok(kind) => match der::integer_of(kind) {
            Some(kind) => Ok(kind as u32),
            None => Err("the ticket's encryption type is not read"@),
        },
    }
}

/// The key version of a sealed part, where it names one that is read.
pub open spec fn key_version_in(sealed: Seq<u8>) -> Result<Option<u32>, Seq<char>> {
    match der::field_of(sealed, 1) {
        Err(why) => Err(why),
        Ok(version) => match number_in(version) {
            Some(version) => Ok(Some(version as u32)),
            None => Ok(None),
        },
    }
}

/// What the fields of a `Ticket` say.
pub open spec fn ticket_said(ticket: Seq<u8>) -> Result<TicketView, Seq<char>> {
    match (realm_in(ticket), service_in(ticket)) {
        (Err(why), _) => Err(why),
        (Ok(_), Err(why)) => Err(why),
        (Ok(realm), Ok(service)) => match der::required_of(
            ticket,
            3,
            "sealed part in its ticket"@,
        ) {
            Err(why) => Err(why),
            Ok(sealed) => match (
                encryption_type_in(sealed.content),
                key_version_in(sealed.content),
                der::required_of(sealed.content, 2, "cipher in its ticket"@),
            ) {
                (Err(why), _, _) => Err(why),
                (Ok(_), Err(why), _) => Err(why),
                (Ok(_), Ok(_), Err(why)) => Err(why),
                (Ok(encryption_type), Ok(key_version), Ok(cipher)) => Ok(
                    TicketView {
                        service: text::split_at_slashes(service),
                        realm,
                        encryption_type,
                        key_version,
                        cipher: cipher.content,
                    },
                ),
            },
        },
    }
}

/// What the ticket of a bare AP-REQ says.
pub open spec fn ticket_in(message: Seq<u8>) -> Result<TicketView, Seq<char>> {
    match carried_ticket(message) {
        Err(why) => Err(why),
        Ok(ticket) => ticket_said(ticket),
    }
}

/// What one wrapping of a `Negotiate` token holds.
pub enum UnwrappedView {
    /// Nothing of Kerberos's.
    Foreign,
    /// An AP-REQ.
    Request { message: Seq<u8> },
    /// Another `Negotiate` token.
    Token { token: Seq<u8> },
}

/// What one wrapping of a `Negotiate` token holds.
pub enum Unwrapped<'a> {
    /// Nothing of Kerberos's.
    Foreign,
    /// An AP-REQ.
    Request { message: &'a [u8] },
    /// Another `Negotiate` token.
    Token { token: &'a [u8] },
}

impl<'a> View for Unwrapped<'a> {
    type V = UnwrappedView;

    open spec fn view(&self) -> UnwrappedView {
        match self {
            Unwrapped::Foreign => UnwrappedView::Foreign,
            Unwrapped::Request { message } => UnwrappedView::Request { message: message@ },
            Unwrapped::Token { token } => UnwrappedView::Token { token: token@ },
        }
    }
}

/// What field `[2]` of a SPNEGO message, its mechanism token, holds.
pub open spec fn mechanism_token(message: Seq<u8>) -> Result<UnwrappedView, Seq<char>> {
    match der::field_of(message, 2) {
        Err(why) => Err(why),
        Ok(None) => Ok(UnwrappedView::Foreign),
        Ok(Some(token)) => if token.tag == der::OCTET_STRING {
            Ok(UnwrappedView::Token { token: token.content })
        } else {
            Err("the SPNEGO mechanism token is not an OCTET STRING"@)
        },
    }
}

/// What a GSS-API token of this content holds.
pub open spec fn gss_token(content: Seq<u8>) -> Result<UnwrappedView, Seq<char>> {
    match der::element_at(content) {
        Err(why) => Err(why),
        Ok((mechanism, inner)) => if mechanism.tag != der::OID {
            Err("the GSS-API token does not start with a mechanism OID"@)
        } else if mechanism.content == SPNEGO@ {
            match der::expected(inner, NEG_TOKEN_INIT_TAG, "a NegTokenInit"@) {
                Err(why) => Err(why),
                Ok(init) => match der::expected(init.content, der::SEQUENCE, "a NegTokenInit"@) {
                    Err(why) => Err(why),
                    Ok(init) => mechanism_token(init.content),
                },
            }
        } else if mechanism.content == KERBEROS@ || mechanism.content == KERBEROS_LEGACY@ {
            if bits::begins(inner, TOKEN_AP_REQ@) {
                Ok(UnwrappedView::Request { message: inner.skip(2) })
            } else {
                Err("the Kerberos token is not an AP-REQ: its token id is not 01 00"@)
            }
        } else {
            Err("the GSS-API token names a mechanism that is neither SPNEGO nor Kerberos"@)
        },
    }
}

/// What is said of a token with a tag no `Negotiate` token starts with.
pub open spec fn unknown_tag(tag: u8) -> Seq<char> {
    "the Negotiate token starts with tag "@ + text::hex(tag)
        + ", which is neither GSS-API, SPNEGO nor an AP-REQ"@
}

/// What the outermost wrapping of a `Negotiate` token holds.
pub open spec fn unwrapped(token: Seq<u8>) -> Result<UnwrappedView, Seq<char>> {
    if bits::begins(token, NTLMSSP@) {
        Ok(UnwrappedView::Foreign)
    } else {
        match der::element_at(token) {
            Err(why) => Err(why),
            Ok((outer, _)) => if outer.tag == GSS_TAG {
                gss_token(outer.content)
            } else if outer.tag == AP_REQ_TAG {
                Ok(UnwrappedView::Request { message: token })
            } else if outer.tag == NEG_TOKEN_RESP_TAG {
                match der::expected(outer.content, der::SEQUENCE, "a NegTokenResp"@) {
                    Err(why) => Err(why),
                    Ok(response) => mechanism_token(response.content),
                }
            } else {
                Err(unknown_tag(outer.tag))
            },
        }
    }
}

/// A field is shorter than the message it is in.
proof fn lemma_field_is_shorter(content: Seq<u8>, number: u8)
    ensures
        der::field_of(content, number) matches Ok(Some(inside)) ==> inside.content.len()
            < content.len(),
{
    if let Ok(children) = der::elements(content) {
        lemma_elements_are_shorter(content);
        lemma_first_is_one_of(children, 0xa0u8 | number);
        if let Some(wrapping) = der::first_tagged(children, 0xa0u8 | number) {
            der::law_an_element_is_shorter_than_its_bytes(wrapping.content);
        }
    }
}

proof fn lemma_elements_are_shorter(content: Seq<u8>)
    ensures
        der::elements(content) matches Ok(children) ==> forall|i: int|
            0 <= i < children.len() ==> (#[trigger] children[i]).content.len() < content.len(),
    decreases content.len(),
{
    if content.len() > 0 {
        der::law_an_element_is_shorter_than_its_bytes(content);
        if let Ok((first, rest)) = der::element_at(content) {
            lemma_elements_are_shorter(rest);
            if let Ok(others) = der::elements(rest) {
                let children = seq![first] + others;
                assert forall|i: int| 0 <= i < children.len() implies (
                #[trigger] children[i]).content.len() < content.len() by {
                    if i > 0 {
                        assert(children[i] == others[i - 1]);
                    }
                }
            }
        }
    }
}

proof fn lemma_first_is_one_of(children: Seq<der::Tlv>, tag: u8)
    ensures
        der::first_tagged(children, tag) matches Some(child) ==> children.contains(child),
    decreases children.len(),
{
    if children.len() > 0 {
        lemma_first_is_one_of(children.drop_first(), tag);
        if let Some(child) = der::first_tagged(children, tag) {
            if children[0].tag == tag {
                assert(children[0] == child);
            } else {
                let i = choose|i: int|
                    0 <= i < children.drop_first().len() && children.drop_first()[i] == child;
                assert(children[i + 1] == child);
            }
        }
    }
}

/// A `Negotiate` token inside another is shorter than it.
pub proof fn law_a_token_inside_is_shorter(token: Seq<u8>)
    ensures
        unwrapped(token) matches Ok(UnwrappedView::Token { token: inside }) ==> inside.len()
            < token.len(),
{
    der::law_an_element_is_shorter_than_its_bytes(token);
    if let Ok((outer, _)) = der::element_at(token) {
        der::law_an_element_is_shorter_than_its_bytes(outer.content);
        if let Ok((response, _)) = der::element_at(outer.content) {
            lemma_field_is_shorter(response.content, 2);
        }
        if let Ok((_, inner)) = der::element_at(outer.content) {
            der::law_an_element_is_shorter_than_its_bytes(inner);
            if let Ok((init, _)) = der::element_at(inner) {
                der::law_an_element_is_shorter_than_its_bytes(init.content);
                if let Ok((init, _)) = der::element_at(init.content) {
                    lemma_field_is_shorter(init.content, 2);
                }
            }
        }
    }
}

/// What the ticket of a `Negotiate` token says, where it carries one.
pub open spec fn negotiated(token: Seq<u8>) -> Result<Option<TicketView>, Seq<char>>
    decreases token.len(),
{
    match unwrapped(token) {
        Err(why) => Err(why),
        Ok(UnwrappedView::Foreign) => Ok(None),
        Ok(UnwrappedView::Request { message }) => match ticket_in(message) {
            Err(why) => Err(why),
            Ok(ticket) => Ok(Some(ticket)),
        },
        Ok(UnwrappedView::Token { token: inside }) => {
            proof {
                law_a_token_inside_is_shorter(token);
            }
            negotiated(inside)
        },
    }
}

/// What the mechanism token of a SPNEGO message holds.
fn from_mechanism_token<'a>(message: Element<'a>) -> (held: Result<
    Unwrapped<'a>,
    AuthenticateError,
>)
    ensures
        match held {
            Ok(held) => mechanism_token(message@.content) == Ok::<UnwrappedView, Seq<char>>(held@),
            Err(error) => mechanism_token(message@.content) == Err::<UnwrappedView, Seq<char>>(
                error@,
            ),
        },
{
    match message.field(2) {
        Err(error) => Err(error),
        Ok(None) => Ok(Unwrapped::Foreign),
        Ok(Some(token)) => if token.tag == der::OCTET_STRING {
            Ok(Unwrapped::Token { token: token.content })
        } else {
            Err(AuthenticateError::new("the SPNEGO mechanism token is not an OCTET STRING"))
        },
    }
}

/// What a GSS-API token holds.
fn from_gss<'a>(outer: Element<'a>) -> (held: Result<Unwrapped<'a>, AuthenticateError>)
    ensures
        match held {
            Ok(held) => gss_token(outer@.content) == Ok::<UnwrappedView, Seq<char>>(held@),
            Err(error) => gss_token(outer@.content) == Err::<UnwrappedView, Seq<char>>(error@),
        },
{
    let (mechanism, inner) = match Element::read(outer.content) {
        Ok(read) => read,
        Err(error) => {
            return Err(error);
        },
    };
    if mechanism.tag != der::OID {
        return Err(
            AuthenticateError::new("the GSS-API token does not start with a mechanism OID"),
        );
    }
    if bits::same(mechanism.content, SPNEGO.as_slice()) {
        let init = match Element::expect(inner, der::context(0), "a NegTokenInit") {
            Ok(init) => init,
            Err(error) => {
                return Err(error);
            },
        };
        match Element::expect(init.content, der::SEQUENCE, "a NegTokenInit") {
            Ok(init) => from_mechanism_token(init),
            Err(error) => Err(error),
        }
    } else if bits::same(mechanism.content, KERBEROS.as_slice()) || bits::same(
        mechanism.content,
        KERBEROS_LEGACY.as_slice(),
    ) {
        if bits::starts_with(inner, TOKEN_AP_REQ.as_slice()) {
            let message = slice_subrange(inner, 2, inner.len());
            assert(message@ =~= inner@.skip(2));
            Ok(Unwrapped::Request { message })
        } else {
            Err(
                AuthenticateError::new(
                    "the Kerberos token is not an AP-REQ: its token id is not 01 00",
                ),
            )
        }
    } else {
        Err(
            AuthenticateError::new(
                "the GSS-API token names a mechanism that is neither SPNEGO nor Kerberos",
            ),
        )
    }
}

/// What the outermost wrapping of a `Negotiate` token holds.
///
/// # Errors
///
/// Where the token is not DER, or names a mechanism that is neither SPNEGO nor
/// Kerberos.
pub fn unwrap_token<'a>(token: &'a [u8]) -> (held: Result<Unwrapped<'a>, AuthenticateError>)
    ensures
        match held {
            Ok(held) => unwrapped(token@) == Ok::<UnwrappedView, Seq<char>>(held@),
            Err(error) => unwrapped(token@) == Err::<UnwrappedView, Seq<char>>(error@),
        },
{
    if bits::starts_with(token, NTLMSSP.as_slice()) {
        return Ok(Unwrapped::Foreign);
    }
    let (outer, _) = match Element::read(token) {
        Ok(read) => read,
        Err(error) => {
            return Err(error);
        },
    };
    if outer.tag == der::application(0) {
        from_gss(outer)
    } else if outer.tag == der::application(AP_REQ) {
        Ok(Unwrapped::Request { message: token })
    } else if outer.tag == der::context(1) {
        match Element::expect(outer.content, der::SEQUENCE, "a NegTokenResp") {
            Ok(response) => from_mechanism_token(response),
            Err(error) => Err(error),
        }
    } else {
        let mut message: String = "the Negotiate token starts with tag ".to_owned();
        text::push_hex(&mut message, outer.tag);
        message.append(", which is neither GSS-API, SPNEGO nor an AP-REQ");
        Err(AuthenticateError { message })
    }
}

/// The number an element writes, where there is an element.
fn number<'a>(element: Option<Element<'a>>) -> (number: Option<u32>)
    ensures
        match (number, element) {
            (Some(number), Some(element)) => der::integer_of(element@) == Some(number as int),
            (None, Some(element)) => der::integer_of(element@) is None,
            (number, None) => number is None,
        },
{
    match element {
        Some(element) => element.integer(),
        None => None,
    }
}

/// The `Ticket` an AP-REQ carries.
fn carried<'a>(message: &'a [u8]) -> (ticket: Result<Element<'a>, AuthenticateError>)
    ensures
        match ticket {
            Ok(ticket) => carried_ticket(message@) == Ok::<Seq<u8>, Seq<char>>(ticket@.content),
            Err(error) => carried_ticket(message@) == Err::<Seq<u8>, Seq<char>>(error@),
        },
{
    let outer = match Element::expect(message, der::application(AP_REQ), "an AP-REQ") {
        Ok(outer) => outer,
        Err(error) => {
            return Err(error);
        },
    };
    let request = match Element::expect(outer.content, der::SEQUENCE, "an AP-REQ") {
        Ok(request) => request,
        Err(error) => {
            return Err(error);
        },
    };
    let version = match request.field(0) {
        Ok(version) => number(version),
        Err(error) => {
            return Err(error);
        },
    };
    let kind = match request.field(1) {
        Ok(kind) => number(kind),
        Err(error) => {
            return Err(error);
        },
    };
    if version != Some(5u32) || kind != Some(AP_REQ as u32) {
        return Err(AuthenticateError::new("the AP-REQ is not Kerberos 5 message type 14"));
    }
    let ticket = match request.required(3, "ticket") {
        Ok(ticket) => ticket,
        Err(error) => {
            return Err(error);
        },
    };
    if ticket.tag != der::application(1) {
        return Err(AuthenticateError::new("the AP-REQ's ticket is not a Ticket"));
    }
    Element::expect(ticket.content, der::SEQUENCE, "a Ticket")
}

impl Ticket {
    /// The service principal as Kerberos writes one: `HTTP/xmip.example@REALM`.
    #[must_use]
    pub fn service_principal(&self) -> (principal: String)
        ensures
            principal@ == self@.service_principal(),
    {
        text::written(&self.service, self.realm.as_str())
    }

    /// Read a `Negotiate` token to its AP-REQ ticket.
    ///
    /// `None` where the token is somebody else's — an NTLM message, or a
    /// SPNEGO continuation with no token in it.
    ///
    /// # Errors
    ///
    /// Where the token is not DER, names a mechanism that is neither SPNEGO
    /// nor Kerberos, or its AP-REQ or ticket cannot be read.
    pub fn from_negotiate(token: &[u8]) -> (ticket: Result<Option<Self>, AuthenticateError>)
        ensures
            match ticket {
                Ok(Some(ticket)) => negotiated(token@) == Ok::<Option<TicketView>, Seq<char>>(
                    Some(ticket@),
                ),
                Ok(None) => negotiated(token@) == Ok::<Option<TicketView>, Seq<char>>(None),
                Err(error) => negotiated(token@) == Err::<Option<TicketView>, Seq<char>>(error@),
            },
        decreases token@.len(),
    {
        proof {
            law_a_token_inside_is_shorter(token@);
        }
        match unwrap_token(token) {
            Err(error) => Err(error),
            Ok(Unwrapped::Foreign) => Ok(None),
            Ok(Unwrapped::Request { message }) => match Self::parse(message) {
                Ok(ticket) => Ok(Some(ticket)),
                Err(error) => Err(error),
            },
            Ok(Unwrapped::Token { token: inside }) => Self::from_negotiate(inside),
        }
    }

    /// Read a bare AP-REQ.
    ///
    /// # Errors
    ///
    /// Where the bytes are not a Kerberos 5 AP-REQ, or its ticket lacks a
    /// realm, a service name or a sealed part.
    pub fn parse(message: &[u8]) -> (ticket: Result<Self, AuthenticateError>)
        ensures
            match ticket {
                Ok(ticket) => ticket_in(message@) == Ok::<TicketView, Seq<char>>(ticket@),
                Err(error) => ticket_in(message@) == Err::<TicketView, Seq<char>>(error@),
            },
    {
        let ticket = match carried(message) {
            Ok(ticket) => ticket,
            Err(error) => {
                return Err(error);
            },
        };
        let realm = match ticket.required(1, "realm in its ticket") {
            Ok(realm) => match realm.text() {
                Some(realm) => realm,
                None => {
                    return Err(AuthenticateError::new("the ticket's realm is not readable"));
                },
            },
            Err(error) => {
                return Err(error);
            },
        };
        if realm.is_empty() {
            return Err(AuthenticateError::new("the ticket's realm is not readable"));
        }
        let service = match ticket.required(2, "service name in its ticket") {
            Ok(name) => match der::principal(name) {
                Ok(service) => service,
                Err(error) => {
                    return Err(error);
                },
            },
            Err(error) => {
                return Err(error);
            },
        };
        let sealed = match ticket.required(3, "sealed part in its ticket") {
            Ok(sealed) => sealed,
            Err(error) => {
                return Err(error);
            },
        };
        let encryption_type: u32 = match sealed.required(0, "encryption type on its ticket") {
            Ok(kind) => match kind.integer() {
                Some(kind) => kind,
                None => {
                    return Err(AuthenticateError::new("the ticket's encryption type is not read"));
                },
            },
            Err(error) => {
                return Err(error);
            },
        };
        let key_version = match sealed.field(1) {
            Ok(version) => number(version),
            Err(error) => {
                return Err(error);
            },
        };
        let cipher = match sealed.required(2, "cipher in its ticket") {
            Ok(cipher) => cipher,
            Err(error) => {
                return Err(error);
            },
        };
        Ok(
            Ticket {
                service: text::split(service.as_str()),
                realm: realm.to_owned(),
                encryption_type,
                key_version,
                cipher: slice_to_vec(cipher.content),
            },
        )
    }
}

} // verus!
