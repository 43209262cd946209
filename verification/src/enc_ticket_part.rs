//! What a ticket's cipher holds once the node's key opens it.
//!
//! An `EncTicketPart` (RFC 4120 section 5.3): the client principal the ticket
//! names and the window it is valid for.
use crate::der;
use crate::der::{Element, Required};
use crate::error::AuthenticateError;
use crate::text;
use vstd::prelude::*;

verus! {

/// The tag of an `EncTicketPart`: `[APPLICATION 3]`.
pub const ENC_TICKET_PART_TAG: u8 = 0x63;

/// What the ticket's cipher held once the node's key opened it.
#[derive(Clone, Debug, Eq, PartialEq)]
pub struct EncTicketPart {
    /// The realm the client belongs to.
    pub client_realm: String,
    /// The client principal's components.
    pub client: Vec<String>,
    /// When the ticket becomes valid: `starttime`, or `authtime` where there
    /// is no `starttime`, in seconds since the Unix epoch.
    pub start: i64,
    /// When the ticket stops being valid, in seconds since the Unix epoch.
    pub end: i64,
}

/// What an [`EncTicketPart`] says.
pub struct EncTicketPartView {
    pub client_realm: Seq<char>,
    pub client: Seq<Seq<char>>,
    pub start: int,
    pub end: int,
}

impl View for EncTicketPart {
    type V = EncTicketPartView;

    open spec fn view(&self) -> EncTicketPartView {
        EncTicketPartView {
            client_realm: self.client_realm@,
            client: text::texts(self.client@),
            start: self.start as int,
            end: self.end as int,
        }
    }
}

impl EncTicketPartView {
    /// The client principal as Kerberos writes one.
    pub open spec fn client_principal(self) -> Seq<char> {
        text::at_realm(self.client, self.client_realm)
    }
}

/// The client's realm.
pub open spec fn client_realm_in(part: Seq<u8>) -> Result<Seq<char>, Seq<char>> {
    match der::required_of(part, 2, "client realm"@) {
        Err(why) => Err(why),
        Ok(realm) => match der::text_of(realm) {
            Some(realm) => Ok(realm),
            None => Err("the ticket's client realm is not readable"@),
        },
    }
}

/// The client's name, its components joined by `/`.
pub open spec fn client_in(part: Seq<u8>) -> Result<Seq<char>, Seq<char>> {
    match der::required_of(part, 3, "client name"@) {
        Err(why) => Err(why),
        Ok(name) => der::principal_of(name.content),
    }
}

/// When the client was authenticated.
pub open spec fn authtime_in(part: Seq<u8>) -> Result<int, Seq<char>> {
    match der::required_of(part, 5, "authtime"@) {
        Err(why) => Err(why),
        Ok(time) => match der::time_of(time) {
            Some(time) => Ok(time),
            None => Err("the ticket's authtime is not a KerberosTime"@),
        },
    }
}

/// When the ticket starts to be valid, where it says so in a way that is
/// read.
pub open spec fn starttime_in(part: Seq<u8>) -> Result<Option<int>, Seq<char>> {
    match der::field_of(part, 6) {
        Err(why) => Err(why),
        Ok(None) => Ok(None),
        Ok(Some(time)) => Ok(der::time_of(time)),
    }
}

/// When the ticket stops being valid.
pub open spec fn endtime_in(part: Seq<u8>) -> Result<int, Seq<char>> {
    match der::required_of(part, 7, "endtime"@) {
        Err(why) => Err(why),
        Ok(time) => match der::time_of(time) {
            Some(time) => Ok(time),
            None => Err("the ticket's endtime is not a KerberosTime"@),
        },
    }
}

/// What the fields of an `EncTicketPart` say.
pub open spec fn part_said(part: Seq<u8>) -> Result<EncTicketPartView, Seq<char>> {
    match (
        client_realm_in(part),
        client_in(part),
        authtime_in(part),
        starttime_in(part),
        endtime_in(part),
    ) {
        (Err(why), _, _, _, _) => Err(why),
        (Ok(_), Err(why), _, _, _) => Err(why),
        (Ok(_), Ok(_), Err(why), _, _) => Err(why),
        (Ok(_), Ok(_), Ok(_), Err(why), _) => Err(why),
        (Ok(_), Ok(_), Ok(_), Ok(_), Err(why)) => Err(why),
        (Ok(client_realm), Ok(client), Ok(authtime), Ok(starttime), Ok(end)) => Ok(
            EncTicketPartView {
                client_realm,
                client: text::split_at_slashes(client),
                start: match starttime {
                    Some(starttime) => starttime,
                    None => authtime,
                },
                end,
            },
        ),
    }
}

/// What a decrypted `EncTicketPart` says.
pub open spec fn part_in(plaintext: Seq<u8>) -> Result<EncTicketPartView, Seq<char>> {
    match der::expected(plaintext, ENC_TICKET_PART_TAG, "an EncTicketPart"@) {
        Err(why) => Err(why),
        Ok(outer) => match der::expected(outer.content, der::SEQUENCE, "an EncTicketPart"@) {
            Err(why) => Err(why),
            Ok(part) => part_said(part.content),
        },
    }
}

impl EncTicketPart {
    /// The client principal as Kerberos writes one: `alice@REALM`.
    #[must_use]
    pub fn client_principal(&self) -> (principal: String)
        ensures
            principal@ == self@.client_principal(),
    {
        text::written(&self.client, self.client_realm.as_str())
    }

    /// Read a decrypted `EncTicketPart`.
    ///
    /// # Errors
    ///
    /// Where the bytes are not an `EncTicketPart`, or it lacks a client
    /// realm, a client name, an `authtime` or an `endtime`.
    pub fn parse(plaintext: &[u8]) -> (part: Result<Self, AuthenticateError>)
        ensures
            match part {
                Ok(part) => part_in(plaintext@) == Ok::<EncTicketPartView, Seq<char>>(part@),
                Err(error) => part_in(plaintext@) == Err::<EncTicketPartView, Seq<char>>(error@),
            },
    {
        let outer = match Element::expect(plaintext, der::application(3), "an EncTicketPart") {
            Ok(outer) => outer,
            Err(error) => {
                return Err(error);
            },
        };
        let part = match Element::expect(outer.content, der::SEQUENCE, "an EncTicketPart") {
            Ok(part) => part,
            Err(error) => {
                return Err(error);
            },
        };
        let client_realm = match part.required(2, "client realm") {
            Ok(realm) => match realm.text() {
                Some(realm) => realm,
                None => {
                    return Err(
                        AuthenticateError::new("the ticket's client realm is not readable"),
                    );
                },
            },
            Err(error) => {
                return Err(error);
            },
        };
        let client = match part.required(3, "client name") {
            Ok(name) => match der::principal(name) {
                Ok(client) => client,
                Err(error) => {
                    return Err(error);
                },
            },
            Err(error) => {
                return Err(error);
            },
        };
        let authtime: i64 = match part.required(5, "authtime") {
            Ok(time) => match time.time() {
                Some(time) => time,
                None => {
                    return Err(
                        AuthenticateError::new("the ticket's authtime is not a KerberosTime"),
                    );
                },
            },
            Err(error) => {
                return Err(error);
            },
        };
        let start: i64 = match part.field(6) {
            Ok(Some(time)) => match time.time() {
                Some(time) => time,
                None => authtime,
            },
            Ok(None) => authtime,
            Err(error) => {
                return Err(error);
            },
        };
        let end: i64 = match part.required(7, "endtime") {
            Ok(time) => match time.time() {
                Some(time) => time,
                None => {
                    return Err(
                        AuthenticateError::new("the ticket's endtime is not a KerberosTime"),
                    );
                },
            },
            Err(error) => {
                return Err(error);
            },
        };
        Ok(
            EncTicketPart {
                client_realm: client_realm.to_owned(),
                client: text::split(client.as_str()),
                start,
                end,
            },
        )
    }
}

} // verus!
