//! The authenticator: a presented ticket is opened with the node's keytab and held to
//! its window.
use crate::calendar;
use crate::clock;
use crate::clock::{Clock, FnClock, SystemClock};
use crate::crypto;
use crate::der;
use crate::enc_ticket_part;
use crate::enc_ticket_part::EncTicketPart;
use crate::encoding;
use crate::error::AuthenticateError;
use crate::keytab;
use crate::keytab::KeyEntry;
use crate::minting;
use crate::presented;
use crate::presented::{Mechanism, Presented, Verified};
use crate::text;
use crate::ticket;
use crate::ticket::Ticket;
use base64::engine::general_purpose::STANDARD;
use base64::Engine;
use vstd::prelude::*;
use vstd::string::*;

verus! {

/// The proof the AP-REQ, in base64, is presented under.
pub const AP_REQ_PROOF: &'static str = "kerberos.ap-req";

/// The bytes `text` is the standard, padded base64 of, where it is.
pub uninterp spec fn base64_bytes(text: Seq<char>) -> Option<Seq<u8>>;

/// Where and how a text is not base64.
#[verifier::external_type_specification]
#[verifier::external_body]
pub struct ExDecodeError(base64::DecodeError);

/// `Engine::decode` of the `base64` crate, with its `STANDARD` engine: the
/// bytes the text encodes, or an error where it encodes none.
#[verifier::external_body]
fn base64_decode(encoded: &str) -> (bytes: Result<Vec<u8>, base64::DecodeError>)
    ensures
        match bytes {
            Ok(bytes) => base64_bytes(encoded@) == Some(bytes@),
            Err(_) => base64_bytes(encoded@) is None,
        },
{
    STANDARD.decode(encoded)
}

/// What is said of a claim by another mechanism.
pub open spec fn other_mechanism(name: Seq<char>) -> Seq<char> {
    "'"@ + name + "' was presented and this authenticator verifies kerberos"@
}

/// What the ticket of a `Negotiate` token says; there has to be one.
pub open spec fn token_ticket(token: Seq<u8>) -> Result<ticket::TicketView, Seq<char>> {
    match ticket::negotiated(token) {
        Err(why) => Err(why),
        Ok(None) => Err("the Negotiate token carries no Kerberos ticket"@),
        Ok(Some(said)) => Ok(said),
    }
}

/// What the ticket that is presented says.
pub open spec fn presented_ticket(given: presented::PresentedView) -> Result<
    ticket::TicketView,
    Seq<char>,
> {
    if given.mechanism != "kerberos"@ {
        Err(other_mechanism(given.mechanism))
    } else {
        match presented::first_proof(given.proofs, AP_REQ_PROOF@) {
            None => Err("no "@ + AP_REQ_PROOF@ + " proof was presented"@),
            Some(encoded) => match base64_bytes(text::trimmed(encoded)) {
                None => Err("the AP-REQ is not base64"@),
                Some(token) => token_ticket(token),
            },
        }
    }
}

/// What is said of a ticket for another service than the claim.
pub open spec fn other_service(service: Seq<char>, claim: Seq<char>) -> Seq<char> {
    "the ticket is for '"@ + service + "' and the claim is '"@ + claim + "'"@
}

/// What is said of a ticket sealed in another way.
pub open spec fn other_encryption(encryption_type: u32) -> Seq<char> {
    "the ticket's encryption type is "@ + text::decimal(encryption_type as nat)
        + " and this node decrypts aes256-cts-hmac-sha1-96 (18) only"@
}

/// A key version, or that there is none, in words.
pub open spec fn version_shown(version: Option<u32>) -> Seq<char> {
    match version {
        Some(version) => "Some("@ + text::decimal(version as nat) + ")"@,
        None => "None"@,
    }
}

/// What is said of a ticket that no key of the node's is for.
pub open spec fn no_key(service: Seq<char>, version: Option<u32>) -> Seq<char> {
    "the node's keytab holds no key for '"@ + service + "' at version "@ + version_shown(version)
}

/// What a ticket seals, where it is for the claim and a key of the node's
/// opens it.
pub open spec fn ticket_opened(
    keys: Seq<keytab::KeyEntryView>,
    said: ticket::TicketView,
    claim: Seq<char>,
) -> Result<enc_ticket_part::EncTicketPartView, Seq<char>> {
    let service = said.service_principal();
    if service != claim {
        Err(other_service(service, claim))
    } else if said.encryption_type != crypto::AES256_CTS_HMAC_SHA1_96 {
        Err(other_encryption(said.encryption_type))
    } else {
        match keytab::first_opening(keys, service, said.key_version) {
            None => Err(no_key(service, said.key_version)),
            Some(key) => match crypto::opened(
                key.base_key,
                crypto::TICKET_KEY_USAGE,
                said.cipher,
            ) {
                Err(why) => Err(why),
                Ok(plaintext) => enc_ticket_part::part_in(plaintext),
            },
        }
    }
}

/// What a verifier goes by, besides its clock.
pub struct VerifierView {
    pub keytab: Seq<keytab::KeyEntryView>,
    pub leeway: int,
}

/// What the ticket that is presented seals.
pub open spec fn presented_opened(
    verifier: VerifierView,
    given: presented::PresentedView,
) -> Result<enc_ticket_part::EncTicketPartView, Seq<char>> {
    match presented_ticket(given) {
        Err(why) => Err(why),
        Ok(said) => ticket_opened(verifier.keytab, said, given.value),
    }
}

/// The nearest to `n` that sixty-four signed bits hold.
pub open spec fn saturated(n: int) -> int {
    if n < i64::MIN {
        i64::MIN as int
    } else if n > i64::MAX {
        i64::MAX as int
    } else {
        n
    }
}

/// Why a ticket is refused at `now` for its window, where it is.
pub open spec fn outside_window(
    part: enc_ticket_part::EncTicketPartView,
    leeway: int,
    now: int,
) -> Option<Seq<char>> {
    if saturated(now + leeway) < part.start {
        Some(
            "the ticket is not valid before "@ + text::signed(part.start) + " and it is "@
                + text::signed(now),
        )
    } else if saturated(now - leeway) > part.end {
        Some("the ticket expired at "@ + text::signed(part.end) + " and it is "@ + text::signed(now))
    } else {
        None
    }
}

/// The client an opened ticket names, where `now` is within its window.
pub open spec fn client_at(
    part: enc_ticket_part::EncTicketPartView,
    leeway: int,
    now: int,
) -> Result<Seq<char>, Seq<char>> {
    match outside_window(part, leeway, now) {
        Some(why) => Err(why),
        None => Ok(part.client_principal()),
    }
}

/// That an opened ticket proves the claim, where `now` is within its window.
pub open spec fn verified_at(
    part: enc_ticket_part::EncTicketPartView,
    leeway: int,
    now: int,
) -> Result<Verified, Seq<char>> {
    match outside_window(part, leeway, now) {
        Some(why) => Err(why),
        None => Ok(Verified::Proven),
    }
}

/// Whatever refuses to prove a ticket refuses to name its client, in the same
/// words, and nothing else does.
pub proof fn law_client_is_refused_as_the_proof_is(
    part: enc_ticket_part::EncTicketPartView,
    leeway: int,
    now: int,
)
    ensures
        verified_at(part, leeway, now) is Ok <==> client_at(part, leeway, now) is Ok,
        verified_at(part, leeway, now) is Err ==> client_at(part, leeway, now) is Err && verified_at(
            part,
            leeway,
            now,
        )->Err_0 == client_at(part, leeway, now)->Err_0,
{
}

/// With a leeway that is not negative, a ticket is refused for its window
/// exactly where `now` is more than the leeway before its start or after its
/// end.
pub proof fn law_the_window_is_the_tickets_and_the_leeway(
    part: enc_ticket_part::EncTicketPartView,
    leeway: i64,
    now: i64,
)
    requires
        0 <= leeway,
        i64::MIN <= part.start <= i64::MAX,
        i64::MIN <= part.end <= i64::MAX,
    ensures
        outside_window(part, leeway as int, now as int) is None <==> part.start - leeway <= now
            <= part.end + leeway,
{
}

/// More leeway refuses nothing that less leeway lets pass.
pub proof fn law_more_leeway_refuses_no_more(
    part: enc_ticket_part::EncTicketPartView,
    less: int,
    more: int,
    now: int,
)
    requires
        less <= more,
    ensures
        outside_window(part, less, now) is None ==> outside_window(part, more, now) is None,
{
}

/// A ticket that opens is for the claim, is sealed as this node decrypts, and
/// is what the first key of the keytab for its service and version opens.
pub proof fn law_an_opened_ticket_is_the_claims(
    keys: Seq<keytab::KeyEntryView>,
    said: ticket::TicketView,
    claim: Seq<char>,
)
    ensures
        ticket_opened(keys, said, claim) matches Ok(part) ==> {
            &&& said.service_principal() == claim
            &&& said.encryption_type == crypto::AES256_CTS_HMAC_SHA1_96
            &&& exists|i: int|
                {
                    &&& 0 <= i < keys.len()
                    &&& (#[trigger] keys[i]).opens(claim, said.key_version)
                    &&& crypto::opened(
                        keys[i].base_key,
                        crypto::TICKET_KEY_USAGE,
                        said.cipher,
                    ) matches Ok(plaintext)
                    &&& enc_ticket_part::part_in(plaintext) == Ok::<
                        enc_ticket_part::EncTicketPartView,
                        Seq<char>,
                    >(part)
                }
        },
{
    keytab::law_the_first_key_that_opens_is_found(keys, claim, said.key_version);
}

/// A ticket sealed under the key the keytab holds for it opens, to what was
/// sealed.
pub proof fn law_a_ticket_sealed_under_the_service_key_opens(
    keys: Seq<keytab::KeyEntryView>,
    said: ticket::TicketView,
    key: keytab::KeyEntryView,
)
    requires
        said.encryption_type == crypto::AES256_CTS_HMAC_SHA1_96,
        keytab::first_opening(keys, said.service_principal(), said.key_version) == Some(key),
    ensures
        crypto::opened(key.base_key, crypto::TICKET_KEY_USAGE, said.cipher) matches Ok(plaintext)
            ==> ticket_opened(keys, said, said.service_principal()) == enc_ticket_part::part_in(
            plaintext,
        ),
{
}

/// The surroundings of a ticket and of what it seals, which say nothing that
/// is read here.
pub struct Unread {
    pub service_name_type: der::Tlv,
    pub options: der::Tlv,
    pub authenticator: der::Tlv,
    pub client_name_type: der::Tlv,
    pub flags: der::Tlv,
    pub session_key: der::Tlv,
    pub transited: der::Tlv,
}

/// The AP-REQ that carries the ticket.
pub open spec fn request_minted(said: ticket::TicketView, unread: Unread) -> der::Tlv {
    minting::ap_req(said, unread.service_name_type, unread.options, unread.authenticator)
}

/// The `EncTicketPart` that the ticket seals.
pub open spec fn part_minted(minted: minting::Minted, unread: Unread) -> der::Tlv {
    minting::enc_part(
        minted,
        unread.client_name_type,
        unread.flags,
        unread.session_key,
        unread.transited,
    )
}

/// A ticket for the claim, presented in base64 and sealed under the key that
/// the keytab holds for it, is opened, and names its client at every moment of
/// its window, the leeway added at both ends, and at no other.
pub proof fn law_a_minted_ticket_names_its_client(
    verifier: VerifierView,
    given: presented::PresentedView,
    said: ticket::TicketView,
    minted: minting::Minted,
    unread: Unread,
    now: i64,
)
    requires
        minting::is_mintable(said),
        minted.is_mintable(),
        encoding::writable(unread.service_name_type),
        encoding::writable(unread.client_name_type),
        encoding::writable(request_minted(said, unread)),
        encoding::writable(part_minted(minted, unread)),
        said.encryption_type == crypto::AES256_CTS_HMAC_SHA1_96,
        given.mechanism == "kerberos"@,
        given.value == said.service_principal(),
        0 <= verifier.leeway <= i64::MAX,
    ensures
        ({
            let encoded = presented::first_proof(given.proofs, AP_REQ_PROOF@);
            let key = keytab::first_opening(
                verifier.keytab,
                said.service_principal(),
                said.key_version,
            );
            &&& encoded is Some
            &&& base64_bytes(text::trimmed(encoded->0)) == Some(
                encoding::written(request_minted(said, unread)),
            )
            &&& key is Some
            &&& crypto::opened(key->0.base_key, crypto::TICKET_KEY_USAGE, said.cipher) == Ok::<
                Seq<u8>,
                Seq<char>,
            >(encoding::written(part_minted(minted, unread)))
        }) ==> {
            let part = minted.said();
            let client = client_at(part, verifier.leeway, now as int);
            &&& presented_opened(verifier, given) == Ok::<
                enc_ticket_part::EncTicketPartView,
                Seq<char>,
            >(part)
            &&& part.start - verifier.leeway <= now <= part.end + verifier.leeway ==> client == Ok::<
                Seq<char>,
                Seq<char>,
            >(text::at_realm(minted.client, minted.client_realm))
            &&& client is Ok ==> part.start - verifier.leeway <= now <= part.end + verifier.leeway
        },
{
    minting::law_the_ticket_of_an_ap_req_is_read_back(
        said,
        unread.service_name_type,
        unread.options,
        unread.authenticator,
    );
    minting::law_an_enc_ticket_part_is_read_back(
        minted,
        unread.client_name_type,
        unread.flags,
        unread.session_key,
        unread.transited,
    );
    calendar::lemma_seconds_fit(minted.authtime);
    calendar::lemma_seconds_fit(minted.endtime);
    if let Some(starttime) = minted.starttime {
        calendar::lemma_seconds_fit(starttime);
    }
    law_the_window_is_the_tickets_and_the_leeway(minted.said(), verifier.leeway as i64, now);
}

/// The client that is answered, or why none is.
pub open spec fn client_shown(client: Result<String, AuthenticateError>) -> Result<
    Seq<char>,
    Seq<char>,
> {
    match client {
        Ok(client) => Ok(client@),
        Err(error) => Err(error@),
    }
}

/// The verdict that is answered, or why there is none.
pub open spec fn verified_shown(verified: Result<Verified, AuthenticateError>) -> Result<
    Verified,
    Seq<char>,
> {
    match verified {
        Ok(verified) => Ok(verified),
        Err(error) => Err(error@),
    }
}

/// The kerberos authenticator: the node's keytab and how far a clock may be
/// off.
pub struct Verifier {
    keytab: Vec<KeyEntry>,
    leeway: i64,
    clock: Box<dyn Clock>,
}

impl View for Verifier {
    type V = VerifierView;

    closed spec fn view(&self) -> VerifierView {
        VerifierView { keytab: keytab::entries(self.keytab@), leeway: self.leeway as int }
    }
}

/// `seconds`, kept to what sixty-four signed bits hold.
fn saturate(seconds: i128) -> (kept: i64)
    ensures
        kept == saturated(seconds as int),
{
    if seconds < i64::MIN as i128 {
        i64::MIN
    } else if seconds > i64::MAX as i128 {
        i64::MAX
    } else {
        seconds as i64
    }
}

impl Verifier {
    #[verifier::type_invariant]
    spec fn clock_is_ready(self) -> bool {
        self.clock.ready()
    }

    /// `seconds` is a time the verifier's clock may show.
    pub closed spec fn shows(&self, seconds: i64) -> bool {
        self.clock.shows(seconds)
    }

    /// Verifies against this keytab, with five minutes of leeway on the
    /// ticket's window and the system clock.
    #[must_use]
    pub fn new(keytab: Vec<KeyEntry>) -> (verifier: Self)
        ensures
            verifier@ == (VerifierView { keytab: keytab::entries(keytab@), leeway: 300 }),
            forall|seconds: i64| verifier.shows(seconds) <==> clock::is_system_time(seconds),
    {
        Verifier { keytab, leeway: 300, clock: Box::new(SystemClock) }
    }

    /// How far a clock may be off before the validity window bites.
    #[must_use]
    pub fn with_leeway(self, seconds: i64) -> (verifier: Self)
        ensures
            verifier@ == (VerifierView { keytab: self@.keytab, leeway: seconds as int }),
            forall|shown: i64| verifier.shows(shown) <==> self.shows(shown),
    {
        let mut verifier = self;
        proof {
            use_type_invariant(&verifier);
        }
        verifier.leeway = seconds;
        verifier
    }

    /// Where the time comes from; the tests pin it.
    #[must_use]
    pub fn with_clock(self, clock: impl Fn() -> i64 + Send + Sync + 'static) -> (verifier: Self)
        requires
            call_requires(clock, ()),
        ensures
            verifier@ == self@,
            forall|seconds: i64| verifier.shows(seconds) <==> call_ensures(clock, (), seconds),
    {
        Verifier { keytab: self.keytab, leeway: self.leeway, clock: Box::new(FnClock(clock)) }
    }

    /// The ticket a `Negotiate` token carries.
    ///
    /// # Errors
    ///
    /// As [`Ticket::from_negotiate`], and where the token carries no ticket.
    pub fn ticket_of_token(token: &[u8]) -> (said: Result<Ticket, AuthenticateError>)
        ensures
            match said {
                Ok(said) => token_ticket(token@) == Ok::<ticket::TicketView, Seq<char>>(said@),
                Err(error) => token_ticket(token@) == Err::<ticket::TicketView, Seq<char>>(error@),
            },
    {
        match Ticket::from_negotiate(token) {
            Err(error) => Err(error),
            Ok(Some(said)) => Ok(said),
            Ok(None) => Err(
                AuthenticateError::new("the Negotiate token carries no Kerberos ticket"),
            ),
        }
    }

    /// The AP-REQ its base64 proof carries.
    ///
    /// # Errors
    ///
    /// Where another mechanism's claim is presented, no AP-REQ is, it is not
    /// base64, or as [`Verifier::ticket_of_token`].
    pub fn ticket_of(given: &Presented) -> (said: Result<Ticket, AuthenticateError>)
        ensures
            match said {
                Ok(said) => presented_ticket(given@) == Ok::<ticket::TicketView, Seq<char>>(said@),
                Err(error) => presented_ticket(given@) == Err::<ticket::TicketView, Seq<char>>(
                    error@,
                ),
            },
    {
        let name: String = given.mechanism().name().to_owned();
        if name != "kerberos".to_owned() {
            let mut message: String = "'".to_owned();
            message.append(name.as_str());
            message.append("' was presented and this authenticator verifies kerberos");
            return Err(AuthenticateError { message });
        }
        let encoded = match given.proof_named(AP_REQ_PROOF) {
            Some(encoded) => encoded,
            None => {
                let mut message: String = "no ".to_owned();
                message.append(AP_REQ_PROOF);
                message.append(" proof was presented");
                return Err(AuthenticateError { message });
            },
        };
        match base64_decode(text::trim(encoded)) {
            Ok(token) => Self::ticket_of_token(token.as_slice()),
            Err(_) => Err(AuthenticateError::new("the AP-REQ is not base64")),
        }
    }

    /// Open a ticket and read what it seals, having checked the service
    /// principal against the claim.
    ///
    /// # Errors
    ///
    /// Where the ticket is for another service, is sealed in a way this node
    /// does not decrypt, is one no key of the keytab is for, or is not opened
    /// by the key that is.
    pub fn open_ticket(&self, said: &Ticket, claim: &String) -> (part: Result<
        EncTicketPart,
        AuthenticateError,
    >)
        ensures
            match part {
                Ok(part) => ticket_opened(self@.keytab, said@, claim@) == Ok::<
                    enc_ticket_part::EncTicketPartView,
                    Seq<char>,
                >(part@),
                Err(error) => ticket_opened(self@.keytab, said@, claim@) == Err::<
                    enc_ticket_part::EncTicketPartView,
                    Seq<char>,
                >(error@),
            },
    {
        let service: String = said.service_principal();
        if service != *claim {
            let mut message: String = "the ticket is for '".to_owned();
            message.append(service.as_str());
            message.append("' and the claim is '");
            message.append(claim.as_str());
            message.append("'");
            return Err(AuthenticateError { message });
        }
        if said.encryption_type != crypto::AES256_CTS_HMAC_SHA1_96 {
            let mut message: String = "the ticket's encryption type is ".to_owned();
            text::push_decimal(&mut message, said.encryption_type as u64);
            message.append(" and this node decrypts aes256-cts-hmac-sha1-96 (18) only");
            return Err(AuthenticateError { message });
        }
        let key = match keytab::find(&self.keytab, &service, said.key_version) {
            Some(key) => key,
            None => {
                let mut message: String = "the node's keytab holds no key for '".to_owned();
                message.append(service.as_str());
                message.append("' at version ");
                let shown: String = show_version(said.key_version);
                message.append(shown.as_str());
                return Err(AuthenticateError { message });
            },
        };
        match crypto::decrypt(key.base_key(), crypto::TICKET_KEY_USAGE, said.cipher.as_slice()) {
            Ok(plaintext) => EncTicketPart::parse(plaintext.as_slice()),
            Err(error) => Err(error),
        }
    }

    /// Open the ticket that is presented and read what it seals.
    ///
    /// # Errors
    ///
    /// As [`Verifier::ticket_of`] and [`Verifier::open_ticket`].
    pub fn open(&self, given: &Presented) -> (part: Result<EncTicketPart, AuthenticateError>)
        ensures
            match part {
                Ok(part) => presented_opened(self@, given@) == Ok::<
                    enc_ticket_part::EncTicketPartView,
                    Seq<char>,
                >(part@),
                Err(error) => presented_opened(self@, given@) == Err::<
                    enc_ticket_part::EncTicketPartView,
                    Seq<char>,
                >(error@),
            },
    {
        match Self::ticket_of(given) {
            Ok(said) => self.open_ticket(&said, given.value()),
            Err(error) => Err(error),
        }
    }

    /// That an opened ticket is within its window at `now`, give or take the
    /// leeway.
    ///
    /// # Errors
    ///
    /// Where it is not valid yet, or no longer.
    pub fn within_window(&self, part: &EncTicketPart, now: i64) -> (within: Result<
        (),
        AuthenticateError,
    >)
        ensures
            match within {
                Ok(()) => outside_window(part@, self@.leeway, now as int) is None,
                Err(error) => outside_window(part@, self@.leeway, now as int) == Some(error@),
            },
    {
        if saturate(now as i128 + self.leeway as i128) < part.start {
            let mut message: String = "the ticket is not valid before ".to_owned();
            text::push_signed(&mut message, part.start);
            message.append(" and it is ");
            text::push_signed(&mut message, now);
            return Err(AuthenticateError { message });
        }
        if saturate(now as i128 - self.leeway as i128) > part.end {
            let mut message: String = "the ticket expired at ".to_owned();
            text::push_signed(&mut message, part.end);
            message.append(" and it is ");
            text::push_signed(&mut message, now);
            return Err(AuthenticateError { message });
        }
        Ok(())
    }

    /// The client principal an opened ticket names, where it is within its
    /// window at `now`.
    ///
    /// # Errors
    ///
    /// As [`Verifier::within_window`].
    pub fn client_at_time(&self, part: &EncTicketPart, now: i64) -> (client: Result<
        String,
        AuthenticateError,
    >)
        ensures
            client_shown(client) == client_at(part@, self@.leeway, now as int),
    {
        match self.within_window(part, now) {
            Ok(()) => Ok(part.client_principal()),
            Err(error) => Err(error),
        }
    }

    /// That an opened ticket proves the claim, where it is within its window
    /// at `now`.
    ///
    /// # Errors
    ///
    /// As [`Verifier::within_window`].
    pub fn verify_at_time(&self, part: &EncTicketPart, now: i64) -> (verified: Result<
        Verified,
        AuthenticateError,
    >)
        ensures
            verified_shown(verified) == verified_at(part@, self@.leeway, now as int),
    {
        match self.within_window(part, now) {
            Ok(()) => Ok(Verified::Proven),
            Err(error) => Err(error),
        }
    }

    /// The client principal a proven ticket names — the verified identity
    /// that is not answered by [`Verifier::verify`].
    ///
    /// # Errors
    ///
    /// As [`Verifier::verify`]: everything that would refuse the ticket
    /// refuses here too.
    pub fn client_of(&self, given: &Presented) -> (client: Result<String, AuthenticateError>)
        ensures
            match presented_opened(self@, given@) {
                Err(why) => client_shown(client) == Err::<Seq<char>, Seq<char>>(why),
                Ok(part) => exists|now: i64| #[trigger]
                    self.shows(now) && client_shown(client) == client_at(
                        part,
                        self@.leeway,
                        now as int,
                    ),
            },
    {
        match self.open(given) {
            Ok(part) => {
                let now: i64 = self.read_clock();
                self.client_at_time(&part, now)
            },
            Err(error) => Err(error),
        }
    }

    /// The time the clock shows.
    fn read_clock(&self) -> (now: i64)
        ensures
            self.shows(now),
    {
        proof {
            use_type_invariant(self);
        }
        self.clock.read()
    }

    /// The mechanism it verifies.
    #[must_use]
    pub fn mechanism(&self) -> (mechanism: Mechanism)
        ensures
            mechanism@ == "kerberos"@,
    {
        Mechanism::kerberos()
    }

    /// That the ticket that is presented proves the claim.
    ///
    /// # Errors
    ///
    /// Where it does not: the reason says what was wrong.
    pub fn verify(&self, given: &Presented) -> (verified: Result<Verified, AuthenticateError>)
        ensures
            match presented_opened(self@, given@) {
                Err(why) => verified_shown(verified) == Err::<Verified, Seq<char>>(why),
                Ok(part) => exists|now: i64| #[trigger]
                    self.shows(now) && verified_shown(verified) == verified_at(
                        part,
                        self@.leeway,
                        now as int,
                    ),
            },
    {
        match self.open(given) {
            Ok(part) => {
                let now: i64 = self.read_clock();
                self.verify_at_time(&part, now)
            },
            Err(error) => Err(error),
        }
    }
}

/// A key version, or that there is none, in words.
fn show_version(version: Option<u32>) -> (shown: String)
    ensures
        shown@ == version_shown(version),
{
    match version {
        Some(version) => {
            let mut shown: String = "Some(".to_owned();
            text::push_decimal(&mut shown, version as u64);
            shown.append(")");
            shown
        },
        None => "None".to_owned(),
    }
}

} // verus!
