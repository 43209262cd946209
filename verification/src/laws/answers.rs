//! Laws of the keytab, of what is presented, and of what the verifier answers.
use crate::authenticator;
use crate::clock;
use crate::crypto;
use crate::der;
use crate::enc_ticket_part;
use crate::error::AuthenticateError;
use crate::keytab;
use crate::presented;
use crate::presented::Verified;
use crate::text;
use crate::ticket;
use vstd::prelude::*;

verus! {

/// The key found for a ticket is the keytab's first that names the ticket's
/// own principal and either no version or exactly the ticket's; none is found
/// where no entry does.
pub proof fn law_the_key_found_is_the_tickets_own(
    keys: Seq<keytab::KeyEntryView>,
    principal: Seq<char>,
    version: Option<u32>,
)
    ensures
        keytab::first_opening(keys, principal, version) matches Some(key) ==> {
            &&& key.principal == principal
            &&& key.version is None || key.version == version
            &&& exists|at: int|
                {
                    &&& 0 <= at < keys.len()
                    &&& #[trigger] keys[at] == key
                    &&& forall|j: int|
                        0 <= j < at ==> (#[trigger] keys[j]).principal != principal
                            || keys[j].version is Some && keys[j].version != version
                }
        },
        keytab::first_opening(keys, principal, version) is None ==> forall|j: int|
            0 <= j < keys.len() ==> (#[trigger] keys[j]).principal != principal
                || keys[j].version is Some && keys[j].version != version,
    decreases keys.len(),
{
    if keys.len() > 0 {
        let rest = keys.drop_first();
        law_the_key_found_is_the_tickets_own(rest, principal, version);
        let first = keys[0];
        if first.principal == principal && (first.version is None || first.version == version) {
            assert(keytab::first_opening(keys, principal, version) == Some(first));
        } else {
            assert(keytab::first_opening(keys, principal, version) == keytab::first_opening(
                rest,
                principal,
                version,
            ));
            match keytab::first_opening(rest, principal, version) {
                Some(key) => {
                    let at = choose|at: int|
                        {
                            &&& 0 <= at < rest.len()
                            &&& #[trigger] rest[at] == key
                            &&& forall|j: int|
                                0 <= j < at ==> (#[trigger] rest[j]).principal != principal
                                    || rest[j].version is Some && rest[j].version != version
                        };
                    assert(keys[at + 1] == key);
                    assert forall|j: int| 0 <= j < at + 1 implies (
                    #[trigger] keys[j]).principal != principal || keys[j].version is Some
                        && keys[j].version != version by {
                        if j > 0 {
                            assert(rest[j - 1] == keys[j]);
                        }
                    }
                },
                None => {
                    assert forall|j: int| 0 <= j < keys.len() implies (
                    #[trigger] keys[j]).principal != principal || keys[j].version is Some
                        && keys[j].version != version by {
                        if j > 0 {
                            assert(rest[j - 1] == keys[j]);
                        }
                    }
                },
            }
        }
    }
}

/// An entry that names the principal, and no version or the one asked for, is
/// found where no entry before it does.
pub proof fn law_a_matching_key_is_found(
    keys: Seq<keytab::KeyEntryView>,
    principal: Seq<char>,
    version: Option<u32>,
    at: int,
)
    requires
        0 <= at < keys.len(),
        keys[at].principal == principal,
        keys[at].version is None || keys[at].version == version,
        forall|j: int|
            0 <= j < at ==> (#[trigger] keys[j]).principal != principal || keys[j].version is Some
                && keys[j].version != version,
    ensures
        keytab::first_opening(keys, principal, version) == Some(keys[at]),
    decreases keys.len(),
{
    if at > 0 {
        let rest = keys.drop_first();
        assert(keys[0].principal != principal || keys[0].version is Some && keys[0].version
            != version);
        assert forall|j: int| 0 <= j < at - 1 implies (#[trigger] rest[j]).principal != principal
            || rest[j].version is Some && rest[j].version != version by {
            assert(keys[j + 1] == rest[j]);
        }
        law_a_matching_key_is_found(rest, principal, version, at - 1);
    }
}

/// The proof under a name is the first presented under it, and there is none
/// where none was.
pub proof fn law_the_first_proof_of_a_name_is_found(
    proofs: Seq<presented::ProofView>,
    name: Seq<char>,
    at: int,
)
    requires
        0 <= at <= proofs.len(),
        at < proofs.len() ==> proofs[at].name == name,
        forall|j: int| 0 <= j < at ==> (#[trigger] proofs[j]).name != name,
    ensures
        at < proofs.len() ==> presented::first_proof(proofs, name) == Some(proofs[at].content),
        at == proofs.len() ==> presented::first_proof(proofs, name) is None,
    decreases proofs.len(),
{
    if at > 0 {
        let rest = proofs.drop_first();
        assert(proofs[0].name != name);
        assert forall|j: int| 0 <= j < at - 1 implies (#[trigger] rest[j]).name != name by {
            assert(proofs[j + 1] == rest[j]);
        }
        law_the_first_proof_of_a_name_is_found(rest, name, at - 1);
    }
}

/// The ticket presented is the one in the token that the first proof under
/// `kerberos.ap-req` is the base64 of, white space round it left out.
pub proof fn law_the_presented_ticket_is_in_its_token(
    given: presented::PresentedView,
    token: Seq<u8>,
    said: ticket::TicketView,
)
    ensures
        authenticator::token_ticket(token) == Ok::<ticket::TicketView, Seq<char>>(said)
            <==> ticket::negotiated(token) == Ok::<Option<ticket::TicketView>, Seq<char>>(
            Some(said),
        ),
        authenticator::presented_ticket(given) == Ok::<ticket::TicketView, Seq<char>>(said) <==> {
            &&& given.mechanism == "kerberos"@
            &&& presented::first_proof(given.proofs, "kerberos.ap-req"@) matches Some(encoded)
            &&& authenticator::base64_bytes(text::trimmed(encoded)) matches Some(carried)
            &&& ticket::negotiated(carried) == Ok::<Option<ticket::TicketView>, Seq<char>>(
                Some(said),
            )
        },
{
}

/// A ticket is opened exactly where kerberos presents it, in base64 under
/// `kerberos.ap-req`, it is for the claim and of encryption type 18, and the
/// keytab's key for it opens it, for key usage 2, to a part that is read; and
/// that part is what it seals.
pub proof fn law_what_is_opened_is_the_presented_tickets(
    verifier: authenticator::VerifierView,
    given: presented::PresentedView,
    part: enc_ticket_part::EncTicketPartView,
)
    ensures
        authenticator::presented_opened(verifier, given) == Ok::<
            enc_ticket_part::EncTicketPartView,
            Seq<char>,
        >(part) <==> {
            &&& given.mechanism == "kerberos"@
            &&& presented::first_proof(given.proofs, "kerberos.ap-req"@) matches Some(encoded)
            &&& authenticator::base64_bytes(text::trimmed(encoded)) matches Some(token)
            &&& ticket::negotiated(token) matches Ok(Some(said))
            &&& given.value == text::joined(said.service) + seq!['@'] + said.realm
            &&& said.encryption_type == 18
            &&& keytab::first_opening(verifier.keytab, given.value, said.key_version) matches Some(
                key,
            )
            &&& crypto::opened(key.base_key, 2, said.cipher) matches Ok(plaintext)
            &&& enc_ticket_part::part_in(plaintext) == Ok::<
                enc_ticket_part::EncTicketPartView,
                Seq<char>,
            >(part)
        },
{
    if let Some(encoded) = presented::first_proof(given.proofs, "kerberos.ap-req"@) {
        if let Some(token) = authenticator::base64_bytes(text::trimmed(encoded)) {
            if let Ok(Some(said)) = ticket::negotiated(token) {
                lemma_service_principal(said);
            }
        }
    }
}

proof fn lemma_service_principal(said: ticket::TicketView)
    ensures
        said.service_principal() == text::joined(said.service) + seq!['@'] + said.realm,
{
    assert(said.service_principal() =~= text::joined(said.service) + seq!['@'] + said.realm);
}

/// A ticket's service and a part's client are written as their components
/// joined by `/`, an `@` and the realm.
pub proof fn law_principals_are_written_at_their_realm(
    said: ticket::TicketView,
    part: enc_ticket_part::EncTicketPartView,
)
    ensures
        said.service_principal() == text::joined(said.service) + seq!['@'] + said.realm,
        part.client_principal() == text::joined(part.client) + seq!['@'] + part.client_realm,
{
    lemma_service_principal(said);
    assert(part.client_principal() =~= text::joined(part.client) + seq!['@'] + part.client_realm);
}

/// What is presented by another mechanism, without the proof, not in base64 or
/// without a ticket is refused, in that order and in these words.
pub proof fn law_what_carries_no_ticket_is_refused(
    verifier: authenticator::VerifierView,
    given: presented::PresentedView,
)
    ensures
        given.mechanism != "kerberos"@ ==> authenticator::presented_opened(verifier, given) == Err::<
            enc_ticket_part::EncTicketPartView,
            Seq<char>,
        >("'"@ + given.mechanism + "' was presented and this authenticator verifies kerberos"@),
        given.mechanism == "kerberos"@ && presented::first_proof(
            given.proofs,
            "kerberos.ap-req"@,
        ) is None ==> authenticator::presented_opened(verifier, given) == Err::<
            enc_ticket_part::EncTicketPartView,
            Seq<char>,
        >("no "@ + "kerberos.ap-req"@ + " proof was presented"@),
        given.mechanism == "kerberos"@ ==> (presented::first_proof(
            given.proofs,
            "kerberos.ap-req"@,
        ) matches Some(encoded) ==> {
            let token = authenticator::base64_bytes(text::trimmed(encoded));
            &&& token is None ==> authenticator::presented_opened(verifier, given) == Err::<
                enc_ticket_part::EncTicketPartView,
                Seq<char>,
            >("the AP-REQ is not base64"@)
            &&& token matches Some(token) ==> {
                &&& ticket::negotiated(token) matches Ok(None) ==> authenticator::presented_opened(
                    verifier,
                    given,
                ) == Err::<enc_ticket_part::EncTicketPartView, Seq<char>>(
                    "the Negotiate token carries no Kerberos ticket"@,
                )
                &&& ticket::negotiated(token) matches Err(why) ==> authenticator::presented_opened(
                    verifier,
                    given,
                ) == Err::<enc_ticket_part::EncTicketPartView, Seq<char>>(why)
            }
        }),
{
}

/// A ticket for another service, of another encryption type, that no key is
/// for or that its key does not open is refused, in that order and in these
/// words.
pub proof fn law_a_ticket_that_does_not_open_is_refused(
    keys: Seq<keytab::KeyEntryView>,
    said: ticket::TicketView,
    claim: Seq<char>,
)
    ensures
        ({
            let service = text::joined(said.service) + seq!['@'] + said.realm;
            let key = keytab::first_opening(keys, service, said.key_version);
            let answer = authenticator::ticket_opened(keys, said, claim);
            &&& service != claim ==> answer == Err::<
                enc_ticket_part::EncTicketPartView,
                Seq<char>,
            >("the ticket is for '"@ + service + "' and the claim is '"@ + claim + "'"@)
            &&& service == claim && said.encryption_type != 18 ==> answer == Err::<
                enc_ticket_part::EncTicketPartView,
                Seq<char>,
            >(
                "the ticket's encryption type is "@ + text::decimal(said.encryption_type as nat)
                    + " and this node decrypts aes256-cts-hmac-sha1-96 (18) only"@,
            )
            &&& service == claim && said.encryption_type == 18 && key is None ==> answer == Err::<
                enc_ticket_part::EncTicketPartView,
                Seq<char>,
            >(
                "the node's keytab holds no key for '"@ + service + "' at version "@ + match
                    said.key_version {
                    Some(version) => "Some("@ + text::decimal(version as nat) + ")"@,
                    None => "None"@,
                },
            )
            &&& service == claim && said.encryption_type == 18 && key is Some ==> (crypto::opened(
                key->0.base_key,
                2,
                said.cipher,
            ) matches Err(why) ==> answer == Err::<enc_ticket_part::EncTicketPartView, Seq<char>>(
                why,
            ))
            &&& service == claim && said.encryption_type == 18 && key is Some ==> (crypto::opened(
                key->0.base_key,
                2,
                said.cipher,
            ) matches Ok(plaintext) ==> answer == enc_ticket_part::part_in(plaintext))
        }),
{
    lemma_service_principal(said);
}

/// A ticket proves the claim, and names its client, exactly from its start
/// less the leeway until its end and the leeway more, now and the leeway
/// together being kept to what sixty-four signed bits hold; outside of that
/// both are refused in these words.
pub proof fn law_a_ticket_is_good_within_its_window(
    part: enc_ticket_part::EncTicketPartView,
    leeway: i64,
    now: i64,
)
    ensures
        ({
            let latest = if now + leeway > i64::MAX {
                i64::MAX as int
            } else if now + leeway < i64::MIN {
                i64::MIN as int
            } else {
                now + leeway
            };
            let earliest = if now - leeway > i64::MAX {
                i64::MAX as int
            } else if now - leeway < i64::MIN {
                i64::MIN as int
            } else {
                now - leeway
            };
            let verified = authenticator::verified_at(part, leeway as int, now as int);
            let client = authenticator::client_at(part, leeway as int, now as int);
            let early = "the ticket is not valid before "@ + text::signed(part.start)
                + " and it is "@ + text::signed(now as int);
            let late = "the ticket expired at "@ + text::signed(part.end) + " and it is "@
                + text::signed(now as int);
            &&& latest < part.start ==> {
                &&& verified == Err::<Verified, Seq<char>>(early)
                &&& client == Err::<Seq<char>, Seq<char>>(early)
            }
            &&& latest >= part.start && earliest > part.end ==> {
                &&& verified == Err::<Verified, Seq<char>>(late)
                &&& client == Err::<Seq<char>, Seq<char>>(late)
            }
            &&& latest >= part.start && earliest <= part.end ==> {
                &&& verified == Ok::<Verified, Seq<char>>(Verified::Proven)
                &&& client == Ok::<Seq<char>, Seq<char>>(
                    text::joined(part.client) + seq!['@'] + part.client_realm,
                )
            }
            &&& (authenticator::outside_window(part, leeway as int, now as int) is None)
                == (latest >= part.start && earliest <= part.end)
            &&& latest < part.start ==> authenticator::outside_window(
                part,
                leeway as int,
                now as int,
            ) == Some(early)
            &&& latest >= part.start && earliest > part.end ==> authenticator::outside_window(
                part,
                leeway as int,
                now as int,
            ) == Some(late)
        }),
{
    assert(part.client_principal() =~= text::joined(part.client) + seq!['@'] + part.client_realm);
}

/// A client that is answered is answered as it is, and a refusal in its own
/// words.
pub proof fn law_answers_are_shown_as_they_are(
    client: Result<String, AuthenticateError>,
    verified: Result<Verified, AuthenticateError>,
)
    ensures
        client matches Ok(name) ==> authenticator::client_shown(client) == Ok::<
            Seq<char>,
            Seq<char>,
        >(name@),
        client matches Err(error) ==> authenticator::client_shown(client) == Err::<
            Seq<char>,
            Seq<char>,
        >(error.message@),
        verified matches Ok(verdict) ==> authenticator::verified_shown(verified) == Ok::<
            Verified,
            Seq<char>,
        >(verdict),
        verified matches Err(error) ==> authenticator::verified_shown(verified) == Err::<
            Verified,
            Seq<char>,
        >(error.message@),
{
}

/// A ticket, a part, an element and a refusal say what their fields hold.
pub proof fn law_values_say_what_their_fields_hold(
    said: ticket::Ticket,
    part: enc_ticket_part::EncTicketPart,
    element: der::Element<'_>,
    error: AuthenticateError,
)
    ensures
        said@ == (ticket::TicketView {
            service: Seq::new(said.service@.len(), |i: int| said.service@[i]@),
            realm: said.realm@,
            encryption_type: said.encryption_type,
            key_version: said.key_version,
            cipher: said.cipher@,
        }),
        part@ == (enc_ticket_part::EncTicketPartView {
            client_realm: part.client_realm@,
            client: Seq::new(part.client@.len(), |i: int| part.client@[i]@),
            start: part.start as int,
            end: part.end as int,
        }),
        element@ == (der::Tlv { tag: element.tag, content: element.content@ }),
        error@ == error.message@,
{
    assert(said@.service =~= Seq::new(said.service@.len(), |i: int| said.service@[i]@));
    assert(part@.client =~= Seq::new(part.client@.len(), |i: int| part.client@[i]@));
}

/// Lists are shown item by item, and an optional text as the text it is.
pub proof fn law_lists_are_shown_item_by_item(
    parts: Seq<String>,
    keys: Seq<keytab::KeyEntry>,
    children: Seq<der::Element<'_>>,
    words: Option<&str>,
)
    ensures
        text::texts(parts) == Seq::new(parts.len(), |i: int| parts[i]@),
        keytab::entries(keys) == Seq::new(keys.len(), |i: int| keys[i]@),
        der::tlvs(children) == Seq::new(
            children.len(),
            |i: int| der::Tlv { tag: children[i].tag, content: children[i].content@ },
        ),
        words matches Some(word) ==> text::some_text(words) == Some(word@),
        words is None ==> text::some_text(words) is None,
{
    assert(der::tlvs(children) =~= Seq::new(
        children.len(),
        |i: int| der::Tlv { tag: children[i].tag, content: children[i].content@ },
    ));
}

/// The system's clock shows the whole seconds measured from the epoch, the
/// last time a signed number holds where they are more, and zero before it.
pub proof fn law_the_system_clock_shows_what_is_measured(seconds: i64)
    ensures
        clock::is_system_time(seconds) <==> (clock::is_measured(None) && seconds == 0) || (exists|
            since: u64,
        |
            #[trigger] clock::is_measured(Some(since)) && seconds == if since > i64::MAX {
                i64::MAX as int
            } else {
                since as int
            }),
{
    if clock::is_system_time(seconds) {
        let since = choose|since: Option<u64>| #[trigger]
            clock::is_measured(since) && seconds == clock::counted(since);
        if let Some(measured) = since {
            assert(clock::is_measured(Some(measured)));
        }
    }
}

} // verus!
