//! Authenticate by kerberos: verifies a service ticket with the node's
//! keytab.
//!
//! Identification unwrapped the `Negotiate` token and presented the service
//! the ticket is for — the client principal is sealed and unreadable there —
//! with the whole AP-REQ riding as the `kerberos.ap-req` proof. Here the node
//! holds its keytab: the service keys, by principal and key version. It reads
//! the ticket, finds the key for that service principal and version, decrypts
//! the ticket's sealed part (`aes256-cts-hmac-sha1-96`, RFC 3962 — see
//! [`crypto`]), and, where the checksum holds, reads the client principal and
//! the ticket's validity window out of it. It refuses where the
//! service principal is not the claim, where no held key opens the ticket, or
//! where the ticket is outside its window with the configured leeway.
//!
//! [`Verifier::verify`] answers only that the claim is proven. The one thing
//! learned here that could not be read before, the client principal, is
//! answered by [`Verifier::client_of`].
//!
//! Offline throughout: the keytab is configuration, and no KDC is reached.
//! Only `aes256-cts-hmac-sha1-96` is decrypted; `rc4-hmac`, `aes128` and the
//! rest are refused by number where a ticket names them. The authenticator
//! inside the AP-REQ is sealed under the ticket's session key and is not
//! opened: this proves the ticket, keeps no replay cache, and does not
//! check the authenticator's clock skew. That the AP-REQ is this connection's
//! is the transport's to say.
pub mod authenticator;
pub mod bits;
pub mod calendar;
pub mod clock;
pub mod crypto;
pub mod der;
pub mod enc_ticket_part;
pub mod encoding;
pub mod error;
pub mod fold;
pub mod keytab;
pub mod laws;
pub mod minting;
pub mod ones;
pub mod presented;
pub mod text;
pub mod ticket;

pub use authenticator::{Verifier, AP_REQ_PROOF};
pub use clock::now;
pub use enc_ticket_part::EncTicketPart;
pub use error::AuthenticateError;
pub use keytab::KeyEntry;
pub use presented::{Mechanism, Presented, Verified};
pub use ticket::Ticket;
