# authenticate_kerberos

Authenticate by kerberos: verifies a service ticket with the node's keytab.

It reads the service ticket of an AP-REQ out of a `Negotiate` token — SPNEGO,
GSS-API or a bare AP-REQ — decrypts its sealed part with the node's
aes256-cts-hmac-sha1-96 key (RFC 3962, key usage 2), and checks that the service
principal is the claim and that the ticket is within its validity window. It
does not decrypt the authenticator, so it keeps no replay cache and proves
possession of a ticket and not of its session key; other encryption types and
the keytab file format are refused or not read.

## Layout

- `src/` is the library, verified with Verus. `authenticator` is its front door;
  `ticket`, `enc_ticket_part` and `der` read the messages; `crypto`, `fold`,
  `ones` and `bits` open the sealed part; `keytab`, `presented`, `clock`,
  `calendar`, `text` and `error` are what these stand on. `encoding` and
  `minting` say how the same messages are written, and prove that what is
  written is what is read.
- `tests/` runs it, on published vectors and on whole tickets.
- `app/` is the adapter to the `authenticate` capability.

AES, HMAC-SHA-1, PBKDF2 and base64 are the `aes`, `hmac`, `sha1`, `pbkdf2` and
`base64` crates'. What is taken from them on trust stands in the contracts of a
few small functions in `crypto` and `authenticator`, each with a comment that
says what it is.
