//! `aes256-cts-hmac-sha1-96`, RFC 3962 with the RFC 3961 machinery beneath it.
//!
//! Encryption type 18 is AES-256 in CBC mode with ciphertext stealing, keyed
//! by a subkey derived from the ticket's key, with an HMAC-SHA1 truncated to
//! ninety-six bits for integrity. To open a ticket the node derives the two
//! subkeys — Ke for the cipher, Ki for the checksum — from the base key with
//! the key-derivation function (RFC 3961 section 5.1), decrypts the
//! confounder and plaintext, recomputes the checksum and refuses where it
//! does not match. Sealing is the same in the other direction.
use crate::bits;
use crate::error::AuthenticateError;
use crate::fold;
use aes::cipher::generic_array::GenericArray;
use aes::cipher::{BlockDecrypt, BlockEncrypt, KeyInit};
use aes::Aes256;
use hmac::{Hmac, Mac};
use sha1::Sha1;
use vstd::prelude::*;
use vstd::slice::*;

verus! {

/// `aes256-cts-hmac-sha1-96`, RFC 3962.
pub const AES256_CTS_HMAC_SHA1_96: u32 = 18;

/// The key usage RFC 4120 gives a ticket's `enc-part`.
pub const TICKET_KEY_USAGE: u32 = 2;

/// Bytes in an AES-256 key.
pub const KEY_LENGTH: usize = 32;

/// Bytes in a cipher block.
pub const BLOCK: usize = 16;

/// The checksum an etype-18 message carries, truncated to ninety-six bits.
pub const MAC_LENGTH: usize = 12;

/// The constant a password's key is derived with: `kerberos`.
pub const KERBEROS: [u8; 8] = [0x6b, 0x65, 0x72, 0x62, 0x65, 0x72, 0x6f, 0x73];

/// What AES-256 under `key` makes of `block`.
pub uninterp spec fn aes256_encrypted(key: Seq<u8>, block: Seq<u8>) -> Seq<u8>;

/// What AES-256 under `key` makes `block` of.
pub uninterp spec fn aes256_decrypted(key: Seq<u8>, block: Seq<u8>) -> Seq<u8>;

/// The HMAC-SHA1 of `data` under `key`.
pub uninterp spec fn hmac_sha1_tag(key: Seq<u8>, data: Seq<u8>) -> Seq<u8>;

/// The first `length` bytes PBKDF2 with HMAC-SHA1 derives.
pub uninterp spec fn pbkdf2_hmac_sha1(
    password: Seq<u8>,
    salt: Seq<u8>,
    rounds: u32,
    length: nat,
) -> Seq<u8>;

/// The length an outside function of the `digest` family did not take.
#[verifier::external_type_specification]
#[verifier::external_body]
pub struct ExInvalidLength(hmac::digest::InvalidLength);

/// `Aes256::encrypt_block` of the `aes` crate, under a cipher made by
/// `Aes256::new`: the block AES-256 encrypts `block` to, which it decrypts
/// back to `block`.
#[verifier::external_body]
fn aes_encrypt_block(key: &[u8; KEY_LENGTH], block: &[u8; BLOCK]) -> (out: [u8; BLOCK])
    ensures
        out@ == aes256_encrypted(key@, block@),
        aes256_decrypted(key@, out@) == block@,
{
    let mut buffer = GenericArray::clone_from_slice(block);
    Aes256::new(GenericArray::from_slice(key)).encrypt_block(&mut buffer);
    buffer.into()
}

/// `Aes256::decrypt_block` of the `aes` crate, under a cipher made by
/// `Aes256::new`: the block AES-256 decrypts `block` to.
#[verifier::external_body]
fn aes_decrypt_block(key: &[u8; KEY_LENGTH], block: &[u8; BLOCK]) -> (out: [u8; BLOCK])
    ensures
        out@ == aes256_decrypted(key@, block@),
{
    let mut buffer = GenericArray::clone_from_slice(block);
    Aes256::new(GenericArray::from_slice(key)).decrypt_block(&mut buffer);
    buffer.into()
}

/// `Hmac<Sha1>` of the `hmac` and `sha1` crates, keyed by `key` and given
/// `data`: its twenty-byte tag. It takes a key of any length.
#[verifier::external_body]
fn hmac_sha1(key: &[u8], data: &[u8]) -> (tag: Vec<u8>)
    ensures
        tag@ == hmac_sha1_tag(key@, data@),
        tag@.len() == 20,
{
    let mut mac = <Hmac<Sha1> as Mac>::new_from_slice(key).expect("HMAC takes any key length");
    mac.update(data);
    mac.finalize().into_bytes().to_vec()
}

/// `pbkdf2::pbkdf2` with `Hmac<Sha1>`, filling `KEY_LENGTH` bytes. Its error
/// is that of keying the HMAC, which takes a key of any length.
#[verifier::external_body]
fn pbkdf2_key(password: &[u8], salt: &[u8], rounds: u32) -> (key: Result<
    [u8; KEY_LENGTH],
    hmac::digest::InvalidLength,
>)
    ensures
        key matches Ok(key) && key@ == pbkdf2_hmac_sha1(
            password@,
            salt@,
            rounds,
            KEY_LENGTH as nat,
        ),
{
    let mut key = [0u8; KEY_LENGTH];
    pbkdf2::pbkdf2::<Hmac<Sha1>>(password, salt, rounds, &mut key)?;
    Ok(key)
}

/// A key that AES-256 takes.
pub struct Cipher {
    key: [u8; KEY_LENGTH],
}

impl View for Cipher {
    type V = Seq<u8>;

    closed spec fn view(&self) -> Seq<u8> {
        self.key@
    }
}

/// What is said of a key that is not thirty-two bytes long.
pub open spec fn wrong_key() -> Seq<char> {
    "an aes256-cts-hmac-sha1-96 key is thirty-two bytes"@
}

/// The cipher under `key`.
///
/// # Errors
///
/// Where `key` is not thirty-two bytes long.
pub fn cipher(key: &[u8]) -> (cipher: Result<Cipher, AuthenticateError>)
    ensures
        match cipher {
            Ok(cipher) => key@.len() == KEY_LENGTH && cipher@ == key@,
            Err(error) => key@.len() != KEY_LENGTH && error@ == wrong_key(),
        },
{
    if key.len() != KEY_LENGTH {
        return Err(
            AuthenticateError::new("an aes256-cts-hmac-sha1-96 key is thirty-two bytes"),
        );
    }
    let mut bytes = [0u8; KEY_LENGTH];
    let mut index: usize = 0;
    while index < KEY_LENGTH
        invariant
            index <= KEY_LENGTH,
            key@.len() == KEY_LENGTH,
            forall|i: int| 0 <= i < index ==> bytes@[i] == key@[i],
        decreases KEY_LENGTH - index,
    {
        bytes[index] = key[index];
        index += 1;
    }
    assert(bytes@ =~= key@);
    Ok(Cipher { key: bytes })
}

/// `a` with `b` added to its first bytes, bit by bit and without carries.
pub open spec fn xored(a: Seq<u8>, b: Seq<u8>) -> Seq<u8> {
    Seq::new(
        a.len(),
        |i: int|
            if i < b.len() {
                a[i] ^ b[i]
            } else {
                a[i]
            },
    )
}

/// `a` with `b` added to its first bytes, bit by bit and without carries.
pub fn xor(a: [u8; BLOCK], b: &[u8]) -> (out: [u8; BLOCK])
    ensures
        out@ == xored(a@, b@),
{
    let mut out = a;
    let mut index: usize = 0;
    while index < BLOCK && index < b.len()
        invariant
            index <= BLOCK,
            index <= b@.len(),
            forall|i: int| 0 <= i < index ==> out@[i] == a@[i] ^ b@[i],
            forall|i: int| index <= i < BLOCK ==> out@[i] == a@[i],
        decreases BLOCK - index,
    {
        out[index] = out[index] ^ b[index];
        index += 1;
    }
    assert(out@ =~= xored(a@, b@));
    out
}

/// The key `DK(key, constant)` of RFC 3961 section 5.1: the constant, folded
/// to a block, encrypted once and once again.
pub open spec fn derived(key: Seq<u8>, constant: Seq<u8>) -> Seq<u8> {
    let first = aes256_encrypted(key, fold::folded(constant, BLOCK as nat));
    first + aes256_encrypted(key, first)
}

/// A key usage as four bytes, most significant first, then the variant that
/// tells its subkeys apart.
pub open spec fn usage_constant(usage: u32, variant: u8) -> Seq<u8> {
    seq![
        (usage / 0x100_0000) as u8,
        (usage / 0x1_0000 % 0x100) as u8,
        (usage / 0x100 % 0x100) as u8,
        (usage % 0x100) as u8,
        variant,
    ]
}

/// The variant of a usage's encryption key.
pub const ENCRYPTION: u8 = 0xaa;

/// The variant of a usage's integrity key.
pub const INTEGRITY: u8 = 0x55;

/// The key under which messages of a usage are encrypted.
pub open spec fn encryption_key(base_key: Seq<u8>, usage: u32) -> Seq<u8> {
    derived(base_key, usage_constant(usage, ENCRYPTION))
}

/// The key under which messages of a usage carry their checksum.
pub open spec fn integrity_key(base_key: Seq<u8>, usage: u32) -> Seq<u8> {
    derived(base_key, usage_constant(usage, INTEGRITY))
}

/// The sixteen bytes of `data` from `start` on.
fn block_at(data: &[u8], start: usize) -> (block: [u8; BLOCK])
    requires
        start + BLOCK <= data.len(),
    ensures
        block@ == data@.subrange(start as int, start + BLOCK),
{
    let mut block = [0u8; BLOCK];
    let mut index: usize = 0;
    while index < BLOCK
        invariant
            index <= BLOCK,
            start + BLOCK <= data.len(),
            forall|i: int| 0 <= i < index ==> block@[i] == data@[start + i],
        decreases BLOCK - index,
    {
        block[index] = data[start + index];
        index += 1;
    }
    assert(block@ =~= data@.subrange(start as int, start + BLOCK));
    block
}

/// Appends a block's bytes.
fn push_block(bytes: &mut Vec<u8>, block: &[u8; BLOCK])
    ensures
        final(bytes)@ == old(bytes)@ + block@,
{
    bytes.extend_from_slice(block.as_slice());
    assert(bytes@ =~= old(bytes)@ + block@);
}

/// `DK(base, constant)`, RFC 3961 section 5.1, for AES.
pub fn derive_from(base: &Cipher, constant: &[u8]) -> (key: Vec<u8>)
    requires
        fold::foldable(constant@.len(), BLOCK as nat),
    ensures
        key@.len() == KEY_LENGTH,
        key@ == derived(base@, constant@),
{
    let seed: Vec<u8> = fold::n_fold(constant, BLOCK);
    let mut block = block_at(seed.as_slice(), 0);
    assert(block@ =~= seed@);
    let mut material: Vec<u8> = Vec::new();
    block = aes_encrypt_block(&base.key, &block);
    push_block(&mut material, &block);
    block = aes_encrypt_block(&base.key, &block);
    push_block(&mut material, &block);
    assert(material@ =~= derived(base@, constant@));
    material
}

/// The constants keys are derived with fold to a block.
proof fn lemma_constants_fold()
    ensures
        fold::foldable(5, BLOCK as nat),
        fold::foldable(8, BLOCK as nat),
{
    assert(fold::common(1, 0) == 1);
    assert(fold::common(5, 1) == 1) by {
        assert(5nat % 1 == 0);
    }
    assert(fold::common(16, 5) == 1) by {
        assert(16nat % 5 == 1);
    }
    assert(fold::common(8, 0) == 8);
    assert(fold::common(16, 8) == 8) by {
        assert(16nat % 8 == 0);
    }
    assert(fold::copies(5, 16) == 16);
    assert(fold::copies(8, 16) == 2);
}

/// `DK(base, usage as four bytes then variant)`, RFC 3961 section 5.1.
pub fn derive(base: &Cipher, usage: u32, variant: u8) -> (key: Vec<u8>)
    ensures
        key@.len() == KEY_LENGTH,
        key@ == derived(base@, usage_constant(usage, variant)),
{
    let constant: [u8; 5] = [
        (usage / 0x100_0000) as u8,
        (usage / 0x1_0000 % 0x100) as u8,
        (usage / 0x100 % 0x100) as u8,
        (usage % 0x100) as u8,
        variant,
    ];
    proof {
        assert(constant@ =~= usage_constant(usage, variant));
        lemma_constants_fold();
    }
    derive_from(base, constant.as_slice())
}

/// The blocks of `ciphertext`, each decrypted by itself.
pub open spec fn decrypted_blocks(key: Seq<u8>, ciphertext: Seq<u8>) -> Seq<u8>
    decreases ciphertext.len(),
{
    if ciphertext.len() < BLOCK {
        Seq::empty()
    } else {
        let rest = ciphertext.len() - BLOCK;
        decrypted_blocks(key, ciphertext.take(rest)) + aes256_decrypted(key, ciphertext.skip(rest))
    }
}

/// Decrypted blocks freed of the chaining: every block but the first has the
/// block of ciphertext before it added.
pub open spec fn unchained(decrypted: Seq<u8>, ciphertext: Seq<u8>) -> Seq<u8> {
    Seq::new(
        decrypted.len(),
        |i: int|
            if i < BLOCK {
                decrypted[i]
            } else {
                decrypted[i] ^ ciphertext[i - BLOCK]
            },
    )
}

/// CBC decryption of whole blocks, IV of zero.
pub open spec fn cbc_plain(key: Seq<u8>, ciphertext: Seq<u8>) -> Seq<u8> {
    unchained(decrypted_blocks(key, ciphertext), ciphertext)
}

/// Where the last block of a message, whole or cut, starts.
pub open spec fn last_start(length: nat) -> int {
    (length - 1) / 16 * 16
}

/// The block that stealing put before the last: the last of the chain.
pub open spec fn chain_end(data: Seq<u8>) -> Seq<u8> {
    data.subrange(last_start(data.len()) - BLOCK, last_start(data.len()))
}

/// The CBC ciphertext that stealing made `data` of: the two last blocks back
/// in order, and the bytes cut from the one before last, which `recovered`
/// ends with, put back.
pub open spec fn unstolen(data: Seq<u8>, recovered: Seq<u8>) -> Seq<u8> {
    let start = last_start(data.len());
    let cut = data.skip(start);
    data.take(start - BLOCK) + cut + recovered.skip(cut.len() as int) + chain_end(data)
}

/// CBC decryption with ciphertext stealing, RFC 3962, IV of zero, of one
/// block or more.
pub open spec fn cts_plain(key: Seq<u8>, data: Seq<u8>) -> Seq<u8> {
    if data.len() == BLOCK {
        aes256_decrypted(key, data)
    } else {
        let recovered = aes256_decrypted(key, chain_end(data));
        cbc_plain(key, unstolen(data, recovered)).take(data.len() as int)
    }
}

/// What is said of a ciphertext that ciphertext stealing cannot have made.
pub open spec fn under_a_block() -> Seq<char> {
    "the Kerberos ciphertext is shorter than one block"@
}

/// Decrypted blocks freed of the chaining.
pub fn unchain(decrypted: &[u8], ciphertext: &[u8]) -> (plaintext: Vec<u8>)
    requires
        decrypted@.len() == ciphertext@.len(),
        decrypted@.len() % 16 == 0,
    ensures
        plaintext@ == unchained(decrypted@, ciphertext@),
{
    let mut plaintext: Vec<u8> = Vec::new();
    let mut previous = [0u8; BLOCK];
    let mut start: usize = 0;
    let total: usize = decrypted.len();
    while start < total
        invariant
            start <= total,
            total == decrypted.len(),
            total == ciphertext.len(),
            total % 16 == 0,
            start % 16 == 0,
            start == 0 ==> forall|i: int| 0 <= i < BLOCK ==> previous@[i] == 0,
            start > 0 ==> previous@ == ciphertext@.subrange(start - BLOCK, start as int),
            plaintext@ == unchained(decrypted@, ciphertext@).take(start as int),
        decreases total - start,
    {
        let block = block_at(decrypted, start);
        let freed = xor(block, previous.as_slice());
        push_block(&mut plaintext, &freed);
        proof {
            assert forall|i: int| 0 <= i < BLOCK implies freed@[i] == unchained(
                decrypted@,
                ciphertext@,
            )[start + i] by {
                let byte = block@[i];
                assert(byte ^ 0u8 == byte) by (bit_vector);
            }
            assert(plaintext@ =~= unchained(decrypted@, ciphertext@).take(start + BLOCK));
        }
        previous = block_at(ciphertext, start);
        start += BLOCK;
    }
    assert(plaintext@ =~= unchained(decrypted@, ciphertext@));
    plaintext
}

/// The CBC ciphertext that stealing made `data` of, `recovered` being what the
/// last block of the chain decrypts to.
pub fn unsteal(data: &[u8], recovered: &[u8; BLOCK]) -> (ordered: Vec<u8>)
    requires
        data@.len() > BLOCK,
    ensures
        ordered@ == unstolen(data@, recovered@),
        ordered@.len() == last_start(data@.len()) + BLOCK,
{
    let length: usize = data.len();
    let start: usize = (length - 1) / BLOCK * BLOCK;
    let mut ordered: Vec<u8> = slice_to_vec(slice_subrange(data, 0, start - BLOCK));
    ordered.extend_from_slice(slice_subrange(data, start, length));
    ordered.extend_from_slice(slice_subrange(recovered.as_slice(), length - start, BLOCK));
    push_block(&mut ordered, &block_at(data, start - BLOCK));
    assert(ordered@ =~= unstolen(data@, recovered@));
    ordered
}

/// CBC decryption with ciphertext stealing, RFC 3962, IV of zero.
///
/// # Errors
///
/// Where `data` is shorter than one block.
pub fn cbc_cts_decrypt(cipher: &Cipher, data: &[u8]) -> (plaintext: Result<
    Vec<u8>,
    AuthenticateError,
>)
    ensures
        match plaintext {
            Ok(plaintext) => {
                &&& data@.len() >= BLOCK
                &&& plaintext@ == cts_plain(cipher@, data@)
                &&& plaintext@.len() == data@.len()
            },
            Err(error) => data@.len() < BLOCK && error@ == under_a_block(),
        },
{
    let length: usize = data.len();
    if length < BLOCK {
        return Err(AuthenticateError::new("the Kerberos ciphertext is shorter than one block"));
    }
    if length == BLOCK {
        let block = block_at(data, 0);
        assert(block@ =~= data@);
        let mut plaintext: Vec<u8> = Vec::new();
        push_block(&mut plaintext, &aes_decrypt_block(&cipher.key, &block));
        assert(plaintext@ =~= cts_plain(cipher@, data@));
        return Ok(plaintext);
    }
    let last = block_at(data, (length - 1) / BLOCK * BLOCK - BLOCK);
    let recovered = aes_decrypt_block(&cipher.key, &last);
    let ordered: Vec<u8> = unsteal(data, &recovered);
    let mut decrypted: Vec<u8> = Vec::new();
    let mut start: usize = 0;
    while start < ordered.len()
        invariant
            start <= ordered@.len(),
            start % 16 == 0,
            ordered@.len() % 16 == 0,
            decrypted@.len() == start,
            decrypted@ == decrypted_blocks(cipher@, ordered@.take(start as int)),
        decreases ordered@.len() - start,
    {
        let block = block_at(ordered.as_slice(), start);
        proof {
            let longer = ordered@.take(start + BLOCK);
            assert(longer.take(start as int) =~= ordered@.take(start as int));
            assert(longer.skip(start as int) =~= block@);
        }
        push_block(&mut decrypted, &aes_decrypt_block(&cipher.key, &block));
        start += BLOCK;
    }
    assert(ordered@.take(start as int) =~= ordered@);
    let mut plaintext: Vec<u8> = unchain(decrypted.as_slice(), ordered.as_slice());
    plaintext.truncate(length);
    assert(plaintext@ =~= cts_plain(cipher@, data@));
    Ok(plaintext)
}

/// What is said of a message without room for a confounder and a checksum.
pub open spec fn too_short() -> Seq<char> {
    "the Kerberos ciphertext is too short to hold a confounder and its checksum"@
}

/// What is said of a message whose checksum is another's.
pub open spec fn wrong_checksum() -> Seq<char> {
    "the Kerberos ticket's checksum does not match: it was not sealed under this key"@
}

/// What a decrypted message holds, where `tag` is the checksum it ought to
/// carry and `mac` the one it does.
pub open spec fn unsealed(plaintext: Seq<u8>, tag: Seq<u8>, mac: Seq<u8>) -> Result<
    Seq<u8>,
    Seq<char>,
> {
    if tag.take(MAC_LENGTH as int) != mac {
        Err(wrong_checksum())
    } else {
        Ok(plaintext.skip(BLOCK as int))
    }
}

/// What an etype-18 message holds under a base key, for a usage.
pub open spec fn opened(base_key: Seq<u8>, usage: u32, message: Seq<u8>) -> Result<
    Seq<u8>,
    Seq<char>,
> {
    if message.len() < BLOCK + MAC_LENGTH {
        Err(too_short())
    } else if base_key.len() != KEY_LENGTH {
        Err(wrong_key())
    } else {
        let end = message.len() - MAC_LENGTH;
        let plaintext = cts_plain(encryption_key(base_key, usage), message.take(end));
        let tag = hmac_sha1_tag(integrity_key(base_key, usage), plaintext);
        unsealed(plaintext, tag, message.skip(end))
    }
}

/// A decrypted message without its confounder, where the checksum `tag` that
/// it ought to carry starts with the one that it does.
///
/// # Errors
///
/// Where it does not.
pub fn unseal(plaintext: &[u8], tag: &[u8], mac: &[u8]) -> (data: Result<
    Vec<u8>,
    AuthenticateError,
>)
    requires
        BLOCK <= plaintext@.len(),
        MAC_LENGTH <= tag@.len(),
    ensures
        match data {
            Ok(data) => {
                &&& unsealed(plaintext@, tag@, mac@) == Ok::<Seq<u8>, Seq<char>>(data@)
                &&& data@.len() == plaintext@.len() - BLOCK
            },
            Err(error) => unsealed(plaintext@, tag@, mac@) == Err::<Seq<u8>, Seq<char>>(error@),
        },
{
    let checksum = slice_subrange(tag, 0, MAC_LENGTH);
    assert(checksum@ =~= tag@.take(MAC_LENGTH as int));
    if !bits::same(checksum, mac) {
        return Err(
            AuthenticateError::new(
                "the Kerberos ticket's checksum does not match: it was not sealed under this key",
            ),
        );
    }
    let data = slice_subrange(plaintext, BLOCK, plaintext.len());
    assert(data@ =~= plaintext@.skip(BLOCK as int));
    Ok(slice_to_vec(data))
}

/// Decrypt an etype-18 ciphertext under `base_key` for `usage`, checksum and
/// confounder removed.
///
/// # Errors
///
/// Where the ciphertext is too short to hold a confounder and a checksum,
/// where the key is not thirty-two bytes, or where the checksum does not
/// match — the reason names which.
pub fn decrypt(base_key: &[u8], usage: u32, message: &[u8]) -> (data: Result<
    Vec<u8>,
    AuthenticateError,
>)
    ensures
        match data {
            Ok(data) => {
                &&& opened(base_key@, usage, message@) == Ok::<Seq<u8>, Seq<char>>(data@)
                &&& data@.len() == message@.len() - BLOCK - MAC_LENGTH
            },
            Err(error) => opened(base_key@, usage, message@) == Err::<Seq<u8>, Seq<char>>(error@),
        },
{
    if message.len() < BLOCK + MAC_LENGTH {
        return Err(
            AuthenticateError::new(
                "the Kerberos ciphertext is too short to hold a confounder and its checksum",
            ),
        );
    }
    let base = match cipher(base_key) {
        Ok(base) => base,
        Err(error) => {
            return Err(error);
        },
    };
    let ke: Vec<u8> = derive(&base, usage, ENCRYPTION);
    let ki: Vec<u8> = derive(&base, usage, INTEGRITY);
    let end: usize = message.len() - MAC_LENGTH;
    let mac = slice_subrange(message, end, message.len());
    let sealing = match cipher(ke.as_slice()) {
        Ok(sealing) => sealing,
        Err(error) => {
            return Err(error);
        },
    };
    let ciphertext = slice_subrange(message, 0, end);
    assert(ciphertext@ =~= message@.take(end as int));
    assert(mac@ =~= message@.skip(end as int));
    let plaintext: Vec<u8> = match cbc_cts_decrypt(&sealing, ciphertext) {
        Ok(plaintext) => plaintext,
        Err(error) => {
            return Err(error);
        },
    };
    let tag: Vec<u8> = hmac_sha1(ki.as_slice(), plaintext.as_slice());
    unseal(plaintext.as_slice(), tag.as_slice(), mac)
}

/// The base key a password and salt derive to, RFC 3962 section 4.
pub open spec fn password_key(password: Seq<u8>, salt: Seq<u8>, iterations: u32) -> Seq<u8> {
    derived(pbkdf2_hmac_sha1(password, salt, iterations, KEY_LENGTH as nat), KERBEROS@)
}

/// The base key a password and salt derive to, RFC 3962 section 4:
/// PBKDF2-HMAC-SHA1 to a tentative key, then DK with the string `kerberos`.
///
/// # Errors
///
/// Never; the signature is fallible so a caller handles a key that will not
/// initialize a cipher.
pub fn string_to_key(password: &[u8], salt: &[u8], iterations: u32) -> (key: Result<
    Vec<u8>,
    AuthenticateError,
>)
    ensures
        key matches Ok(key) && key@.len() == KEY_LENGTH && key@ == password_key(
            password@,
            salt@,
            iterations,
        ) && key@ == derived(
            pbkdf2_hmac_sha1(password@, salt@, iterations, 32),
            seq![0x6bu8, 0x65, 0x72, 0x62, 0x65, 0x72, 0x6f, 0x73],
        ),
{
    let tentative = match pbkdf2_key(password, salt, iterations) {
        Ok(tentative) => tentative,
        Err(_) => {
            return Err(AuthenticateError::new("the PBKDF2 output length is wrong"));
        },
    };
    let base = Cipher { key: tentative };
    proof {
        lemma_constants_fold();
        assert(KERBEROS@ =~= seq![0x6bu8, 0x65, 0x72, 0x62, 0x65, 0x72, 0x6f, 0x73]);
    }
    Ok(derive_from(&base, KERBEROS.as_slice()))
}

/// The last block of `bytes`, or a block of zeros where there is none: what
/// the next block is chained to.
pub open spec fn chained_to(bytes: Seq<u8>) -> Seq<u8> {
    if bytes.len() < BLOCK {
        Seq::new(BLOCK as nat, |i: int| 0u8)
    } else {
        bytes.skip(bytes.len() - BLOCK)
    }
}

/// CBC encryption of whole blocks, IV of zero.
pub open spec fn cbc_cipher(key: Seq<u8>, plaintext: Seq<u8>) -> Seq<u8>
    decreases plaintext.len(),
{
    if plaintext.len() < BLOCK {
        Seq::empty()
    } else {
        let rest = plaintext.len() - BLOCK;
        let before = cbc_cipher(key, plaintext.take(rest));
        before + aes256_encrypted(key, xored(plaintext.skip(rest), chained_to(before)))
    }
}

/// `plaintext` with zeros after it to the end of its last block.
pub open spec fn padded(plaintext: Seq<u8>) -> Seq<u8> {
    Seq::new(
        (last_start(plaintext.len()) + BLOCK) as nat,
        |i: int|
            if i < plaintext.len() {
                plaintext[i]
            } else {
                0u8
            },
    )
}

/// What stealing makes of a chain of blocks for a plaintext of `length` bytes:
/// the two last blocks change places, and the one that then comes last is cut.
pub open spec fn stolen(chain: Seq<u8>, length: nat) -> Seq<u8> {
    let start = last_start(length);
    chain.take(start - BLOCK) + chain.skip(start) + chain.subrange(start - BLOCK, length - BLOCK)
}

/// CBC encryption with ciphertext stealing, RFC 3962, IV of zero, of one
/// block or more.
pub open spec fn cts_cipher(key: Seq<u8>, plaintext: Seq<u8>) -> Seq<u8> {
    if plaintext.len() == BLOCK {
        aes256_encrypted(key, plaintext)
    } else {
        stolen(cbc_cipher(key, padded(plaintext)), plaintext.len())
    }
}

/// An etype-18 message that holds `data` under a base key, for a usage.
pub open spec fn sealed(
    base_key: Seq<u8>,
    usage: u32,
    confounder: Seq<u8>,
    data: Seq<u8>,
) -> Seq<u8> {
    let plaintext = confounder + data;
    let tag = hmac_sha1_tag(integrity_key(base_key, usage), plaintext);
    cts_cipher(encryption_key(base_key, usage), plaintext) + tag.take(MAC_LENGTH as int)
}

/// One more block of the chain decrypts to one more block of plaintext.
proof fn lemma_chain_grows(
    key: Seq<u8>,
    chain: Seq<u8>,
    block: Seq<u8>,
    end: Seq<u8>,
)
    requires
        chain.len() % 16 == 0,
        block.len() == BLOCK,
        end.len() == BLOCK,
        decrypted_blocks(key, chain).len() == chain.len(),
        aes256_decrypted(key, end) == xored(block, chained_to(chain)),
    ensures
        decrypted_blocks(key, chain + end).len() == chain.len() + BLOCK,
        cbc_plain(key, chain + end) == cbc_plain(key, chain) + block,
{
    let longer = chain + end;
    assert(longer.take(longer.len() - BLOCK) =~= chain);
    assert(longer.skip(longer.len() - BLOCK) =~= end);
    let whole = cbc_plain(key, longer);
    assert forall|i: int| 0 <= i < whole.len() implies whole[i] == (cbc_plain(key, chain)
        + block)[i] by {
        if i >= chain.len() {
            let a = block[i - chain.len()];
            let b = chained_to(chain)[i - chain.len()];
            assert((a ^ b) ^ b == a) by (bit_vector);
            assert(a ^ 0u8 == a) by (bit_vector);
        }
    }
    assert(whole =~= cbc_plain(key, chain) + block);
}

/// CBC encryption of whole blocks, IV of zero.
fn cbc_encrypt(cipher: &Cipher, plaintext: &[u8]) -> (chain: Vec<u8>)
    requires
        plaintext@.len() % 16 == 0,
    ensures
        chain@ == cbc_cipher(cipher@, plaintext@),
        chain@.len() == plaintext@.len(),
        decrypted_blocks(cipher@, chain@).len() == chain@.len(),
        cbc_plain(cipher@, chain@) == plaintext@,
        aes256_decrypted(cipher@, chained_to(chain@)).len() == BLOCK || chain@.len() == 0,
{
    let mut chain: Vec<u8> = Vec::new();
    let mut previous = [0u8; BLOCK];
    let mut start: usize = 0;
    assert(previous@ =~= chained_to(chain@));
    assert(cbc_plain(cipher@, chain@) =~= plaintext@.take(0));
    while start < plaintext.len()
        invariant
            start <= plaintext@.len(),
            start % 16 == 0,
            plaintext@.len() % 16 == 0,
            chain@.len() == start,
            previous@ == chained_to(chain@),
            chain@ == cbc_cipher(cipher@, plaintext@.take(start as int)),
            decrypted_blocks(cipher@, chain@).len() == start,
            cbc_plain(cipher@, chain@) == plaintext@.take(start as int),
            aes256_decrypted(cipher@, chained_to(chain@)).len() == BLOCK || start == 0,
        decreases plaintext@.len() - start,
    {
        let block = block_at(plaintext, start);
        let end = aes_encrypt_block(&cipher.key, &xor(block, previous.as_slice()));
        proof {
            let longer = plaintext@.take(start + BLOCK);
            assert(longer.take(start as int) =~= plaintext@.take(start as int));
            assert(longer.skip(start as int) =~= block@);
            assert(longer =~= plaintext@.take(start as int) + block@);
            lemma_chain_grows(cipher@, chain@, block@, end@);
            assert(chained_to(chain@ + end@) =~= end@);
        }
        push_block(&mut chain, &end);
        previous = end;
        start += BLOCK;
    }
    assert(plaintext@.take(start as int) =~= plaintext@);
    chain
}

/// Stealing the end of a chain, and giving it back.
proof fn lemma_stealing_is_undone(
    key: Seq<u8>,
    plaintext: Seq<u8>,
    chain: Seq<u8>,
)
    requires
        plaintext.len() > BLOCK,
        chain.len() == padded(plaintext).len(),
        decrypted_blocks(key, chain).len() == chain.len(),
        cbc_plain(key, chain) == padded(plaintext),
        aes256_decrypted(key, chained_to(chain)).len() == BLOCK,
    ensures
        cts_plain(key, stolen(chain, plaintext.len())) == plaintext,
{
    let data = stolen(chain, plaintext.len());
    let start = last_start(plaintext.len());
    assert(chained_to(chain) =~= chain.skip(start));
    let recovered = aes256_decrypted(key, chain.skip(start));
    assert(data.len() == plaintext.len());
    assert(chain_end(data) =~= chain.skip(start));
    let blocks = decrypted_blocks(key, chain);
    assert(blocks =~= decrypted_blocks(key, chain.take(start)) + recovered);
    let kept = plaintext.len() - start;
    assert forall|j: int| kept <= j < BLOCK implies recovered[j] == chain[start - BLOCK + j] by {
        let a = recovered[j];
        let b = chain[start - BLOCK + j];
        assert(blocks[start + j] == a);
        assert(padded(plaintext)[start + j] == 0);
        assert(cbc_plain(key, chain)[start + j] == a ^ b);
        assert(a ^ b == 0u8 ==> a == b) by (bit_vector);
    }
    assert(unstolen(data, recovered) =~= chain);
    assert(cts_plain(key, data) =~= plaintext);
}

/// The bytes of `data` from `start` on, with zeros after them to the end of
/// the block.
fn block_from(data: &[u8], start: usize) -> (block: [u8; BLOCK])
    requires
        start < data@.len() <= start + BLOCK,
    ensures
        forall|i: int|
            0 <= i < BLOCK ==> #[trigger] block@[i] == (if start + i < data@.len() {
                data@[start + i]
            } else {
                0u8
            }),
{
    let mut block = [0u8; BLOCK];
    let mut index: usize = 0;
    while index < data.len() - start
        invariant
            index <= data@.len() - start,
            start < data@.len() <= start + BLOCK,
            forall|i: int| 0 <= i < index ==> block@[i] == data@[start + i],
            forall|i: int| index <= i < BLOCK ==> block@[i] == 0,
        decreases data@.len() - start - index,
    {
        block[index] = data[start + index];
        index += 1;
    }
    block
}

/// What stealing makes of a chain of blocks that ends in `end`, with `head`
/// before it, for a plaintext of `length` bytes.
pub fn steal(head: &[u8], end: &[u8; BLOCK], length: usize) -> (data: Vec<u8>)
    requires
        BLOCK < length,
        head@.len() == last_start(length as nat),
    ensures
        data@ == stolen(head@ + end@, length as nat),
        data@.len() == length,
{
    let start: usize = head.len();
    let mut data: Vec<u8> = slice_to_vec(slice_subrange(head, 0, start - BLOCK));
    push_block(&mut data, end);
    data.extend_from_slice(slice_subrange(head, start - BLOCK, length - BLOCK));
    assert(data@ =~= stolen(head@ + end@, length as nat));
    data
}

/// CBC encryption with ciphertext stealing, RFC 3962, IV of zero, which
/// [`cbc_cts_decrypt`] undoes at every length.
pub fn cbc_cts_encrypt(cipher: &Cipher, plaintext: &[u8]) -> (data: Vec<u8>)
    requires
        BLOCK <= plaintext@.len(),
    ensures
        data@ == cts_cipher(cipher@, plaintext@),
        data@.len() == plaintext@.len(),
        cts_plain(cipher@, data@) == plaintext@,
{
    let length: usize = plaintext.len();
    if length == BLOCK {
        let block = block_at(plaintext, 0);
        assert(block@ =~= plaintext@);
        let mut data: Vec<u8> = Vec::new();
        push_block(&mut data, &aes_encrypt_block(&cipher.key, &block));
        assert(data@ =~= cts_cipher(cipher@, plaintext@));
        return data;
    }
    let start: usize = (length - 1) / BLOCK * BLOCK;
    let whole = slice_subrange(plaintext, 0, start);
    let head: Vec<u8> = cbc_encrypt(cipher, whole);
    let block = block_from(plaintext, start);
    let previous = block_at(head.as_slice(), start - BLOCK);
    let end = aes_encrypt_block(&cipher.key, &xor(block, previous.as_slice()));
    proof {
        let chain = head@ + end@;
        let filled = padded(plaintext@);
        assert(filled.take(start as int) =~= whole@);
        assert(filled.skip(start as int) =~= block@);
        assert(filled =~= whole@ + block@);
        assert(previous@ =~= chained_to(head@));
        lemma_chain_grows(cipher@, head@, block@, end@);
        assert(chained_to(chain) =~= end@);
        assert(chain == cbc_cipher(cipher@, filled));
        lemma_stealing_is_undone(cipher@, plaintext@, chain);
    }
    steal(head.as_slice(), &end, length)
}

/// Under `key`, AES-256 encrypts every block to a block, and decrypts that
/// back to it.
pub open spec fn undoes_itself(key: Seq<u8>) -> bool {
    forall|block: Seq<u8>|
        block.len() == BLOCK ==> {
            &&& (#[trigger] aes256_encrypted(key, block)).len() == BLOCK
            &&& aes256_decrypted(key, aes256_encrypted(key, block)) == block
        }
}

/// CBC of whole blocks is undone.
proof fn lemma_cbc_is_undone(key: Seq<u8>, plaintext: Seq<u8>)
    requires
        undoes_itself(key),
        plaintext.len() % 16 == 0,
    ensures
        cbc_cipher(key, plaintext).len() == plaintext.len(),
        decrypted_blocks(key, cbc_cipher(key, plaintext)).len() == plaintext.len(),
        cbc_plain(key, cbc_cipher(key, plaintext)) == plaintext,
        aes256_decrypted(key, chained_to(cbc_cipher(key, plaintext))).len() == BLOCK
            || plaintext.len() == 0,
    decreases plaintext.len(),
{
    if plaintext.len() == 0 {
        assert(cbc_plain(key, cbc_cipher(key, plaintext)) =~= plaintext);
    } else {
        let rest = plaintext.len() - BLOCK;
        let before = cbc_cipher(key, plaintext.take(rest));
        let block = plaintext.skip(rest);
        lemma_cbc_is_undone(key, plaintext.take(rest));
        let end = aes256_encrypted(key, xored(block, chained_to(before)));
        lemma_chain_grows(key, before, block, end);
        assert(chained_to(before + end) =~= end);
        assert(plaintext.take(rest) + block =~= plaintext);
    }
}

/// What ciphertext stealing makes of a plaintext of one block or more is as
/// long as it and decrypts back to it, as AES-256 undoes itself.
pub proof fn law_stealing_is_undone_at_every_length(key: Seq<u8>, plaintext: Seq<u8>)
    requires
        BLOCK <= plaintext.len(),
    ensures
        undoes_itself(key) ==> {
            &&& cts_cipher(key, plaintext).len() == plaintext.len()
            &&& cts_plain(key, cts_cipher(key, plaintext)) == plaintext
        },
{
    if undoes_itself(key) && plaintext.len() > BLOCK {
        lemma_cbc_is_undone(key, padded(plaintext));
        lemma_stealing_is_undone(key, plaintext, cbc_cipher(key, padded(plaintext)));
    }
}

/// A message sealed under a base key and for a usage is twenty-eight bytes
/// longer than what it holds and opens to it under the same key and for the
/// same usage, as AES-256 undoes itself and an HMAC-SHA1 is twenty bytes.
pub proof fn law_a_sealed_message_opens(
    base_key: Seq<u8>,
    usage: u32,
    confounder: Seq<u8>,
    data: Seq<u8>,
)
    requires
        base_key.len() == KEY_LENGTH,
        confounder.len() == BLOCK,
    ensures
        undoes_itself(encryption_key(base_key, usage)) && hmac_sha1_tag(
            integrity_key(base_key, usage),
            confounder + data,
        ).len() == 20 ==> {
            let message = sealed(base_key, usage, confounder, data);
            &&& message.len() == data.len() + BLOCK + MAC_LENGTH
            &&& opened(base_key, usage, message) == Ok::<Seq<u8>, Seq<char>>(data)
        },
{
    let plaintext = confounder + data;
    let ke = encryption_key(base_key, usage);
    let tag = hmac_sha1_tag(integrity_key(base_key, usage), plaintext);
    if undoes_itself(ke) && tag.len() == 20 {
        law_stealing_is_undone_at_every_length(ke, plaintext);
        let message = sealed(base_key, usage, confounder, data);
        let end = message.len() - MAC_LENGTH;
        assert(message.take(end) =~= cts_cipher(ke, plaintext));
        assert(message.skip(end) =~= tag.take(MAC_LENGTH as int));
        assert(plaintext.skip(BLOCK as int) =~= data);
    }
}

/// Seal `data` as an etype-18 message under `base_key` for `usage`, which
/// [`decrypt`] opens under the same key and for the same usage.
///
/// # Errors
///
/// Where the key is not thirty-two bytes.
pub fn encrypt(base_key: &[u8], usage: u32, confounder: [u8; BLOCK], data: &[u8]) -> (message:
    Result<Vec<u8>, AuthenticateError>)
    requires
        BLOCK + data@.len() + MAC_LENGTH <= usize::MAX,
    ensures
        match message {
            Ok(message) => {
                &&& base_key@.len() == KEY_LENGTH
                &&& message@ == sealed(base_key@, usage, confounder@, data@)
                &&& message@.len() == BLOCK + data@.len() + MAC_LENGTH
                &&& opened(base_key@, usage, message@) == Ok::<Seq<u8>, Seq<char>>(data@)
            },
            Err(error) => base_key@.len() != KEY_LENGTH && error@ == wrong_key(),
        },
{
    let base = match cipher(base_key) {
        Ok(base) => base,
        Err(error) => {
            return Err(error);
        },
    };
    let ke: Vec<u8> = derive(&base, usage, ENCRYPTION);
    let ki: Vec<u8> = derive(&base, usage, INTEGRITY);
    let sealing = match cipher(ke.as_slice()) {
        Ok(sealing) => sealing,
        Err(error) => {
            return Err(error);
        },
    };
    let mut plaintext: Vec<u8> = Vec::new();
    push_block(&mut plaintext, &confounder);
    plaintext.extend_from_slice(data);
    assert(plaintext@ =~= confounder@ + data@);
    let tag: Vec<u8> = hmac_sha1(ki.as_slice(), plaintext.as_slice());
    let mut message: Vec<u8> = cbc_cts_encrypt(&sealing, plaintext.as_slice());
    let ghost ciphertext = message@;
    message.extend_from_slice(slice_subrange(tag.as_slice(), 0, MAC_LENGTH));
    proof {
        let mac = tag@.take(MAC_LENGTH as int);
        let end = message@.len() - MAC_LENGTH;
        assert(message@ =~= ciphertext + mac);
        assert(message@.take(end) =~= ciphertext);
        assert(message@.skip(end) =~= mac);
        assert(plaintext@.skip(BLOCK as int) =~= data@);
    }
    Ok(message)
}

} // verus!
