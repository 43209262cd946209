//! Laws of `aes256-cts-hmac-sha1-96`, said on what AES-256, HMAC-SHA1 and
//! PBKDF2 make of bytes.
use crate::crypto;
use crate::fold;
use vstd::prelude::*;

verus! {

/// The block at an index of whole blocks is decrypted by itself.
proof fn lemma_each_block_is_decrypted(key: Seq<u8>, ciphertext: Seq<u8>, at: int)
    requires
        forall|b: Seq<u8>| b.len() == 16 ==> (#[trigger] crypto::aes256_decrypted(key, b)).len()
            == 16,
        ciphertext.len() % 16 == 0,
        0 <= at < ciphertext.len(),
    ensures
        crypto::decrypted_blocks(key, ciphertext).len() == ciphertext.len(),
        crypto::decrypted_blocks(key, ciphertext)[at] == crypto::aes256_decrypted(
            key,
            ciphertext.subrange(at / 16 * 16, at / 16 * 16 + 16),
        )[at % 16],
    decreases ciphertext.len(),
{
    let rest = ciphertext.len() - 16;
    let before = ciphertext.take(rest);
    let last = ciphertext.skip(rest);
    assert(last.len() == 16);
    assert(crypto::aes256_decrypted(key, last).len() == 16);
    if rest > 0 {
        lemma_each_block_is_decrypted(key, before, 0);
    } else {
        assert(crypto::decrypted_blocks(key, before) =~= Seq::empty());
    }
    if at < rest {
        lemma_each_block_is_decrypted(key, before, at);
        assert(before.subrange(at / 16 * 16, at / 16 * 16 + 16) =~= ciphertext.subrange(
            at / 16 * 16,
            at / 16 * 16 + 16,
        ));
    } else {
        assert(at / 16 * 16 == rest);
        assert(last =~= ciphertext.subrange(rest, rest + 16));
    }
}

/// A byte of what ciphertext stealing decrypts to, by the block it stands in
/// once the last two have changed places.
proof fn lemma_ordered_byte(key: Seq<u8>, data: Seq<u8>, at: int)
    requires
        forall|b: Seq<u8>| b.len() == 16 ==> (#[trigger] crypto::aes256_decrypted(key, b)).len()
            == 16,
        16 < data.len(),
        0 <= at < data.len(),
    ensures
        ({
            let start = (data.len() - 1) / 16 * 16;
            let last = data.subrange(start - 16, start);
            let end = crypto::aes256_decrypted(key, last);
            let ordered = data.take(start - 16) + (data.skip(start) + end.skip(
                data.len() - start,
            )) + last;
            let plain = crypto::cts_plain(key, data);
            let byte = crypto::aes256_decrypted(
                key,
                ordered.subrange(at / 16 * 16, at / 16 * 16 + 16),
            )[at % 16];
            &&& end.len() == 16
            &&& ordered.len() == start + 16
            &&& plain.len() == data.len()
            &&& plain[at] == if at < 16 {
                byte
            } else {
                byte ^ ordered[at - 16]
            }
        }),
{
    let start = (data.len() - 1) / 16 * 16;
    let last = data.subrange(start - 16, start);
    assert(last.len() == 16);
    let end = crypto::aes256_decrypted(key, last);
    assert(end.len() == 16);
    let ordered = data.take(start - 16) + (data.skip(start) + end.skip(data.len() - start)) + last;
    assert(crypto::unstolen(data, end) =~= ordered);
    lemma_each_block_is_decrypted(key, ordered, at);
}

/// The bytes of a message under ciphertext stealing, block by block.
proof fn lemma_stolen_byte(key: Seq<u8>, data: Seq<u8>, at: int)
    requires
        forall|b: Seq<u8>| b.len() == 16 ==> (#[trigger] crypto::aes256_decrypted(key, b)).len()
            == 16,
        16 < data.len(),
        0 <= at < data.len(),
    ensures
        ({
            let plain = crypto::cts_plain(key, data);
            let start = (data.len() - 1) / 16 * 16;
            let end = crypto::aes256_decrypted(key, data.subrange(start - 16, start));
            let cut = data.skip(start) + end.skip(data.len() - start);
            let own = at / 16 * 16;
            &&& plain.len() == data.len()
            &&& at >= start ==> plain[at] == end[at - start] ^ data[at]
            &&& start - 16 <= at < start ==> plain[at] == (if at < 16 {
                crypto::aes256_decrypted(key, cut)[at]
            } else {
                crypto::aes256_decrypted(key, cut)[at - own] ^ data[at - 16]
            })
            &&& at < start - 16 ==> plain[at] == (if at < 16 {
                crypto::aes256_decrypted(key, data.take(16))[at]
            } else {
                crypto::aes256_decrypted(key, data.subrange(own, own + 16))[at - own] ^ data[at
                    - 16]
            })
        }),
{
    lemma_ordered_byte(key, data, at);
    let start = (data.len() - 1) / 16 * 16;
    let last = data.subrange(start - 16, start);
    let end = crypto::aes256_decrypted(key, last);
    let cut = data.skip(start) + end.skip(data.len() - start);
    let ordered = data.take(start - 16) + cut + last;
    let own = at / 16 * 16;
    let block = ordered.subrange(own, own + 16);
    assert(at % 16 == at - own);
    if at >= start {
        assert(own == start);
        assert(block =~= last);
        assert(ordered[at - 16] == data[at]);
    } else if at >= start - 16 {
        assert(own == start - 16);
        assert(block =~= cut);
        if at >= 16 {
            assert(ordered[at - 16] == data[at - 16]);
        }
    } else {
        assert(own + 16 <= start - 16);
        assert(block =~= data.subrange(own, own + 16));
        if at < 16 {
            assert(data.subrange(own, own + 16) =~= data.take(16));
        } else {
            assert(ordered[at - 16] == data[at - 16]);
        }
    }
}

/// What ciphertext stealing decrypts to, byte by byte: the last two blocks
/// change places first, what was cut from the one being the end of what the
/// other decrypts to, and each block is then decrypted by itself and added to
/// the one before it.
pub proof fn law_stealing_is_undone_byte_by_byte(key: Seq<u8>, data: Seq<u8>, at: int)
    requires
        16 <= data.len(),
        0 <= at < data.len(),
    ensures
        (forall|b: Seq<u8>| b.len() == 16 ==> (#[trigger] crypto::aes256_decrypted(key, b)).len()
            == 16) ==> {
            let plain = crypto::cts_plain(key, data);
            let start = (data.len() - 1) / 16 * 16;
            let end = crypto::aes256_decrypted(key, data.subrange(start - 16, start));
            let cut = data.skip(start) + end.skip(data.len() - start);
            let own = at / 16 * 16;
            &&& plain.len() == data.len()
            &&& data.len() == 16 ==> plain == crypto::aes256_decrypted(key, data)
            &&& data.len() > 16 && at >= start ==> plain[at] == end[at - start] ^ data[at]
            &&& data.len() > 16 && start - 16 <= at < start ==> plain[at] == (if at < 16 {
                crypto::aes256_decrypted(key, cut)[at]
            } else {
                crypto::aes256_decrypted(key, cut)[at - own] ^ data[at - 16]
            })
            &&& data.len() > 16 && at < start - 16 ==> plain[at] == (if at < 16 {
                crypto::aes256_decrypted(key, data.take(16))[at]
            } else {
                crypto::aes256_decrypted(key, data.subrange(own, own + 16))[at - own] ^ data[at
                    - 16]
            })
        },
{
    if (forall|b: Seq<u8>| b.len() == 16 ==> (#[trigger] crypto::aes256_decrypted(key, b)).len()
        == 16) {
        if data.len() == 16 {
            assert(crypto::aes256_decrypted(key, data).len() == 16);
        } else {
            lemma_stolen_byte(key, data, at);
        }
    }
}

/// Adding a block adds it byte by byte, as far as it reaches.
pub proof fn law_blocks_are_added_byte_by_byte(a: Seq<u8>, b: Seq<u8>, at: int)
    requires
        0 <= at < a.len(),
    ensures
        crypto::xored(a, b).len() == a.len(),
        at < b.len() ==> crypto::xored(a, b)[at] == a[at] ^ b[at],
        at >= b.len() ==> crypto::xored(a, b)[at] == a[at],
{
}

/// A derived key is its constant folded to sixteen bytes and encrypted, and
/// that encrypted again.
pub proof fn law_a_derived_key_is_two_encryptions(key: Seq<u8>, constant: Seq<u8>)
    ensures
        crypto::derived(key, constant) == crypto::aes256_encrypted(key, fold::folded(constant, 16))
            + crypto::aes256_encrypted(
            key,
            crypto::aes256_encrypted(key, fold::folded(constant, 16)),
        ),
{
}

/// A usage and a variant are the usage in four bytes, most significant first,
/// and the variant.
pub proof fn law_a_usage_is_written_in_four_bytes(usage: u32, variant: u8)
    ensures
        ({
            let constant = crypto::usage_constant(usage, variant);
            &&& constant.len() == 5
            &&& 0x100_0000 * constant[0] + 0x1_0000 * constant[1] + 0x100 * constant[2]
                + constant[3] == usage
            &&& constant[4] == variant
        }),
{
}

/// Five bytes that write a usage and a variant are that constant.
proof fn lemma_usage_constant(usage: u32, variant: u8, constant: Seq<u8>)
    requires
        constant.len() == 5,
        0x100_0000 * constant[0] + 0x1_0000 * constant[1] + 0x100 * constant[2] + constant[3]
            == usage,
        constant[4] == variant,
    ensures
        constant == crypto::usage_constant(usage, variant),
{
    let n = usage as int;
    let (a, b, c, d) = (
        constant[0] as int,
        constant[1] as int,
        constant[2] as int,
        constant[3] as int,
    );
    assert(n / 0x100_0000 == a) by {
        vstd::arithmetic::div_mod::lemma_fundamental_div_mod_converse(
            n,
            0x100_0000,
            a,
            0x1_0000 * b + 0x100 * c + d,
        );
    }
    assert(n / 0x1_0000 == 0x100 * a + b) by {
        vstd::arithmetic::div_mod::lemma_fundamental_div_mod_converse(
            n,
            0x1_0000,
            0x100 * a + b,
            0x100 * c + d,
        );
    }
    assert(n / 0x100 == 0x1_0000 * a + 0x100 * b + c) by {
        vstd::arithmetic::div_mod::lemma_fundamental_div_mod_converse(
            n,
            0x100,
            0x1_0000 * a + 0x100 * b + c,
            d,
        );
    }
    let wanted = crypto::usage_constant(usage, variant);
    assert(wanted[0] == constant[0]);
    assert(wanted[1] == constant[1]);
    assert(wanted[2] == constant[2]);
    assert(wanted[3] == constant[3]);
    assert(constant =~= wanted);
}

/// A message is opened by decrypting all but its last twelve bytes under the
/// key derived with the usage and the byte 170, and holds what follows the
/// first sixteen bytes of that, where its last twelve bytes are the first of
/// the checksum under the key derived with the usage and the byte 85; it is
/// refused where they are not.
pub proof fn law_a_message_is_opened_under_its_subkeys(
    base_key: Seq<u8>,
    usage: u32,
    message: Seq<u8>,
    for_cipher: Seq<u8>,
    for_checksum: Seq<u8>,
)
    requires
        base_key.len() == 32,
        message.len() >= 28,
        for_cipher.len() == 5,
        0x100_0000 * for_cipher[0] + 0x1_0000 * for_cipher[1] + 0x100 * for_cipher[2]
            + for_cipher[3] == usage,
        for_cipher[4] == 0xaa,
        for_checksum.len() == 5,
        0x100_0000 * for_checksum[0] + 0x1_0000 * for_checksum[1] + 0x100 * for_checksum[2]
            + for_checksum[3] == usage,
        for_checksum[4] == 0x55,
    ensures
        ({
            let end = message.len() - 12;
            let plain = crypto::cts_plain(
                crypto::derived(base_key, for_cipher),
                message.take(end),
            );
            let tag = crypto::hmac_sha1_tag(crypto::derived(base_key, for_checksum), plain);
            &&& tag.take(12) == message.skip(end) ==> crypto::opened(base_key, usage, message)
                == Ok::<Seq<u8>, Seq<char>>(plain.skip(16))
            &&& tag.take(12) != message.skip(end) ==> crypto::opened(base_key, usage, message)
                == Err::<Seq<u8>, Seq<char>>(
                "the Kerberos ticket's checksum does not match: it was not sealed under this key"@,
            )
        }),
{
    lemma_usage_constant(usage, 0xaa, for_cipher);
    lemma_usage_constant(usage, 0x55, for_checksum);
}

/// What is decrypted is let through, without its first sixteen bytes, exactly
/// where the checksum it carries is the first twelve bytes of the one it ought
/// to.
pub proof fn law_a_checksum_is_twelve_bytes_of_its_tag(
    plaintext: Seq<u8>,
    tag: Seq<u8>,
    mac: Seq<u8>,
)
    ensures
        tag.take(12) == mac ==> crypto::unsealed(plaintext, tag, mac) == Ok::<Seq<u8>, Seq<char>>(
            plaintext.skip(16),
        ),
        tag.take(12) != mac ==> crypto::unsealed(plaintext, tag, mac) == Err::<Seq<u8>, Seq<char>>(
            "the Kerberos ticket's checksum does not match: it was not sealed under this key"@,
        ),
{
}

/// A message under twenty-eight bytes is refused, and so is a key that is not
/// thirty-two.
pub proof fn law_short_messages_and_other_keys_are_refused(
    base_key: Seq<u8>,
    usage: u32,
    message: Seq<u8>,
)
    ensures
        message.len() < 28 ==> crypto::opened(base_key, usage, message) == Err::<
            Seq<u8>,
            Seq<char>,
        >("the Kerberos ciphertext is too short to hold a confounder and its checksum"@),
        message.len() >= 28 && base_key.len() != 32 ==> crypto::opened(base_key, usage, message)
            == Err::<Seq<u8>, Seq<char>>("an aes256-cts-hmac-sha1-96 key is thirty-two bytes"@),
{
}

/// Blocks that are each the encryption of a block of plaintext added to the
/// block before it are the chain of that plaintext.
proof fn lemma_blocks_are_the_chain(
    key: Seq<u8>,
    plaintext: Seq<u8>,
    chain: Seq<Seq<u8>>,
    count: int,
)
    requires
        crypto::undoes_itself(key),
        plaintext.len() > 0,
        chain.len() == (plaintext.len() + 15) / 16,
        0 <= count <= chain.len(),
        forall|b: int|
            0 <= b < chain.len() ==> #[trigger] chain[b] == crypto::aes256_encrypted(
                key,
                Seq::new(
                    16,
                    |i: int|
                        (if 16 * b + i < plaintext.len() {
                            plaintext[16 * b + i]
                        } else {
                            0u8
                        }) ^ (if b > 0 {
                            chain[b - 1][i]
                        } else {
                            0u8
                        }),
                ),
            ),
    ensures
        crypto::padded(plaintext).len() == 16 * chain.len(),
        chain.take(count).flatten_alt() == crypto::cbc_cipher(
            key,
            crypto::padded(plaintext).take(16 * count),
        ),
        chain.take(count).flatten_alt().len() == 16 * count,
        count > 0 ==> chain[count - 1].len() == 16 && crypto::chained_to(
            chain.take(count).flatten_alt(),
        ) == chain[count - 1],
    decreases count,
{
    let whole = crypto::padded(plaintext);
    if count == 0 {
        assert(chain.take(0) =~= Seq::empty());
        assert(whole.take(0) =~= Seq::empty());
    } else {
        let b = count - 1;
        lemma_blocks_are_the_chain(key, plaintext, chain, b);
        let before = chain.take(b).flatten_alt();
        let longer = whole.take(16 * count);
        assert(chain.take(count).drop_last() =~= chain.take(b));
        assert(longer.take(16 * b) =~= whole.take(16 * b));
        let block = longer.skip(16 * b);
        let added = crypto::xored(block, crypto::chained_to(before));
        assert(added.len() == 16);
        let inner = Seq::new(
            16,
            |i: int|
                (if 16 * b + i < plaintext.len() {
                    plaintext[16 * b + i]
                } else {
                    0u8
                }) ^ (if b > 0 {
                    chain[b - 1][i]
                } else {
                    0u8
                }),
        );
        assert(chain[b] == crypto::aes256_encrypted(key, inner));
        assert(added =~= inner);
        assert(crypto::aes256_encrypted(key, added).len() == 16);
        let now = chain.take(count).flatten_alt();
        assert(now == before + chain[b]);
        assert(crypto::chained_to(now) =~= chain[b]);
    }
}

/// What ciphertext stealing makes of a plaintext, by the blocks of its chain.
#[verifier::rlimit(40)]
proof fn lemma_stolen_chain(key: Seq<u8>, plaintext: Seq<u8>, chain: Seq<Seq<u8>>)
    requires
        crypto::undoes_itself(key),
        plaintext.len() >= 16,
        chain.len() == (plaintext.len() + 15) / 16,
        forall|b: int|
            0 <= b < chain.len() ==> #[trigger] chain[b] == crypto::aes256_encrypted(
                key,
                Seq::new(
                    16,
                    |i: int|
                        (if 16 * b + i < plaintext.len() {
                            plaintext[16 * b + i]
                        } else {
                            0u8
                        }) ^ (if b > 0 {
                            chain[b - 1][i]
                        } else {
                            0u8
                        }),
                ),
            ),
    ensures
        ({
            let last = chain.len() - 1;
            crypto::cts_cipher(key, plaintext) == if plaintext.len() == 16 {
                chain[0]
            } else {
                chain.take(last - 1).flatten_alt() + chain[last] + chain[last - 1].take(
                    plaintext.len() - 16 * last,
                )
            }
        }),
{
    let last = chain.len() - 1;
    let whole = crypto::padded(plaintext);
    lemma_blocks_are_the_chain(key, plaintext, chain, last + 1);
    lemma_blocks_are_the_chain(key, plaintext, chain, last);
    assert(whole.take(16 * (last + 1)) =~= whole);
    assert(chain.take(last + 1).drop_last() =~= chain.take(last));
    let all = crypto::cbc_cipher(key, whole);
    assert(all == chain.take(last).flatten_alt() + chain[last]);
    if plaintext.len() == 16 {
        assert(whole =~= plaintext);
        assert(plaintext.take(0) =~= Seq::empty());
        assert(crypto::xored(plaintext.skip(0), crypto::chained_to(Seq::empty())) =~= plaintext)
            by {
            assert forall|i: int| 0 <= i < 16 implies #[trigger] plaintext[i] ^ 0u8
                == plaintext[i] by {
                let a = plaintext[i];
                assert(a ^ 0u8 == a) by (bit_vector);
            }
        }
        assert(all =~= crypto::aes256_encrypted(key, plaintext));
        assert(chain.take(0).flatten_alt() + chain[0] =~= chain[0]);
    } else {
        lemma_blocks_are_the_chain(key, plaintext, chain, last - 1);
        assert(chain.take(last).drop_last() =~= chain.take(last - 1));
        let head = chain.take(last - 1).flatten_alt();
        assert(all == head + chain[last - 1] + chain[last]);
        let start = crypto::last_start(plaintext.len());
        assert(start == 16 * last);
        assert(all.take(start - 16) =~= head);
        assert(all.skip(start) =~= chain[last]);
        assert(all.subrange(start - 16, plaintext.len() - 16) =~= chain[last - 1].take(
            plaintext.len() - 16 * last,
        ));
    }
}

/// What is sealed as RFC 3962 has it opens to what was sealed, for every key,
/// usage, confounder and data: the confounder and the data are encrypted block
/// by block, each added to the block before it and the last filled up with
/// zeros, under the key derived with the usage and the byte 170; the last two
/// blocks change places and the one that then comes last is cut to the length;
/// and the first twelve bytes of the checksum of the confounder and the data,
/// under the key derived with the usage and the byte 85, follow. AES-256
/// decrypting each block to what it encrypted is what it rests on.
pub proof fn law_what_a_kdc_seals_opens(
    base_key: Seq<u8>,
    usage: u32,
    confounder: Seq<u8>,
    data: Seq<u8>,
    for_cipher: Seq<u8>,
    for_checksum: Seq<u8>,
    chain: Seq<Seq<u8>>,
    message: Seq<u8>,
)
    requires
        base_key.len() == 32,
        confounder.len() == 16,
        for_cipher.len() == 5,
        0x100_0000 * for_cipher[0] + 0x1_0000 * for_cipher[1] + 0x100 * for_cipher[2]
            + for_cipher[3] == usage,
        for_cipher[4] == 0xaa,
        for_checksum.len() == 5,
        0x100_0000 * for_checksum[0] + 0x1_0000 * for_checksum[1] + 0x100 * for_checksum[2]
            + for_checksum[3] == usage,
        for_checksum[4] == 0x55,
        chain.len() == (16 + data.len() + 15) / 16,
    ensures
        ({
            let key = crypto::derived(base_key, for_cipher);
            let plaintext = confounder + data;
            let tag = crypto::hmac_sha1_tag(crypto::derived(base_key, for_checksum), plaintext);
            let last = chain.len() - 1;
            &&& forall|block: Seq<u8>|
                block.len() == 16 ==> {
                    &&& (#[trigger] crypto::aes256_encrypted(key, block)).len() == 16
                    &&& crypto::aes256_decrypted(key, crypto::aes256_encrypted(key, block)) == block
                }
            &&& tag.len() == 20
            &&& forall|b: int|
                0 <= b < chain.len() ==> #[trigger] chain[b] == crypto::aes256_encrypted(
                    key,
                    Seq::new(
                        16,
                        |i: int|
                            (if 16 * b + i < plaintext.len() {
                                plaintext[16 * b + i]
                            } else {
                                0u8
                            }) ^ (if b > 0 {
                                chain[b - 1][i]
                            } else {
                                0u8
                            }),
                    ),
                )
            &&& message == (if data.len() == 0 {
                chain[0]
            } else {
                chain.take(last - 1).flatten_alt() + chain[last] + chain[last - 1].take(
                    plaintext.len() - 16 * last,
                )
            }) + tag.take(12)
        }) ==> {
            &&& message.len() == data.len() + 28
            &&& crypto::opened(base_key, usage, message) == Ok::<Seq<u8>, Seq<char>>(data)
            &&& crypto::sealed(base_key, usage, confounder, data) == message
        },
{
    let key = crypto::derived(base_key, for_cipher);
    let plaintext = confounder + data;
    let tag = crypto::hmac_sha1_tag(crypto::derived(base_key, for_checksum), plaintext);
    let last = chain.len() - 1;
    lemma_usage_constant(usage, 0xaa, for_cipher);
    lemma_usage_constant(usage, 0x55, for_checksum);
    if {
        &&& crypto::undoes_itself(key)
        &&& tag.len() == 20
        &&& forall|b: int|
            0 <= b < chain.len() ==> #[trigger] chain[b] == crypto::aes256_encrypted(
                key,
                Seq::new(
                    16,
                    |i: int|
                        (if 16 * b + i < plaintext.len() {
                            plaintext[16 * b + i]
                        } else {
                            0u8
                        }) ^ (if b > 0 {
                            chain[b - 1][i]
                        } else {
                            0u8
                        }),
                ),
            )
        &&& message == (if data.len() == 0 {
            chain[0]
        } else {
            chain.take(last - 1).flatten_alt() + chain[last] + chain[last - 1].take(
                plaintext.len() - 16 * last,
            )
        }) + tag.take(12)
    } {
        crypto::law_a_sealed_message_opens(base_key, usage, confounder, data);
        lemma_stolen_chain(key, plaintext, chain);
    }
}

/// A password's key is derived with the text `kerberos` from what PBKDF2 makes
/// of the password and the salt in as many rounds as are asked for, in
/// thirty-two bytes.
pub proof fn law_a_password_is_stretched_in_the_rounds_asked_for(
    password: Seq<u8>,
    salt: Seq<u8>,
    iterations: u32,
)
    ensures
        crypto::password_key(password, salt, iterations) == crypto::derived(
            crypto::pbkdf2_hmac_sha1(password, salt, iterations, 32),
            seq![0x6bu8, 0x65, 0x72, 0x62, 0x65, 0x72, 0x6f, 0x73],
        ),
{
    assert(crypto::KERBEROS@ =~= seq![0x6bu8, 0x65, 0x72, 0x62, 0x65, 0x72, 0x6f, 0x73]);
}

} // verus!
