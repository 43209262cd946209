//! Byte strings read as big-endian bit strings, and as numbers.
use vstd::prelude::*;

verus! {

/// Bit `i` of `bytes`, counted from the most significant bit of the first
/// byte.
pub open spec fn bit(bytes: Seq<u8>, i: int) -> bool {
    (bytes[i / 8] >> ((7 - i % 8) as u8)) & 1u8 == 1u8
}

/// `bytes` as a string of bits, most significant first.
pub open spec fn bits_of(bytes: Seq<u8>) -> Seq<bool> {
    Seq::new(8 * bytes.len(), |i: int| bit(bytes, i))
}

/// What a bit is worth when it stands `place` bits from the right.
pub open spec fn worth(set: bool, place: u8) -> u8 {
    if set {
        1u8 << place
    } else {
        0u8
    }
}

/// The byte whose bits are those from `start` on.
pub open spec fn byte_at(bits: Seq<bool>, start: int) -> u8 {
    worth(bits[start], 7) | worth(bits[start + 1], 6) | worth(bits[start + 2], 5) | worth(
        bits[start + 3],
        4,
    ) | worth(bits[start + 4], 3) | worth(bits[start + 5], 2) | worth(bits[start + 6], 1) | worth(
        bits[start + 7],
        0,
    )
}

/// The bytes a string of whole octets spells.
pub open spec fn bytes_of(bits: Seq<bool>) -> Seq<u8> {
    Seq::new(bits.len() / 8, |i: int| byte_at(bits, 8 * i))
}

/// A byte string is what its bits spell.
pub proof fn law_bytes_are_their_bits(bytes: Seq<u8>)
    ensures
        bytes_of(bits_of(bytes)) == bytes,
{
    let bits = bits_of(bytes);
    assert(bits.len() == 8 * bytes.len());
    assert forall|i: int| 0 <= i < bytes.len() implies bytes_of(bits)[i] == bytes[i] by {
        let b = bytes[i];
        let s = 8 * i;
        assert(s / 8 == i && (s + 1) / 8 == i && (s + 2) / 8 == i && (s + 3) / 8 == i);
        assert((s + 4) / 8 == i && (s + 5) / 8 == i && (s + 6) / 8 == i && (s + 7) / 8 == i);
        assert(bits[s] == ((b >> 7u8) & 1u8 == 1u8));
        assert(bits[s + 1] == ((b >> 6u8) & 1u8 == 1u8));
        assert(bits[s + 2] == ((b >> 5u8) & 1u8 == 1u8));
        assert(bits[s + 3] == ((b >> 4u8) & 1u8 == 1u8));
        assert(bits[s + 4] == ((b >> 3u8) & 1u8 == 1u8));
        assert(bits[s + 5] == ((b >> 2u8) & 1u8 == 1u8));
        assert(bits[s + 6] == ((b >> 1u8) & 1u8 == 1u8));
        assert(bits[s + 7] == ((b >> 0u8) & 1u8 == 1u8));
        assert(({
            let w7: u8 = if (b >> 7u8) & 1u8 == 1u8 { 1u8 << 7u8 } else { 0u8 };
            let w6: u8 = if (b >> 6u8) & 1u8 == 1u8 { 1u8 << 6u8 } else { 0u8 };
            let w5: u8 = if (b >> 5u8) & 1u8 == 1u8 { 1u8 << 5u8 } else { 0u8 };
            let w4: u8 = if (b >> 4u8) & 1u8 == 1u8 { 1u8 << 4u8 } else { 0u8 };
            let w3: u8 = if (b >> 3u8) & 1u8 == 1u8 { 1u8 << 3u8 } else { 0u8 };
            let w2: u8 = if (b >> 2u8) & 1u8 == 1u8 { 1u8 << 2u8 } else { 0u8 };
            let w1: u8 = if (b >> 1u8) & 1u8 == 1u8 { 1u8 << 1u8 } else { 0u8 };
            let w0: u8 = if (b >> 0u8) & 1u8 == 1u8 { 1u8 << 0u8 } else { 0u8 };
            w7 | w6 | w5 | w4 | w3 | w2 | w1 | w0
        }) == b) by (bit_vector);
    }
}

/// `bits` moved `by` places to the right, what falls off coming back on the
/// left.
pub open spec fn rotate(bits: Seq<bool>, by: nat) -> Seq<bool> {
    Seq::new(bits.len(), |i: int| bits[(i - by) % (bits.len() as int)])
}

/// `bytes` as one bit string, rotated right by `by` bits.
pub open spec fn rotated(bytes: Seq<u8>, by: nat) -> Seq<u8> {
    bytes_of(rotate(bits_of(bytes), by))
}

/// Rotated by no bits, a byte string is itself.
pub proof fn law_a_rotation_by_nothing_is_the_input(bytes: Seq<u8>)
    ensures
        rotated(bytes, 0) == bytes,
{
    let all = bits_of(bytes);
    let turned = rotate(all, 0);
    assert forall|i: int| 0 <= i < all.len() implies #[trigger] turned[i] == all[i] by {
        vstd::arithmetic::div_mod::lemma_small_mod(i as nat, all.len());
    }
    assert(turned =~= all);
    law_bytes_are_their_bits(bytes);
}

proof fn lemma_set_bit(byte: u8, value: u8, place: u8, other: u8)
    by (bit_vector)
    requires
        value <= 1,
        place <= 7,
        other <= 7,
    ensures
        other != place ==> ((byte | (value << place)) >> other) & 1u8 == (byte >> other) & 1u8,
        (byte >> place) & 1u8 == 0u8 ==> ((byte | (value << place)) >> place) & 1u8 == value,
{
}

proof fn lemma_one_bit(byte: u8, place: u8)
    by (bit_vector)
    requires
        place <= 7,
    ensures
        (byte >> place) & 1u8 <= 1,
        (0u8 >> place) & 1u8 == 0u8,
{
}

/// `input` as a big-endian bit string, rotated right by `bits`.
pub fn rotate_right(input: &[u8], bits: usize) -> (out: Vec<u8>)
    requires
        0 < input@.len(),
        8 * input@.len() <= usize::MAX,
    ensures
        out@ == rotated(input@, bits as nat),
{
    let total: usize = input.len() * 8;
    let shift: usize = bits % total;
    let mut out: Vec<u8> = vec![0u8; input.len()];
    let ghost wanted = rotate(bits_of(input@), bits as nat);
    assert forall|j: int| 0 <= j < total implies !bit(out@, j) by {
        lemma_one_bit(0, (7 - j % 8) as u8);
    }
    let mut target: usize = 0;
    while target < total
        invariant
            total == 8 * input@.len(),
            total > 0,
            shift == bits as int % total as int,
            target <= total,
            out@.len() == input@.len(),
            wanted == rotate(bits_of(input@), bits as nat),
            forall|j: int| 0 <= j < target ==> bit(out@, j) == wanted[j],
            forall|j: int| target <= j < total ==> !bit(out@, j),
        decreases total - target,
    {
        let source: usize = if target >= shift {
            target - shift
        } else {
            target + (total - shift)
        };
        let from: u8 = (7 - source % 8) as u8;
        let place: u8 = (7 - target % 8) as u8;
        let value: u8 = (input[source / 8] >> from) & 1u8;
        let index: usize = target / 8;
        let ghost before = out@;
        let byte: u8 = out[index];
        out.set(index, byte | (value << place));
        proof {
            lemma_one_bit(input@[source as int / 8], from);
            lemma_source(target as int, bits as int, total as int, source as int);
            assert(wanted[target as int] == bit(input@, source as int));
            assert forall|j: int| 0 <= j < total implies bit(out@, j) == (if j == target {
                wanted[j]
            } else {
                bit(before, j)
            }) by {
                let other: u8 = (7 - j % 8) as u8;
                lemma_set_bit(byte, value, place, other);
                lemma_one_bit(byte, place);
                if j == target {
                    assert(!bit(before, j));
                } else if j / 8 == index {
                    assert(other != place);
                }
            }
        }
        target += 1;
    }
    proof {
        assert(bits_of(out@) =~= wanted);
        law_bytes_are_their_bits(out@);
    }
    out
}

/// Where the bit that lands on `target` comes from.
proof fn lemma_source(target: int, bits: int, total: int, source: int)
    requires
        0 <= target < total,
        0 <= bits,
        source == (if target >= bits % total {
            target - bits % total
        } else {
            target + (total - bits % total)
        }),
    ensures
        0 <= source < total,
        source == (target - bits) % total,
{
    vstd::arithmetic::div_mod::lemma_fundamental_div_mod(bits, total);
    let q = bits / total;
    if target >= bits % total {
        assert(target - bits == (-q) * total + source) by (nonlinear_arith)
            requires
                bits == total * q + bits % total,
                source == target - bits % total,
        ;
        vstd::arithmetic::div_mod::lemma_fundamental_div_mod_converse(
            target - bits,
            total,
            -q,
            source,
        );
    } else {
        assert(target - bits == (-q - 1) * total + source) by (nonlinear_arith)
            requires
                bits == total * q + bits % total,
                source == target + (total - bits % total),
        ;
        vstd::arithmetic::div_mod::lemma_fundamental_div_mod_converse(
            target - bits,
            total,
            -q - 1,
            source,
        );
    }
}

/// The two strings hold the same bytes.
pub fn same(a: &[u8], b: &[u8]) -> (yes: bool)
    ensures
        yes == (a@ == b@),
{
    if a.len() != b.len() {
        return false;
    }
    let mut index: usize = 0;
    while index < a.len()
        invariant
            index <= a@.len(),
            a@.len() == b@.len(),
            forall|i: int| 0 <= i < index ==> a@[i] == b@[i],
        decreases a@.len() - index,
    {
        if a[index] != b[index] {
            return false;
        }
        index += 1;
    }
    assert(a@ =~= b@);
    true
}

/// `bytes` start with all of `prefix`.
pub open spec fn begins(bytes: Seq<u8>, prefix: Seq<u8>) -> bool {
    prefix.len() <= bytes.len() && bytes.take(prefix.len() as int) == prefix
}

/// `bytes` start with all of `prefix`.
pub fn starts_with(bytes: &[u8], prefix: &[u8]) -> (yes: bool)
    ensures
        yes == begins(bytes@, prefix@),
{
    if bytes.len() < prefix.len() {
        return false;
    }
    let head = vstd::slice::slice_subrange(bytes, 0, prefix.len());
    assert(head@ =~= bytes@.take(prefix@.len() as int));
    same(head, prefix)
}

} // verus!
