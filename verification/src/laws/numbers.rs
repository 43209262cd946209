//! Laws of bit strings, ones'-complement sums and the fold.
use crate::bits;
use crate::encoding;
use crate::fold;
use crate::ones;
use vstd::arithmetic::power::*;
use vstd::prelude::*;

verus! {

/// A byte put together from eight bits has those bits.
proof fn lemma_bits_of_a_byte(
    b7: bool,
    b6: bool,
    b5: bool,
    b4: bool,
    b3: bool,
    b2: bool,
    b1: bool,
    b0: bool,
)
    by (bit_vector)
    ensures
        ({
            let w7: u8 = if b7 { 1u8 << 7u8 } else { 0u8 };
            let w6: u8 = if b6 { 1u8 << 6u8 } else { 0u8 };
            let w5: u8 = if b5 { 1u8 << 5u8 } else { 0u8 };
            let w4: u8 = if b4 { 1u8 << 4u8 } else { 0u8 };
            let w3: u8 = if b3 { 1u8 << 3u8 } else { 0u8 };
            let w2: u8 = if b2 { 1u8 << 2u8 } else { 0u8 };
            let w1: u8 = if b1 { 1u8 << 1u8 } else { 0u8 };
            let w0: u8 = if b0 { 1u8 << 0u8 } else { 0u8 };
            let byte: u8 = w7 | w6 | w5 | w4 | w3 | w2 | w1 | w0;
            &&& ((byte >> 7u8) & 1u8 == 1u8) == b7
            &&& ((byte >> 6u8) & 1u8 == 1u8) == b6
            &&& ((byte >> 5u8) & 1u8 == 1u8) == b5
            &&& ((byte >> 4u8) & 1u8 == 1u8) == b4
            &&& ((byte >> 3u8) & 1u8 == 1u8) == b3
            &&& ((byte >> 2u8) & 1u8 == 1u8) == b2
            &&& ((byte >> 1u8) & 1u8 == 1u8) == b1
            &&& ((byte >> 0u8) & 1u8 == 1u8) == b0
        }),
{
}

/// Rotating a byte string to the right by some bits moves the bit that stood
/// that many places to the left, counted round the end, to each place, the
/// most significant bit of the first byte being the first.
pub proof fn law_a_rotation_moves_every_bit(bytes: Seq<u8>, by: nat, target: int)
    requires
        0 <= target < 8 * bytes.len(),
    ensures
        bits::rotated(bytes, by).len() == bytes.len(),
        ({
            let source = (target - by) % (8 * bytes.len() as int);
            let moved = bits::rotated(bytes, by)[target / 8];
            ((moved >> ((7 - target % 8) as u8)) & 1u8 == 1u8) == ((bytes[source / 8] >> ((7
                - source % 8) as u8)) & 1u8 == 1u8)
        }),
{
    let total = 8 * bytes.len() as int;
    let all = bits::bits_of(bytes);
    let turned = bits::rotate(all, by);
    let source = (target - by) % total;
    vstd::arithmetic::div_mod::lemma_mod_bound(target - by, total);
    assert(turned[target] == all[source]);
    let start = 8 * (target / 8);
    lemma_bits_of_a_byte(
        turned[start],
        turned[start + 1],
        turned[start + 2],
        turned[start + 3],
        turned[start + 4],
        turned[start + 5],
        turned[start + 6],
        turned[start + 7],
    );
    assert(bits::rotated(bytes, by)[target / 8] == bits::byte_at(turned, start));
    assert(target == start + target % 8);
    let place = target % 8;
    assert(place == 0 || place == 1 || place == 2 || place == 3 || place == 4 || place == 5
        || place == 6 || place == 7);
}

/// Bytes write a number in base 256, most significant first: one byte more
/// makes it 256 times as large and adds the byte.
pub proof fn law_bytes_write_a_number(bytes: Seq<u8>, byte: u8)
    ensures
        ones::be_value(Seq::empty()) == 0,
        ones::be_value(bytes.push(byte)) == 256 * ones::be_value(bytes) + byte,
{
    ones::lemma_be_value_push(bytes, byte);
}

/// A number below 256 to the power of a length is written in that many bytes,
/// and those write it.
pub proof fn law_a_number_is_written_in_its_bytes(value: int, length: nat)
    requires
        0 <= value < pow(256, length),
    ensures
        ones::be_bytes(value, length).len() == length,
        ones::be_value(ones::be_bytes(value, length)) == value,
{
    encoding::law_a_value_is_what_its_digits_write(value, length);
}

/// A ones'-complement sum stays below the modulus, and where the plain sum
/// does not, one less than the modulus is taken off it.
pub proof fn law_a_carry_comes_round(a: int, b: int, modulus: int)
    requires
        0 <= a < modulus,
        0 <= b < modulus,
    ensures
        0 <= ones::ones_sum(a, b, modulus) < modulus,
        a + b < modulus ==> ones::ones_sum(a, b, modulus) == a + b,
        a + b >= modulus ==> ones::ones_sum(a, b, modulus) == a + b - (modulus - 1),
{
}

/// The greatest common divisor divides both numbers, and is divided by all
/// that divides both.
pub proof fn law_the_common_divisor_is_the_greatest(a: nat, b: nat)
    ensures
        exists|k: nat| a == #[trigger] (fold::common(a, b) * k),
        exists|k: nat| b == #[trigger] (fold::common(a, b) * k),
        forall|d: nat, i: nat, j: nat|
            a == #[trigger] (d * i) && b == #[trigger] (d * j) ==> exists|k: nat|
                fold::common(a, b) == #[trigger] (d * k),
{
    fold::law_gcd_is_the_greatest_common_divisor(a, b);
    let g = fold::common(a, b);
    assert(fold::divides(g, a) && fold::divides(g, b));
    assert forall|d: nat, i: nat, j: nat|
        a == #[trigger] (d * i) && b == #[trigger] (d * j) implies exists|k: nat|
        g == #[trigger] (d * k) by {
        assert(fold::divides(d, a) && fold::divides(d, b));
        assert(fold::divides(d, g));
    }
}

/// A stretched input is copies of it, each rotated thirteen bits further.
pub proof fn law_every_copy_is_rotated_thirteen_bits_further(
    input: Seq<u8>,
    count: nat,
    copy: nat,
    at: int,
)
    requires
        copy < count,
        0 <= at < input.len(),
    ensures
        fold::stretched(input, count).len() == count * input.len(),
        0 <= copy * input.len() + at < count * input.len(),
        fold::stretched(input, count)[copy * input.len() + at] == bits::rotated(
            input,
            13 * copy,
        )[at],
    decreases count,
{
    let length = input.len();
    let before = (count - 1) as nat;
    fold::lemma_stretched_len(input, count);
    fold::lemma_stretched_len(input, before);
    assert(copy * length + at < count * length && copy * length >= 0 && (copy == before || copy
        * length + at < before * length)) by (nonlinear_arith)
        requires
            copy <= before,
            count == before + 1,
            0 <= at < length,
    ;
    if copy < before {
        law_every_copy_is_rotated_thirteen_bits_further(input, before, copy, at);
    }
}

/// Adding chunks up one after the other is what the sum of chunks is.
proof fn lemma_chunks_add_up(
    bytes: Seq<u8>,
    width: nat,
    chunks: Seq<int>,
    step: spec_fn(int, int) -> int,
)
    requires
        width > 0,
        bytes.len() == chunks.len() * width,
        forall|c: int|
            0 <= c < chunks.len() ==> #[trigger] chunks[c] == ones::be_value(
                bytes.subrange(c * width, (c + 1) * width),
            ),
        forall|a: int, b: int|
            #[trigger] step(a, b) == (if a + b < pow(256, width) {
                a + b
            } else {
                a + b - pow(256, width) + 1
            }),
    ensures
        fold::sum_of_chunks(bytes, width) == chunks.fold_left(0int, step),
        0 <= fold::sum_of_chunks(bytes, width) < pow(256, width),
    decreases chunks.len(),
{
    lemma_pow_positive(256, width);
    if chunks.len() == 0 {
        assert(0 * width == 0) by (nonlinear_arith);
    } else {
        let count = chunks.len() as int;
        let rest = bytes.len() - width;
        let before = bytes.take(rest);
        assert(rest == (count - 1) * width && rest >= 0 && count * width == rest + width)
            by (nonlinear_arith)
            requires
                bytes.len() == count * width,
                rest == bytes.len() - width,
                count >= 1,
        ;
        assert forall|c: int| 0 <= c < count - 1 implies #[trigger] chunks.drop_last()[c]
            == ones::be_value(before.subrange(c * width, (c + 1) * width)) by {
            assert((c + 1) * width <= rest && 0 <= c * width <= (c + 1) * width)
                by (nonlinear_arith)
                requires
                    0 <= c < count - 1,
                    rest == (count - 1) * width,
            ;
            assert(chunks[c] == chunks.drop_last()[c]);
            assert(before.subrange(c * width, (c + 1) * width) =~= bytes.subrange(
                c * width,
                (c + 1) * width,
            ));
        }
        lemma_chunks_add_up(before, width, chunks.drop_last(), step);
        assert(chunks[count - 1] == ones::be_value(
            bytes.subrange((count - 1) * width, (count - 1 + 1) * width),
        ));
        assert(bytes.subrange((count - 1) * width, (count - 1 + 1) * width) =~= bytes.skip(rest));
        ones::lemma_be_value_bound(bytes.skip(rest));
    }
}

/// A fold is the ones'-complement sum, in as many bytes as are asked for, of
/// the input stretched to the least common multiple of the two lengths and cut
/// into numbers of that many bytes.
pub proof fn law_a_fold_adds_the_stretched_input_up(input: Seq<u8>, out_len: nat)
    requires
        input.len() > 0,
        out_len > 0,
    ensures
        ({
            let count = out_len / fold::common(out_len, input.len());
            let stretch = fold::stretched(input, count);
            let modulus = pow(256, out_len);
            let chunks = Seq::new(
                stretch.len() / out_len,
                |c: int| ones::be_value(stretch.subrange(c * out_len, (c + 1) * out_len)),
            );
            &&& count * input.len() == stretch.len()
            &&& stretch.len() == stretch.len() / out_len * out_len
            &&& fold::folded(input, out_len).len() == out_len
            &&& ones::be_value(fold::folded(input, out_len)) == chunks.fold_left(
                0int,
                |sum: int, chunk: int|
                    if sum + chunk < modulus {
                        sum + chunk
                    } else {
                        sum + chunk - modulus + 1
                    },
            )
        }),
{
    let count = out_len / fold::common(out_len, input.len());
    let stretch = fold::stretched(input, count);
    let modulus = pow(256, out_len);
    let chunks = Seq::new(
        stretch.len() / out_len,
        |c: int| ones::be_value(stretch.subrange(c * out_len, (c + 1) * out_len)),
    );
    let step = |sum: int, chunk: int|
        if sum + chunk < modulus {
            sum + chunk
        } else {
            sum + chunk - modulus + 1
        };
    fold::lemma_stretched_len(input, count);
    let whole = fold::lemma_multiple(input.len(), out_len);
    assert(out_len * whole == whole * out_len) by (nonlinear_arith);
    vstd::arithmetic::div_mod::lemma_div_by_multiple(whole as int, out_len as int);
    assert(chunks.len() == whole);
    lemma_chunks_add_up(stretch, out_len, chunks, step);
    law_a_number_is_written_in_its_bytes(fold::sum_of_chunks(stretch, out_len), out_len);
}

} // verus!
