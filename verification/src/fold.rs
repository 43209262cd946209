//! The `n`-fold of RFC 3961 section 5.1, which stretches or shrinks a
//! constant to the size of a cipher block.
use crate::bits;
use crate::ones;
use vstd::arithmetic::power::*;
use vstd::prelude::*;

verus! {

/// The greatest common divisor, by Euclid.
pub open spec fn common(a: nat, b: nat) -> nat
    decreases b,
{
    if b == 0 {
        a
    } else {
        common(b, a % b)
    }
}

/// `d` divides `n`.
pub open spec fn divides(d: nat, n: nat) -> bool {
    exists|k: nat| n == #[trigger] (d * k)
}

proof fn lemma_divides(d: nat, n: nat, k: nat)
    requires
        n == d * k,
    ensures
        divides(d, n),
{
}

/// `common(a, b)` divides both numbers, and whatever divides both divides it.
pub proof fn law_gcd_is_the_greatest_common_divisor(a: nat, b: nat)
    ensures
        divides(common(a, b), a),
        divides(common(a, b), b),
        forall|d: nat| divides(d, a) && divides(d, b) ==> #[trigger] divides(d, common(a, b)),
    decreases b,
{
    if b == 0 {
        lemma_divides(a, a, 1);
        assert(a * 0 == 0) by (nonlinear_arith);
        lemma_divides(a, 0, 0);
    } else {
        let r = a % b;
        let q = a / b;
        law_gcd_is_the_greatest_common_divisor(b, r);
        let g = common(b, r);
        vstd::arithmetic::div_mod::lemma_fundamental_div_mod(a as int, b as int);
        let kb = choose|k: nat| b == #[trigger] (g * k);
        let kr = choose|k: nat| r == #[trigger] (g * k);
        assert(a == g * (kb * q + kr)) by (nonlinear_arith)
            requires
                a == b * q + r,
                b == g * kb,
                r == g * kr,
        ;
        lemma_divides(g, a, kb * q + kr);
        assert forall|d: nat| divides(d, a) && divides(d, b) implies #[trigger] divides(d, g) by {
            let ka = choose|k: nat| a == #[trigger] (d * k);
            let kd = choose|k: nat| b == #[trigger] (d * k);
            assert(r == d * (ka - kd * q)) by (nonlinear_arith)
                requires
                    a == b * q + r,
                    b == d * kd,
                    a == d * ka,
            ;
            if d > 0 {
                assert(ka - kd * q >= 0) by (nonlinear_arith)
                    requires
                        d > 0,
                        r >= 0,
                        r == d * (ka - kd * q),
                ;
                lemma_divides(d, r, (ka - kd * q) as nat);
            } else {
                assert(r == 0) by (nonlinear_arith)
                    requires
                        d == 0,
                        r == d * (ka - kd * q),
                ;
                lemma_divides(d, r, 0);
            }
        }
    }
}

proof fn lemma_common_positive(a: nat, b: nat)
    requires
        a > 0 || b > 0,
    ensures
        common(a, b) > 0,
    decreases b,
{
    if b > 0 {
        lemma_common_positive(b, a % b);
    }
}

/// The greatest common divisor of `a` and `b`; that of nothing but zeros is
/// zero.
pub fn gcd(a: usize, b: usize) -> (divisor: usize)
    ensures
        divisor == common(a as nat, b as nat),
{
    let mut x: usize = a;
    let mut y: usize = b;
    while y != 0
        invariant
            common(x as nat, y as nat) == common(a as nat, b as nat),
        decreases y,
    {
        let r: usize = x % y;
        x = y;
        y = r;
    }
    x
}

/// How many copies of `in_len` bytes reach the least common multiple of
/// `in_len` and `out_len`.
pub open spec fn copies(in_len: nat, out_len: nat) -> nat {
    out_len / common(out_len, in_len)
}

/// `count` copies of `input`, each rotated thirteen bits further to the right
/// than the one before it.
pub open spec fn stretched(input: Seq<u8>, count: nat) -> Seq<u8>
    decreases count,
{
    if count == 0 {
        Seq::empty()
    } else {
        let before = (count - 1) as nat;
        stretched(input, before) + bits::rotated(input, 13 * before)
    }
}

/// The ones'-complement sum of `bytes` cut into numbers of `width` bytes.
pub open spec fn sum_of_chunks(bytes: Seq<u8>, width: nat) -> int
    decreases bytes.len(),
{
    if width == 0 || bytes.len() < width {
        0
    } else {
        let rest = bytes.len() - width;
        ones::ones_sum(
            sum_of_chunks(bytes.take(rest), width),
            ones::be_value(bytes.skip(rest)),
            pow(256, width),
        )
    }
}

/// The `out_len`-byte fold of `input`: the input stretched to the least
/// common multiple of the two lengths, cut into numbers of `out_len` bytes,
/// and those added up.
pub open spec fn folded(input: Seq<u8>, out_len: nat) -> Seq<u8> {
    ones::be_bytes(
        sum_of_chunks(stretched(input, copies(input.len(), out_len)), out_len),
        out_len,
    )
}

/// Both lengths are positive, and what the fold computes with fits the
/// machine's word.
pub open spec fn foldable(in_len: nat, out_len: nat) -> bool {
    &&& in_len > 0
    &&& out_len > 0
    &&& 8 * in_len <= usize::MAX
    &&& copies(in_len, out_len) * in_len <= usize::MAX
    &&& 13 * (copies(in_len, out_len) - 1) <= usize::MAX
}

/// The stretched input holds a whole number of chunks.
pub proof fn lemma_multiple(in_len: nat, out_len: nat) -> (chunks: nat)
    requires
        in_len > 0,
        out_len > 0,
    ensures
        copies(in_len, out_len) > 0,
        copies(in_len, out_len) * in_len == out_len * chunks,
{
    let g = common(out_len, in_len);
    law_gcd_is_the_greatest_common_divisor(out_len, in_len);
    lemma_common_positive(out_len, in_len);
    let ko = choose|k: nat| out_len == #[trigger] (g * k);
    let ki = choose|k: nat| in_len == #[trigger] (g * k);
    vstd::arithmetic::div_mod::lemma_fundamental_div_mod_converse(
        out_len as int,
        g as int,
        ko as int,
        0,
    );
    assert(ko > 0) by (nonlinear_arith)
        requires
            out_len == g * ko,
            out_len > 0,
    ;
    assert(ko * in_len == out_len * ki) by (nonlinear_arith)
        requires
            out_len == g * ko,
            in_len == g * ki,
    ;
    ki
}

pub proof fn lemma_stretched_len(input: Seq<u8>, count: nat)
    ensures
        stretched(input, count).len() == count * input.len(),
    decreases count,
{
    if count > 0 {
        lemma_stretched_len(input, (count - 1) as nat);
        assert(count * input.len() == (count - 1) * input.len() + input.len()) by (nonlinear_arith);
    } else {
        assert(0 * input.len() == 0) by (nonlinear_arith);
    }
}

/// One number alone is its own sum.
proof fn lemma_one_chunk(bytes: Seq<u8>)
    requires
        bytes.len() > 0,
    ensures
        sum_of_chunks(bytes, bytes.len()) == ones::be_value(bytes),
{
    assert(bytes.take(0).len() == 0);
    assert(sum_of_chunks(bytes.take(0), bytes.len()) == 0);
    assert(bytes.skip(0) =~= bytes);
    ones::lemma_be_value_bound(bytes);
}

/// Folded to a multiple of its length, an input is its rotations one after
/// the other.
pub proof fn law_a_fold_to_a_multiple_is_the_rotations(input: Seq<u8>, count: nat)
    requires
        input.len() > 0,
        count > 0,
    ensures
        folded(input, count * input.len()) == stretched(input, count),
{
    let length = input.len();
    let width = count * length;
    let bytes = stretched(input, count);
    lemma_stretched_len(input, count);
    assert(width > 0) by (nonlinear_arith)
        requires
            width == count * length,
            length > 0,
            count > 0,
    ;
    vstd::arithmetic::div_mod::lemma_mod_multiples_basic(count as int, length as int);
    vstd::arithmetic::div_mod::lemma_div_by_multiple(count as int, length as int);
    assert(common(length, 0) == length);
    assert(common(width, length) == length);
    assert(copies(length, width) == count);
    lemma_one_chunk(bytes);
    ones::law_bytes_are_the_digits_of_their_value(bytes);
}

/// Folded to its own length, an input is itself.
pub proof fn law_a_fold_to_its_own_length_is_the_input(input: Seq<u8>)
    requires
        input.len() > 0,
    ensures
        folded(input, input.len()) == input,
{
    law_a_fold_to_a_multiple_is_the_rotations(input, 1);
    assert(1 * input.len() == input.len());
    bits::law_a_rotation_by_nothing_is_the_input(input);
    assert(stretched(input, 1) =~= input) by {
        reveal_with_fuel(stretched, 2);
    }
}

/// The `n`-fold of `input` to `out_len` bytes, RFC 3961 section 5.1.
pub fn n_fold(input: &[u8], out_len: usize) -> (sum: Vec<u8>)
    requires
        foldable(input@.len(), out_len as nat),
    ensures
        sum@.len() == out_len,
        sum@ == folded(input@, out_len as nat),
{
    let in_len: usize = input.len();
    let divisor: usize = gcd(out_len, in_len);
    proof {
        lemma_common_positive(out_len as nat, in_len as nat);
    }
    let count: usize = out_len / divisor;
    let ghost chunks = lemma_multiple(in_len as nat, out_len as nat);
    let mut stretch: Vec<u8> = Vec::new();
    let mut rep: usize = 0;
    while rep < count
        invariant
            rep <= count,
            in_len == input@.len(),
            count == copies(in_len as nat, out_len as nat),
            foldable(in_len as nat, out_len as nat),
            stretch@ == stretched(input@, rep as nat),
        decreases count - rep,
    {
        let mut copy: Vec<u8> = bits::rotate_right(input, 13 * rep);
        stretch.append(&mut copy);
        rep += 1;
    }
    proof {
        lemma_stretched_len(input@, count as nat);
    }
    let mut sum: Vec<u8> = vec![0u8; out_len];
    let mut start: usize = 0;
    let ghost mut done: nat = 0;
    proof {
        lemma_zero_value(sum@);
        assert(out_len * 0 == 0) by (nonlinear_arith);
    }
    while start < stretch.len()
        invariant
            start <= stretch@.len(),
            out_len > 0,
            stretch@.len() == out_len * chunks,
            start == out_len * done,
            sum@.len() == out_len,
            ones::be_value(sum@) == sum_of_chunks(stretch@.take(start as int), out_len as nat),
        decreases stretch@.len() - start,
    {
        proof {
            assert(start + out_len == out_len * (done + 1)) by (nonlinear_arith)
                requires
                    start == out_len * done,
            ;
            assert(start + out_len <= stretch@.len()) by (nonlinear_arith)
                requires
                    start == out_len * done,
                    stretch@.len() == out_len * chunks,
                    start < stretch@.len(),
                    out_len > 0,
            ;
        }
        let chunk = vstd::slice::slice_subrange(stretch.as_slice(), start, start + out_len);
        ones::ones_complement_add(&mut sum, chunk);
        proof {
            let taken = stretch@.take(start + out_len);
            assert(taken.take(start as int) =~= stretch@.take(start as int));
            assert(taken.skip(start as int) =~= chunk@);
            assert(chunk@.take(out_len as int) =~= chunk@);
            done = done + 1;
        }
        start += out_len;
    }
    proof {
        assert(stretch@.take(start as int) =~= stretch@);
        ones::law_bytes_are_the_digits_of_their_value(sum@);
    }
    sum
}

proof fn lemma_zero_value(zeros: Seq<u8>)
    requires
        forall|i: int| 0 <= i < zeros.len() ==> zeros[i] == 0,
    ensures
        ones::be_value(zeros) == 0,
    decreases zeros.len(),
{
    if zeros.len() > 0 {
        lemma_zero_value(zeros.drop_first());
        assert(0 * pow(256, (zeros.len() - 1) as nat) == 0) by (nonlinear_arith);
    }
}

} // verus!
