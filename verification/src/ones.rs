//! Ones'-complement sums of big-endian numbers.
use vstd::arithmetic::power::*;
use vstd::prelude::*;

verus! {

/// The number `bytes` writes, most significant byte first.
pub open spec fn be_value(bytes: Seq<u8>) -> int
    decreases bytes.len(),
{
    if bytes.len() == 0 {
        0
    } else {
        bytes[0] * pow(256, (bytes.len() - 1) as nat) + be_value(bytes.drop_first())
    }
}

/// The low `length` bytes of `value`, most significant first.
pub open spec fn be_bytes(value: int, length: nat) -> Seq<u8>
    decreases length,
{
    if length == 0 {
        Seq::empty()
    } else {
        let place = pow(256, (length - 1) as nat);
        seq![(value / place) as u8] + be_bytes(value % place, (length - 1) as nat)
    }
}

/// `a + b` with the carry out of the top brought round to the bottom, for
/// numbers below `modulus`.
pub open spec fn ones_sum(a: int, b: int, modulus: int) -> int {
    if a + b < modulus {
        a + b
    } else {
        a + b - modulus + 1
    }
}

pub proof fn lemma_next_power(length: nat)
    ensures
        pow(256, length + 1) == 256 * pow(256, length),
        pow(256, length) > 0,
{
    lemma_pow_adds(256, 1, length);
    lemma_pow1(256);
    lemma_pow_positive(256, length);
}

/// A byte string's number has no more digits than the string has bytes.
pub proof fn lemma_be_value_bound(bytes: Seq<u8>)
    ensures
        0 <= be_value(bytes) < pow(256, bytes.len()),
    decreases bytes.len(),
{
    if bytes.len() == 0 {
        lemma_pow0(256);
    } else {
        let rest = (bytes.len() - 1) as nat;
        lemma_be_value_bound(bytes.drop_first());
        lemma_next_power(rest);
        assert(bytes[0] * pow(256, rest) <= 255 * pow(256, rest)) by (nonlinear_arith)
            requires
                bytes[0] <= 255,
                pow(256, rest) > 0,
        ;
        assert(bytes[0] * pow(256, rest) >= 0) by (nonlinear_arith)
            requires
                pow(256, rest) > 0,
        ;
    }
}

/// A byte string is the digits of its number.
pub proof fn law_bytes_are_the_digits_of_their_value(bytes: Seq<u8>)
    ensures
        be_bytes(be_value(bytes), bytes.len()) == bytes,
    decreases bytes.len(),
{
    if bytes.len() > 0 {
        let rest = bytes.drop_first();
        let place = pow(256, rest.len());
        lemma_be_value_bound(rest);
        law_bytes_are_the_digits_of_their_value(rest);
        vstd::arithmetic::div_mod::lemma_fundamental_div_mod_converse(
            be_value(bytes),
            place,
            bytes[0] as int,
            be_value(rest),
        );
        assert(be_bytes(be_value(bytes), bytes.len()) =~= seq![bytes[0]] + rest);
        assert(seq![bytes[0]] + rest =~= bytes);
    }
}

/// A number whose first byte is not zero has as many digits as bytes.
pub proof fn lemma_be_value_at_least(bytes: Seq<u8>)
    requires
        bytes.len() > 0,
        bytes[0] != 0,
    ensures
        pow(256, (bytes.len() - 1) as nat) <= be_value(bytes),
{
    let place = pow(256, (bytes.len() - 1) as nat);
    lemma_pow_positive(256, (bytes.len() - 1) as nat);
    lemma_be_value_bound(bytes.drop_first());
    assert(place <= bytes[0] * place) by (nonlinear_arith)
        requires
            bytes[0] >= 1,
            place > 0,
    ;
}

/// Reading one more byte multiplies the number by 256 and adds the byte.
pub proof fn lemma_be_value_push(bytes: Seq<u8>, byte: u8)
    ensures
        be_value(bytes.push(byte)) == 256 * be_value(bytes) + byte,
    decreases bytes.len(),
{
    let longer = bytes.push(byte);
    if bytes.len() == 0 {
        lemma_pow0(256);
        assert(longer.drop_first() =~= bytes);
    } else {
        lemma_be_value_push(bytes.drop_first(), byte);
        assert(longer.drop_first() =~= bytes.drop_first().push(byte));
        let place = pow(256, (bytes.len() - 1) as nat);
        lemma_next_power((bytes.len() - 1) as nat);
        assert(bytes[0] * (256 * place) == 256 * (bytes[0] * place)) by (nonlinear_arith);
    }
}

/// The number `bytes` write, where it fits sixty-four bits.
pub fn value(bytes: &[u8]) -> (value: u64)
    requires
        be_value(bytes@) <= u64::MAX,
    ensures
        value == be_value(bytes@),
{
    let mut value: u64 = 0;
    let mut index: usize = 0;
    while index < bytes.len()
        invariant
            index <= bytes@.len(),
            be_value(bytes@) <= u64::MAX,
            value == be_value(bytes@.take(index as int)),
        decreases bytes@.len() - index,
    {
        proof {
            let next = bytes@.take(index + 1);
            assert(next =~= bytes@.take(index as int).push(bytes@[index as int]));
            lemma_be_value_push(bytes@.take(index as int), bytes@[index as int]);
            lemma_be_value_prefix(bytes@, index + 1);
        }
        value = 256 * value + bytes[index] as u64;
        index += 1;
    }
    assert(bytes@.take(index as int) =~= bytes@);
    value
}

/// The first bytes of a string write no more than the whole.
proof fn lemma_be_value_prefix(bytes: Seq<u8>, length: int)
    requires
        0 <= length <= bytes.len(),
    ensures
        be_value(bytes.take(length)) <= be_value(bytes),
    decreases bytes.len() - length,
{
    if length == bytes.len() {
        assert(bytes.take(length) =~= bytes);
    } else {
        lemma_be_value_prefix(bytes, length + 1);
        lemma_be_value_bound(bytes.take(length));
        assert(bytes.take(length + 1) =~= bytes.take(length).push(bytes[length]));
        lemma_be_value_push(bytes.take(length), bytes[length]);
    }
}

/// Writing one more digit in front.
proof fn lemma_be_value_at(bytes: Seq<u8>, index: int)
    requires
        0 <= index < bytes.len(),
    ensures
        be_value(bytes.skip(index)) == bytes[index] * pow(256, (bytes.len() - index - 1) as nat)
            + be_value(bytes.skip(index + 1)),
{
    assert(bytes.skip(index).drop_first() =~= bytes.skip(index + 1));
}

/// Add `addend` to `sum` with end-around carry, both big-endian.
pub fn ones_complement_add(sum: &mut Vec<u8>, addend: &[u8])
    requires
        old(sum)@.len() <= addend@.len(),
    ensures
        final(sum)@.len() == old(sum)@.len(),
        be_value(final(sum)@) == ones_sum(
            be_value(old(sum)@),
            be_value(addend@.take(old(sum)@.len() as int)),
            pow(256, old(sum)@.len()),
        ),
{
    let width: usize = sum.len();
    let ghost a = sum@;
    let ghost b = addend@.take(width as int);
    let ghost modulus = pow(256, width as nat);
    let mut carry: u16 = 0;
    let mut index: usize = width;
    assert(be_value(a.skip(width as int)) == 0);
    assert(be_value(b.skip(width as int)) == 0);
    while index > 0
        invariant
            index <= width,
            width == a.len(),
            width <= addend@.len(),
            b == addend@.take(width as int),
            sum@.len() == width,
            carry <= 1,
            forall|j: int| 0 <= j < index ==> sum@[j] == a[j],
            be_value(sum@.skip(index as int)) + carry * pow(256, (width - index) as nat)
                == be_value(a.skip(index as int)) + be_value(b.skip(index as int)),
        decreases index,
    {
        let ghost before = sum@;
        let ghost place = pow(256, (width - index) as nat);
        let ghost carried: int = carry as int;
        index -= 1;
        let total: u16 = sum[index] as u16 + addend[index] as u16 + carry;
        sum.set(index, (total % 256) as u8);
        carry = total / 256;
        proof {
            let i = index as int;
            lemma_be_value_at(sum@, i);
            lemma_be_value_at(a, i);
            lemma_be_value_at(b, i);
            lemma_next_power((width - index - 1) as nat);
            assert(sum@.skip(i + 1) =~= before.skip(i + 1));
            let digit = sum@[i] as int;
            let next: int = carry as int;
            assert(digit * place + next * (256 * place) == a[i] * place + b[i] * place + carried
                * place) by (nonlinear_arith)
                requires
                    digit + 256 * next == a[i] + b[i] + carried,
            ;
        }
    }
    let ghost once = sum@;
    let ghost first: int = carry as int;
    proof {
        assert(sum@.skip(0) =~= sum@ && a.skip(0) =~= a && b.skip(0) =~= b);
        lemma_be_value_bound(a);
        lemma_be_value_bound(b);
        lemma_be_value_bound(once);
        assert(first * modulus == (if first == 0 {
            0
        } else {
            modulus
        })) by (nonlinear_arith)
            requires
                first == 0 || first == 1,
        ;
        lemma_pow0(256);
    }
    index = width;
    while carry != 0
        invariant
            index <= width,
            width == once.len(),
            sum@.len() == width,
            carry <= 1,
            modulus == pow(256, width as nat),
            0 <= be_value(once),
            be_value(once) + first < modulus,
            forall|j: int| 0 <= j < index ==> sum@[j] == once[j],
            be_value(sum@.skip(index as int)) + carry * pow(256, (width - index) as nat)
                == be_value(once.skip(index as int)) + first,
        decreases index,
    {
        proof {
            // A carry out of the first byte would make the sum too large.
            assert(sum@.skip(0) =~= sum@ && once.skip(0) =~= once);
            lemma_be_value_bound(sum@);
        }
        let ghost before = sum@;
        let ghost place = pow(256, (width - index) as nat);
        let ghost carried: int = carry as int;
        index -= 1;
        let total: u16 = sum[index] as u16 + carry;
        sum.set(index, (total % 256) as u8);
        carry = total / 256;
        proof {
            let i = index as int;
            lemma_be_value_at(sum@, i);
            lemma_be_value_at(once, i);
            lemma_next_power((width - index - 1) as nat);
            assert(sum@.skip(i + 1) =~= before.skip(i + 1));
            let digit = sum@[i] as int;
            let next: int = carry as int;
            assert(digit * place + next * (256 * place) == once[i] * place + carried * place)
                by (nonlinear_arith)
                requires
                    digit + 256 * next == once[i] + carried,
            ;
        }
    }
    proof {
        lemma_same_head(sum@, once, index as int);
        assert(sum@.skip(0) =~= sum@ && once.skip(0) =~= once);
    }
}

/// Strings alike before `index` differ in value by what follows it.
proof fn lemma_same_head(x: Seq<u8>, y: Seq<u8>, index: int)
    requires
        x.len() == y.len(),
        0 <= index <= x.len(),
        forall|j: int| 0 <= j < index ==> x[j] == y[j],
    ensures
        be_value(x.skip(0)) - be_value(y.skip(0)) == be_value(x.skip(index)) - be_value(
            y.skip(index),
        ),
    decreases index,
{
    if index > 0 {
        lemma_be_value_at(x, index - 1);
        lemma_be_value_at(y, index - 1);
        lemma_same_head(x, y, index - 1);
    }
}

} // verus!
