//! DER as it is written, and that it is read back as what was written.
use crate::der;
use crate::ones;
use crate::text;
use vstd::arithmetic::power::*;
use vstd::prelude::*;
use vstd::utf8::*;

verus! {

/// How many bytes `n` takes.
pub open spec fn byte_count(n: nat) -> nat
    decreases n,
{
    if n < 256 {
        1
    } else {
        1 + byte_count(n / 256)
    }
}

/// The length octets before `length` content octets.
pub open spec fn length_octets(length: nat) -> Seq<u8> {
    if length < 0x80 {
        seq![length as u8]
    } else {
        seq![(0x80 + byte_count(length)) as u8] + ones::be_bytes(length as int, byte_count(length))
    }
}

/// `content` under `tag`, as DER writes it.
pub open spec fn tlv(tag: u8, content: Seq<u8>) -> Seq<u8> {
    seq![tag] + length_octets(content.len()) + content
}

/// The element, as DER writes it.
pub open spec fn written(element: der::Tlv) -> Seq<u8> {
    tlv(element.tag, element.content)
}

/// A tag of one byte, and content whose length a machine word holds.
pub open spec fn writable(element: der::Tlv) -> bool {
    element.tag & 0x1fu8 != 0x1fu8 && element.content.len() <= u64::MAX
}

/// A number is what the bytes it is written in write.
pub proof fn law_a_value_is_what_its_digits_write(value: int, length: nat)
    requires
        0 <= value < pow(256, length),
    ensures
        ones::be_bytes(value, length).len() == length,
        ones::be_value(ones::be_bytes(value, length)) == value,
    decreases length,
{
    if length == 0 {
        lemma_pow0(256);
    } else {
        let rest = (length - 1) as nat;
        let place = pow(256, rest);
        ones::lemma_next_power(rest);
        let digit = value / place;
        let below = value % place;
        vstd::arithmetic::div_mod::lemma_fundamental_div_mod(value, place);
        vstd::arithmetic::div_mod::lemma_mod_bound(value, place);
        assert(0 <= digit <= 255) by (nonlinear_arith)
            requires
                value == place * digit + below,
                0 <= below < place,
                0 <= value < 256 * place,
        ;
        law_a_value_is_what_its_digits_write(below, rest);
        let bytes = ones::be_bytes(value, length);
        assert(bytes.drop_first() =~= ones::be_bytes(below, rest));
        assert(digit * place == place * digit) by (nonlinear_arith);
    }
}

/// `n` needs all the bytes it takes, and no more.
proof fn lemma_byte_count(n: nat)
    ensures
        byte_count(n) > 0,
        n < pow(256, byte_count(n)),
        n > 0 ==> pow(256, (byte_count(n) - 1) as nat) <= n,
    decreases n,
{
    if n < 256 {
        lemma_pow0(256);
        lemma_pow1(256);
    } else {
        lemma_byte_count(n / 256);
        ones::lemma_next_power(byte_count(n / 256));
        ones::lemma_next_power((byte_count(n / 256) - 1) as nat);
    }
}

/// The first byte of a positive number is not zero.
proof fn lemma_leading_byte(n: nat)
    requires
        n > 0,
    ensures
        ones::be_bytes(n as int, byte_count(n)).len() == byte_count(n),
        ones::be_bytes(n as int, byte_count(n))[0] != 0,
        ones::be_value(ones::be_bytes(n as int, byte_count(n))) == n,
{
    lemma_byte_count(n);
    let count = byte_count(n);
    law_a_value_is_what_its_digits_write(n as int, count);
    let bytes = ones::be_bytes(n as int, count);
    if bytes[0] == 0 {
        ones::lemma_be_value_bound(bytes.drop_first());
        assert(0 * pow(256, (count - 1) as nat) == 0) by (nonlinear_arith);
    }
}

proof fn lemma_byte_count_of_word(n: nat)
    requires
        n <= u64::MAX,
    ensures
        byte_count(n) <= 8,
{
    assert(byte_count(n) <= 8) by {
        reveal_with_fuel(byte_count, 9);
        let n1 = n / 256;
        let n2 = n1 / 256;
        let n3 = n2 / 256;
        let n4 = n3 / 256;
        let n5 = n4 / 256;
        let n6 = n5 / 256;
        let n7 = n6 / 256;
        assert(n7 < 256);
    }
}

proof fn lemma_byte_count_grows(less: nat, more: nat)
    requires
        less <= more,
    ensures
        byte_count(less) <= byte_count(more),
    decreases more,
{
    if less >= 256 {
        lemma_byte_count_grows(less / 256, more / 256);
    } else if more >= 256 {
        lemma_byte_count(more / 256);
    }
}

/// A longer length takes no fewer octets.
pub proof fn lemma_length_octets_grow(less: nat, more: nat)
    requires
        less <= more <= u64::MAX,
    ensures
        length_octets(less).len() <= length_octets(more).len(),
{
    lemma_byte_count_grows(less, more);
    if more >= 0x80 {
        lemma_leading_byte(more);
    }
    if less >= 0x80 {
        lemma_leading_byte(less);
    }
}

/// An element is read back from the front of what it is written in.
pub proof fn law_an_element_is_read_back(element: der::Tlv, rest: Seq<u8>)
    requires
        writable(element),
    ensures
        der::element_at(written(element) + rest) == Ok::<(der::Tlv, Seq<u8>), Seq<char>>(
            (element, rest),
        ),
{
    let bytes = written(element) + rest;
    let length = element.content.len() as int;
    if length < 0x80 {
        assert(bytes.subrange(2, 2 + length) =~= element.content);
        assert(bytes.skip(2 + length) =~= rest);
    } else {
        let count = byte_count(length as nat) as int;
        let octets = ones::be_bytes(length, count as nat);
        lemma_byte_count_of_word(length as nat);
        lemma_leading_byte(length as nat);
        assert(bytes.subrange(2, 2 + count) =~= octets);
        assert(bytes[2] == octets[0]);
        assert(bytes.subrange(2 + count, 2 + count + length) =~= element.content);
        assert(bytes.skip(2 + count + length) =~= rest);
    }
}

/// The elements one after the other, as DER writes them.
pub open spec fn all_written(children: Seq<der::Tlv>) -> Seq<u8>
    decreases children.len(),
{
    if children.len() == 0 {
        Seq::empty()
    } else {
        written(children[0]) + all_written(children.drop_first())
    }
}

/// Every element is [`writable`].
pub open spec fn all_writable(children: Seq<der::Tlv>) -> bool {
    forall|i: int| 0 <= i < children.len() ==> writable(#[trigger] children[i])
}

/// Elements are read back from what they are written in.
pub proof fn law_elements_are_read_back(children: Seq<der::Tlv>)
    requires
        all_writable(children),
    ensures
        der::elements(all_written(children)) == Ok::<Seq<der::Tlv>, Seq<char>>(children),
    decreases children.len(),
{
    if children.len() > 0 {
        let others = children.drop_first();
        assert forall|i: int| 0 <= i < others.len() implies writable(#[trigger] others[i]) by {
            assert(writable(children[i + 1]));
        }
        law_elements_are_read_back(others);
        assert(writable(children[0]));
        law_an_element_is_read_back(children[0], all_written(others));
        assert(all_written(children).len() > 0);
        assert(seq![children[0]] + others =~= children);
    } else {
        assert(children =~= Seq::empty());
    }
}

/// Content is shorter than the bytes it is written in.
pub proof fn lemma_children_are_shorter(children: Seq<der::Tlv>)
    ensures
        forall|i: int|
            0 <= i < children.len() ==> (#[trigger] children[i]).content.len() < all_written(
                children,
            ).len(),
    decreases children.len(),
{
    if children.len() > 0 {
        let others = children.drop_first();
        lemma_children_are_shorter(others);
        assert forall|i: int| 0 <= i < children.len() implies (
        #[trigger] children[i]).content.len() < all_written(children).len() by {
            if i > 0 {
                assert(others[i - 1] == children[i]);
            }
        }
    }
}

/// `inside`, explicitly tagged `[number]`.
pub open spec fn field(number: u8, inside: der::Tlv) -> der::Tlv {
    der::Tlv { tag: 0xa0u8 | number, content: written(inside) }
}

/// A `SEQUENCE` of `children`.
pub open spec fn sequence(children: Seq<der::Tlv>) -> der::Tlv {
    der::Tlv { tag: der::SEQUENCE, content: all_written(children) }
}

/// `inside`, explicitly tagged by `tag`.
pub open spec fn wrapped(tag: u8, inside: der::Tlv) -> der::Tlv {
    der::Tlv { tag, content: written(inside) }
}

proof fn lemma_first_tagged(children: Seq<der::Tlv>, tag: u8, at: int)
    requires
        0 <= at <= children.len(),
        forall|j: int| 0 <= j < at ==> (#[trigger] children[j]).tag != tag,
        at < children.len() ==> children[at].tag == tag,
    ensures
        at < children.len() ==> der::first_tagged(children, tag) == Some(children[at]),
        at == children.len() ==> der::first_tagged(children, tag) is None,
    decreases children.len(),
{
    if at > 0 {
        let others = children.drop_first();
        assert(children[0].tag != tag);
        assert forall|j: int| 0 <= j < at - 1 implies (#[trigger] others[j]).tag != tag by {
            assert(children[j + 1].tag != tag);
        }
        lemma_first_tagged(others, tag, at - 1);
    }
}

/// A field is read back from the sequence it is written in: the first under
/// its number, at `at`, or none where no field has that number.
pub proof fn law_a_field_is_read_back(
    fields: Seq<der::Tlv>,
    number: u8,
    at: int,
    inside: der::Tlv,
)
    requires
        all_writable(fields),
        0 <= at <= fields.len(),
        forall|j: int| 0 <= j < at ==> (#[trigger] fields[j]).tag != 0xa0u8 | number,
        at < fields.len() ==> fields[at] == field(number, inside) && writable(inside),
    ensures
        at < fields.len() ==> der::field_of(all_written(fields), number) == Ok::<
            Option<der::Tlv>,
            Seq<char>,
        >(Some(inside)),
        at == fields.len() ==> der::field_of(all_written(fields), number) == Ok::<
            Option<der::Tlv>,
            Seq<char>,
        >(None),
{
    law_elements_are_read_back(fields);
    lemma_first_tagged(fields, 0xa0u8 | number, at);
    if at < fields.len() {
        law_an_element_is_read_back(inside, Seq::empty());
        assert(written(inside) + Seq::empty() =~= written(inside));
    }
}

/// An element is read back where the tag it has is expected.
pub proof fn law_an_expected_element_is_read_back(element: der::Tlv, what: Seq<char>)
    requires
        writable(element),
    ensures
        der::expected(written(element), element.tag, what) == Ok::<der::Tlv, Seq<char>>(element),
{
    law_an_element_is_read_back(element, Seq::empty());
    assert(written(element) + Seq::empty() =~= written(element));
}

/// The `INTEGER` `n`.
pub open spec fn integer(n: nat) -> der::Tlv {
    let octets = ones::be_bytes(n as int, byte_count(n));
    der::Tlv {
        tag: der::INTEGER,
        content: if octets[0] >= 0x80 {
            seq![0u8] + octets
        } else {
            octets
        },
    }
}

/// A number of thirty-two bits is read back from its `INTEGER`.
pub proof fn law_an_integer_is_read_back(n: u32)
    ensures
        der::integer_of(integer(n as nat)) == Some(n as int),
        writable(integer(n as nat)),
{
    let count = byte_count(n as nat);
    let octets = ones::be_bytes(n as int, count);
    lemma_byte_count(n as nat);
    law_a_value_is_what_its_digits_write(n as int, count);
    if n > 0 {
        lemma_leading_byte(n as nat);
    } else {
        assert(count == 1);
    }
    let content = integer(n as nat).content;
    if octets[0] >= 0x80 {
        assert(content.drop_first() =~= octets);
        assert(0 * pow(256, octets.len()) == 0) by (nonlinear_arith);
    }
    lemma_byte_count_of_word(n as nat);
    assert(der::INTEGER & 0x1fu8 != 0x1fu8) by (bit_vector);
}

/// The `GeneralString` of `text`.
pub open spec fn general_string(text: Seq<char>) -> der::Tlv {
    der::Tlv { tag: der::GENERAL_STRING, content: encode_utf8(text) }
}

/// A text is read back from its `GeneralString`.
pub proof fn law_a_text_is_read_back(text: Seq<char>)
    ensures
        der::text_of(general_string(text)) == Some(text),
{
    encode_utf8_valid_utf8(text);
    encode_utf8_decode_utf8(text);
}

/// The `GeneralString`s of some texts.
pub open spec fn general_strings(texts: Seq<Seq<char>>) -> Seq<der::Tlv> {
    Seq::new(texts.len(), |i: int| general_string(texts[i]))
}

/// The `PrincipalName` of some components.
pub open spec fn principal_name(kind: der::Tlv, components: Seq<Seq<char>>) -> der::Tlv {
    sequence(seq![field(0, kind), field(1, sequence(general_strings(components)))])
}

pub proof fn lemma_context_tags()
    ensures
        0xa0u8 | 0u8 == 0xa0u8,
        0xa0u8 | 1u8 == 0xa1u8,
        0xa0u8 | 2u8 == 0xa2u8,
        0xa0u8 | 3u8 == 0xa3u8,
        0xa0u8 | 4u8 == 0xa4u8,
        0xa0u8 | 5u8 == 0xa5u8,
        0xa0u8 | 6u8 == 0xa6u8,
        0xa0u8 | 7u8 == 0xa7u8,
        forall|tag: u8| 0xa0u8 <= tag <= 0xa7u8 ==> #[trigger] (tag & 0x1fu8) != 0x1fu8,
        0x1bu8 & 0x1fu8 != 0x1fu8,
        0x30u8 & 0x1fu8 != 0x1fu8,
        0x04u8 & 0x1fu8 != 0x1fu8,
        0x18u8 & 0x1fu8 != 0x1fu8,
        0x60u8 & 0x1fu8 != 0x1fu8,
        0x61u8 & 0x1fu8 != 0x1fu8,
        0x63u8 & 0x1fu8 != 0x1fu8,
        0x6eu8 & 0x1fu8 != 0x1fu8,
{
    assert(0xa0u8 | 0u8 == 0xa0u8 && 0xa0u8 | 1u8 == 0xa1u8 && 0xa0u8 | 2u8 == 0xa2u8 && 0xa0u8
        | 3u8 == 0xa3u8 && 0xa0u8 | 4u8 == 0xa4u8 && 0xa0u8 | 5u8 == 0xa5u8 && 0xa0u8 | 6u8
        == 0xa6u8 && 0xa0u8 | 7u8 == 0xa7u8) by (bit_vector);
    assert forall|tag: u8| 0xa0u8 <= tag <= 0xa7u8 implies #[trigger] (tag & 0x1fu8) != 0x1fu8 by {
        assert(0xa0u8 <= tag <= 0xa7u8 ==> tag & 0x1fu8 != 0x1fu8) by (bit_vector);
    }
    assert(0x1bu8 & 0x1fu8 != 0x1fu8 && 0x30u8 & 0x1fu8 != 0x1fu8 && 0x04u8 & 0x1fu8 != 0x1fu8
        && 0x18u8 & 0x1fu8 != 0x1fu8 && 0x60u8 & 0x1fu8 != 0x1fu8 && 0x61u8 & 0x1fu8 != 0x1fu8
        && 0x63u8 & 0x1fu8 != 0x1fu8 && 0x6eu8 & 0x1fu8 != 0x1fu8) by (bit_vector);
}

/// A name of some components is read back as those components joined by `/`.
pub proof fn law_a_principal_name_is_its_components_joined(
    kind: der::Tlv,
    components: Seq<Seq<char>>,
)
    requires
        components.len() > 0,
        writable(kind),
        writable(principal_name(kind, components)),
    ensures
        der::principal_of(principal_name(kind, components).content) == Ok::<
            Seq<char>,
            Seq<char>,
        >(text::joined(components)),
{
    lemma_context_tags();
    let strings = general_strings(components);
    let names = sequence(strings);
    let fields = seq![field(0, kind), field(1, names)];
    lemma_children_are_shorter(fields);
    assert(fields[0].content.len() <= u64::MAX);
    assert(fields[1].content.len() <= u64::MAX);
    lemma_children_are_shorter(strings);
    assert(all_writable(fields));
    assert forall|i: int| 0 <= i < strings.len() implies writable(#[trigger] strings[i])
        && der::text_of(strings[i]) == Some(components[i]) by {
        law_a_text_is_read_back(components[i]);
        assert(strings[i].content.len() < names.content.len());
    }
    law_a_field_is_read_back(fields, 1, 1, names);
    law_elements_are_read_back(strings);
    assert(der::component_texts(strings)->0 =~= components);
}

} // verus!
