//! Laws of DER and of the values Kerberos writes in it.
use crate::calendar;
use crate::der;
use crate::ones;
use crate::text;
use vstd::prelude::*;
use vstd::utf8::*;

verus! {

/// Bytes that are read as an element are its tag, its length, as many octets
/// of content as that says, and what follows: the length stands in one octet
/// where it is below 128, and else in as many octets as the one before them
/// counts above 128, the first of them not zero.
pub proof fn law_an_element_is_its_tag_its_length_and_its_content(bytes: Seq<u8>)
    ensures
        der::element_at(bytes) matches Ok((element, rest)) ==> {
            let length = element.content.len();
            let start = bytes.len() - length - rest.len();
            &&& 2 <= start
            &&& bytes == bytes.take(start) + element.content + rest
            &&& element.tag == bytes[0]
            &&& element.tag % 32 != 31
            &&& start == 2 ==> length == bytes[1] && length < 128
            &&& start > 2 ==> {
                &&& bytes[1] == 126 + start
                &&& start <= 128
                &&& bytes[2] != 0
                &&& length >= 128
                &&& ones::be_value(bytes.subrange(2, start)) == length
            }
        },
{
    if let Ok((element, rest)) = der::element_at(bytes) {
        let tag = bytes[0];
        assert(tag & 0x1fu8 == tag % 32) by (bit_vector);
        let start = bytes.len() - element.content.len() - rest.len();
        if let Ok((start, length)) = der::header(bytes) {
            ones::lemma_be_value_bound(bytes.subrange(2, start));
        }
        assert(bytes =~= bytes.take(start) + element.content + rest);
    }
}

/// A tag of one octet, the octets of a length in the form that is shortest,
/// that many octets of content and whatever follows are read as that element
/// and what follows it.
pub proof fn law_a_whole_element_is_read(
    tag: u8,
    octets: Seq<u8>,
    content: Seq<u8>,
    rest: Seq<u8>,
)
    requires
        tag % 32 != 31,
        ({
            ||| octets == seq![content.len() as u8] && content.len() < 128
            ||| {
                &&& 2 <= octets.len() <= 127
                &&& octets[0] == 127 + octets.len()
                &&& octets[1] != 0
                &&& ones::be_value(octets.skip(1)) == content.len()
                &&& content.len() >= 128
            }
        }),
    ensures
        der::element_at(seq![tag] + octets + content + rest) == Ok::<
            (der::Tlv, Seq<u8>),
            Seq<char>,
        >((der::Tlv { tag, content }, rest)),
{
    assert(tag & 0x1fu8 == tag % 32) by (bit_vector);
    let bytes = seq![tag] + octets + content + rest;
    let start = 1 + octets.len() as int;
    assert(bytes[1] == octets[0]);
    if octets.len() > 1 {
        assert(bytes[2] == octets[1]);
        assert(bytes.subrange(2, start) =~= octets.skip(1));
    }
    assert(bytes.subrange(start, start + content.len()) =~= content);
    assert(bytes.skip(start + content.len()) =~= rest);
}

/// An element that is expected under a tag is the one at the front, where that
/// tag is on it.
pub proof fn law_an_expected_element_has_its_tag(bytes: Seq<u8>, tag: u8, what: Seq<char>)
    ensures
        der::expected(bytes, tag, what) matches Ok(element) ==> element.tag == tag
            && der::element_at(bytes) is Ok && der::element_at(bytes)->Ok_0.0 == element,
        der::element_at(bytes) matches Ok((element, _)) ==> element.tag == tag ==> der::expected(
            bytes,
            tag,
            what,
        ) == Ok::<der::Tlv, Seq<char>>(element),
        der::element_at(bytes) matches Ok((element, _)) ==> element.tag != tag ==> der::expected(
            bytes,
            tag,
            what,
        ) == Err::<der::Tlv, Seq<char>>("the bytes are not "@ + what),
        der::element_at(bytes) matches Err(why) ==> der::expected(bytes, tag, what) == Err::<
            der::Tlv,
            Seq<char>,
        >(why),
{
}

/// Content is read as elements one after the other, to its end.
pub proof fn law_elements_follow_one_another(content: Seq<u8>)
    ensures
        content.len() == 0 ==> der::elements(content) == Ok::<Seq<der::Tlv>, Seq<char>>(
            Seq::empty(),
        ),
        content.len() > 0 ==> (der::element_at(content) matches Err(why) ==> der::elements(content)
            == Err::<Seq<der::Tlv>, Seq<char>>(why)),
        content.len() > 0 ==> (der::element_at(content) matches Ok((first, rest)) ==> {
            &&& der::elements(rest) matches Ok(others) ==> der::elements(content) == Ok::<
                Seq<der::Tlv>,
                Seq<char>,
            >(seq![first] + others)
            &&& der::elements(rest) matches Err(why) ==> der::elements(content) == Err::<
                Seq<der::Tlv>,
                Seq<char>,
            >(why)
        }),
{
}

/// The first child a tag is on is found, and none where it is on none.
proof fn lemma_first_tagged(children: Seq<der::Tlv>, tag: u8, at: int)
    requires
        0 <= at <= children.len(),
        forall|j: int| 0 <= j < at ==> (#[trigger] children[j]).tag != tag,
        at < children.len() ==> children[at].tag == tag,
    ensures
        at < children.len() ==> der::first_tagged(children, tag) == Some(children[at]),
        at == children.len() ==> der::first_tagged(children, tag) is None,
    decreases children.len(),
{
    if at > 0 {
        let others = children.drop_first();
        assert(children[0].tag != tag);
        assert forall|j: int| 0 <= j < at - 1 implies (#[trigger] others[j]).tag != tag by {
            assert(children[j + 1].tag != tag);
        }
        lemma_first_tagged(others, tag, at - 1);
    }
}

/// Field `[number]` is the first child tagged 160 and the number, whatever
/// children there are besides, and what is in it is read; where no child is
/// tagged so, there is no such field.
pub proof fn law_a_field_is_the_first_of_its_number(
    content: Seq<u8>,
    children: Seq<der::Tlv>,
    number: u8,
    at: int,
)
    requires
        number < 32,
        der::elements(content) == Ok::<Seq<der::Tlv>, Seq<char>>(children),
        0 <= at <= children.len(),
        forall|j: int| 0 <= j < at ==> (#[trigger] children[j]).tag != 160 + number,
        at < children.len() ==> children[at].tag == 160 + number,
    ensures
        at == children.len() ==> der::field_of(content, number) == Ok::<
            Option<der::Tlv>,
            Seq<char>,
        >(None),
        at < children.len() ==> (der::element_at(children[at].content) matches Ok((inside, _))
            ==> der::field_of(content, number) == Ok::<Option<der::Tlv>, Seq<char>>(Some(inside))),
        at < children.len() ==> (der::element_at(children[at].content) matches Err(why)
            ==> der::field_of(content, number) == Err::<Option<der::Tlv>, Seq<char>>(why)),
{
    assert(number < 32 ==> 0xa0u8 | number == 160 + number) by (bit_vector);
    lemma_first_tagged(children, 0xa0u8 | number, at);
}

/// A field is read only from content that is elements to its end, and one that
/// is required is the field, or is said to be missing.
pub proof fn law_a_required_field_is_there_or_named(content: Seq<u8>, number: u8, what: Seq<char>)
    ensures
        der::elements(content) matches Err(why) ==> der::field_of(content, number) == Err::<
            Option<der::Tlv>,
            Seq<char>,
        >(why),
        der::field_of(content, number) matches Err(why) ==> der::required_of(content, number, what)
            == Err::<der::Tlv, Seq<char>>(why),
        der::field_of(content, number) matches Ok(None) ==> der::required_of(content, number, what)
            == Err::<der::Tlv, Seq<char>>("the Kerberos message has no "@ + what),
        der::field_of(content, number) matches Ok(Some(inside)) ==> der::required_of(
            content,
            number,
            what,
        ) == Ok::<der::Tlv, Seq<char>>(inside),
{
}

/// A number is read from an element exactly where its tag is 2, its content is
/// the shortest of a number that is not negative, and that fits thirty-two
/// bits; and it is the number the content writes.
pub proof fn law_an_integer_is_what_its_content_writes(element: der::Tlv)
    ensures
        der::integer_of(element) matches Some(number) ==> number == ones::be_value(element.content),
        der::integer_of(element) is Some <==> {
            &&& element.tag == 2
            &&& element.content.len() >= 1
            &&& element.content[0] < 128
            &&& element.content.len() == 1 || element.content[0] != 0 || element.content[1] >= 128
            &&& ones::be_value(element.content) < 0x1_0000_0000
        },
{
}

/// A text is read from an element exactly where its tag is 27 and its content
/// is UTF-8, and a time exactly where its tag is 24 and its content is a time.
pub proof fn law_texts_and_times_are_what_their_content_writes(element: der::Tlv)
    ensures
        der::text_of(element) is Some <==> element.tag == 27 && valid_utf8(element.content),
        der::text_of(element) matches Some(words) ==> words == decode_utf8(element.content),
        der::time_of(element) is Some <==> element.tag == 24 && calendar::seconds_written(
            element.content,
        ) is Some,
        der::time_of(element) matches Some(seconds) ==> calendar::seconds_written(element.content)
            == Some(seconds),
{
}

/// A name is read exactly where its field `[1]` holds one text or more and
/// nothing else, and it is those texts joined by `/`, whatever other fields
/// there are.
pub proof fn law_a_name_is_the_texts_of_its_field(
    content: Seq<u8>,
    list: der::Tlv,
    children: Seq<der::Tlv>,
)
    requires
        der::field_of(content, 1) == Ok::<Option<der::Tlv>, Seq<char>>(Some(list)),
        der::elements(list.content) == Ok::<Seq<der::Tlv>, Seq<char>>(children),
    ensures
        der::principal_of(content) is Ok <==> children.len() > 0 && forall|i: int|
            0 <= i < children.len() ==> der::text_of(#[trigger] children[i]) is Some,
        der::principal_of(content) matches Ok(name) ==> name == text::joined(
            Seq::new(children.len(), |i: int| der::text_of(children[i])->0),
        ),
        der::principal_of(content) matches Err(why) ==> why
            == "a principal name in the ticket is not readable"@,
{
    if let Ok(name) = der::principal_of(content) {
        assert(name == text::joined(der::component_texts(children)->0));
        assert(der::component_texts(children)->0 =~= Seq::new(
            children.len(),
            |i: int| der::text_of(children[i])->0,
        ));
    }
}

/// A name without a field `[1]`, or whose field is not DER, is refused.
pub proof fn law_a_name_without_its_field_is_refused(content: Seq<u8>)
    ensures
        der::field_of(content, 1) matches Err(why) ==> der::principal_of(content) == Err::<
            Seq<char>,
            Seq<char>,
        >(why),
        der::field_of(content, 1) matches Ok(None) ==> der::principal_of(content) == Err::<
            Seq<char>,
            Seq<char>,
        >("a principal name in the ticket is not readable"@),
        der::field_of(content, 1) matches Ok(Some(list)) ==> (der::elements(list.content) matches
            Err(why) ==> der::principal_of(content) == Err::<Seq<char>, Seq<char>>(why)),
{
}

} // verus!
