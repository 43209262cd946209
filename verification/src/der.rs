//! The DER an AP-REQ and its sealed part are, named the way RFC 4120 names
//! them.
//!
//! Every field of a Kerberos `SEQUENCE` is explicitly tagged and constructed,
//! a missing one is named in the message's words, and a `PrincipalName` is its
//! components joined by `/`. An element is read from the front of the bytes it
//! is looked for in; what follows it there is not looked at.
use crate::calendar;
use crate::error::AuthenticateError;
use crate::ones;
use crate::text;
use vstd::arithmetic::power::*;
use vstd::prelude::*;
use vstd::slice::*;
use vstd::string::*;

verus! {

/// The tag of an `INTEGER`.
pub const INTEGER: u8 = 0x02;

/// The tag of an `OCTET STRING`.
pub const OCTET_STRING: u8 = 0x04;

/// The tag of an `OBJECT IDENTIFIER`.
pub const OID: u8 = 0x06;

/// The tag of a `GeneralizedTime`.
pub const GENERALIZED_TIME: u8 = 0x18;

/// The tag of a `GeneralString`.
pub const GENERAL_STRING: u8 = 0x1b;

/// The tag of a `SEQUENCE`.
pub const SEQUENCE: u8 = 0x30;

/// The tag of `[number]`, context-specific and constructed.
#[must_use]
pub fn context(number: u8) -> (tag: u8)
    ensures
        tag == 0xa0u8 | number,
        number < 0x20 ==> tag == 0xa0 + number,
{
    assert(number < 0x20u8 ==> 0xa0u8 | number == 0xa0u8 + number) by (bit_vector);
    0xa0u8 | number
}

/// The tag of `[APPLICATION number]`, constructed.
#[must_use]
pub fn application(number: u8) -> (tag: u8)
    ensures
        tag == 0x60u8 | number,
        number < 0x20 ==> tag == 0x60 + number,
{
    assert(number < 0x20u8 ==> 0x60u8 | number == 0x60u8 + number) by (bit_vector);
    0x60u8 | number
}

/// A tag and the content it is put on.
pub struct Tlv {
    pub tag: u8,
    pub content: Seq<u8>,
}

/// One DER element: a tag and the content it is put on.
#[derive(Clone, Copy, Debug, PartialEq, Eq)]
pub struct Element<'a> {
    /// The identifier octet.
    pub tag: u8,
    /// The content octets.
    pub content: &'a [u8],
}

impl<'a> View for Element<'a> {
    type V = Tlv;

    open spec fn view(&self) -> Tlv {
        Tlv { tag: self.tag, content: self.content@ }
    }
}

/// What is said of bytes that end inside an element.
pub open spec fn cut_short() -> Seq<char> {
    "the DER element is cut short"@
}

/// What is said of a tag number above thirty.
pub open spec fn long_tag() -> Seq<char> {
    "the DER element's tag is longer than one byte"@
}

/// What is said of a length that is not written the one way DER allows.
pub open spec fn bad_length() -> Seq<char> {
    "the DER element's length is not the shortest definite form"@
}

/// How many bytes the identifier and length octets at the front of `bytes`
/// take, and how many content octets they announce.
pub open spec fn header(bytes: Seq<u8>) -> Result<(int, int), Seq<char>> {
    if bytes.len() < 2 {
        Err(cut_short())
    } else if bytes[0] & 0x1fu8 == 0x1fu8 {
        Err(long_tag())
    } else if bytes[1] < 0x80 {
        Ok((2, bytes[1] as int))
    } else {
        let count = bytes[1] - 0x80;
        if count == 0 || count == 0x7f {
            Err(bad_length())
        } else if bytes.len() < 2 + count {
            Err(cut_short())
        } else {
            let length = ones::be_value(bytes.subrange(2, 2 + count));
            if bytes[2] == 0 || length < 0x80 {
                Err(bad_length())
            } else {
                Ok((2 + count, length))
            }
        }
    }
}

/// The element at the front of `bytes`, and the bytes after it.
pub open spec fn element_at(bytes: Seq<u8>) -> Result<(Tlv, Seq<u8>), Seq<char>> {
    match header(bytes) {
        Err(why) => Err(why),
        Ok((start, length)) => if start + length > bytes.len() {
            Err(cut_short())
        } else {
            Ok(
                (
                    Tlv { tag: bytes[0], content: bytes.subrange(start, start + length) },
                    bytes.skip(start + length),
                ),
            )
        },
    }
}

/// An element and what follows it are both shorter than the bytes they are
/// read from.
pub proof fn law_an_element_is_shorter_than_its_bytes(bytes: Seq<u8>)
    ensures
        element_at(bytes) matches Ok((element, rest)) ==> {
            &&& element.content.len() + rest.len() + 2 <= bytes.len()
            &&& 2 <= bytes.len()
        },
{
    if let Ok((start, length)) = header(bytes) {
        ones::lemma_be_value_bound(bytes.subrange(2, start));
    }
}

/// The element at the front of `bytes`, where its tag is `tag`.
pub open spec fn expected(bytes: Seq<u8>, tag: u8, what: Seq<char>) -> Result<Tlv, Seq<char>> {
    match element_at(bytes) {
        Err(why) => Err(why),
        Ok((element, _)) => if element.tag == tag {
            Ok(element)
        } else {
            Err("the bytes are not "@ + what)
        },
    }
}

/// The elements `content` is made of, one after the other.
pub open spec fn elements(content: Seq<u8>) -> Result<Seq<Tlv>, Seq<char>>
    decreases content.len(),
{
    if content.len() == 0 {
        Ok(Seq::empty())
    } else {
        match element_at(content) {
            Err(why) => Err(why),
            Ok((first, rest)) => {
                proof {
                    law_an_element_is_shorter_than_its_bytes(content);
                }
                match elements(rest) {
                    Err(why) => Err(why),
                    Ok(others) => Ok(seq![first] + others),
                }
            },
        }
    }
}

/// The first of `children` that `tag` is on.
pub open spec fn first_tagged(children: Seq<Tlv>, tag: u8) -> Option<Tlv>
    decreases children.len(),
{
    if children.len() == 0 {
        None
    } else if children[0].tag == tag {
        Some(children[0])
    } else {
        first_tagged(children.drop_first(), tag)
    }
}

/// The element inside field `[number]` of `content`.
pub open spec fn field_of(content: Seq<u8>, number: u8) -> Result<Option<Tlv>, Seq<char>> {
    match elements(content) {
        Err(why) => Err(why),
        Ok(children) => match first_tagged(children, 0xa0u8 | number) {
            None => Ok(None),
            Some(wrapping) => match element_at(wrapping.content) {
                Err(why) => Err(why),
                Ok((inside, _)) => Ok(Some(inside)),
            },
        },
    }
}

/// The element inside field `[number]` of `content`, which has to be there.
pub open spec fn required_of(content: Seq<u8>, number: u8, what: Seq<char>) -> Result<
    Tlv,
    Seq<char>,
> {
    match field_of(content, number) {
        Err(why) => Err(why),
        Ok(None) => Err("the Kerberos message has no "@ + what),
        Ok(Some(inside)) => Ok(inside),
    }
}

/// The number a non-negative `INTEGER` of at most thirty-two bits writes.
pub open spec fn integer_of(element: Tlv) -> Option<int> {
    let content = element.content;
    let value = ones::be_value(content);
    if element.tag == INTEGER && content.len() > 0 && content[0] < 0x80 && (content.len() > 1
        && content[0] == 0 ==> content[1] >= 0x80) && value <= u32::MAX {
        Some(value)
    } else {
        None
    }
}

/// The text a `GeneralString` of UTF-8 writes.
pub open spec fn text_of(element: Tlv) -> Option<Seq<char>> {
    if element.tag == GENERAL_STRING {
        text::utf8_text(element.content)
    } else {
        None
    }
}

/// The seconds since the Unix epoch that a `KerberosTime` writes.
pub open spec fn time_of(element: Tlv) -> Option<int> {
    if element.tag == GENERALIZED_TIME {
        calendar::seconds_written(element.content)
    } else {
        None
    }
}

/// What is said of a `PrincipalName` without readable components.
pub open spec fn unreadable() -> Seq<char> {
    "a principal name in the ticket is not readable"@
}

/// The texts of `children`, where there is one at least and each has one.
pub open spec fn component_texts(children: Seq<Tlv>) -> Option<Seq<Seq<char>>> {
    if children.len() > 0 && forall|i: int|
        0 <= i < children.len() ==> text_of(#[trigger] children[i]) is Some {
        Some(Seq::new(children.len(), |i: int| text_of(children[i])->0))
    } else {
        None
    }
}

/// The `PrincipalName` that `content` is the content of, its components
/// joined by `/`.
pub open spec fn principal_of(content: Seq<u8>) -> Result<Seq<char>, Seq<char>> {
    match field_of(content, 1) {
        Err(why) => Err(why),
        Ok(None) => Err(unreadable()),
        Ok(Some(names)) => match elements(names.content) {
            Err(why) => Err(why),
            Ok(children) => match component_texts(children) {
                None => Err(unreadable()),
                Some(components) => Ok(text::joined(components)),
            },
        },
    }
}

/// The views of some elements.
pub open spec fn tlvs(children: Seq<Element<'_>>) -> Seq<Tlv> {
    Seq::new(children.len(), |i: int| children[i]@)
}

/// The length octets after the first, as a number, where they fit sixty-four
/// bits.
fn long_length(octets: &[u8]) -> (length: Option<u64>)
    requires
        octets@.len() > 0,
        octets@[0] != 0,
    ensures
        match length {
            Some(length) => ones::be_value(octets@) == length,
            None => ones::be_value(octets@) > u64::MAX,
        },
{
    proof {
        ones::lemma_be_value_bound(octets@);
        ones::lemma_be_value_at_least(octets@);
        lemma_power_of_eight();
        if octets@.len() > 8 {
            lemma_pow_increases(256, 8, (octets@.len() - 1) as nat);
        }
    }
    if octets.len() > 8 {
        return None;
    }
    proof {
        lemma_pow_increases(256, octets@.len(), 8);
    }
    Some(ones::value(octets))
}

proof fn lemma_power_of_eight()
    ensures
        pow(256, 8) == u64::MAX + 1,
        pow(256, 5) == 0x100_0000_0000,
        pow(256, 4) == u32::MAX + 1,
{
    reveal_with_fuel(pow, 9);
}

impl<'a> Element<'a> {
    /// The element at the front of `bytes`, and the bytes after it.
    ///
    /// # Errors
    ///
    /// Where `bytes` do not start with a whole DER element.
    pub fn read(bytes: &'a [u8]) -> (read: Result<(Element<'a>, &'a [u8]), AuthenticateError>)
        ensures
            match read {
                Ok((element, rest)) => element_at(bytes@) == Ok::<(Tlv, Seq<u8>), Seq<char>>(
                    (element@, rest@),
                ),
                Err(error) => element_at(bytes@) == Err::<(Tlv, Seq<u8>), Seq<char>>(error@),
            },
    {
        if bytes.len() < 2 {
            return Err(AuthenticateError::new("the DER element is cut short"));
        }
        if bytes[0] & 0x1fu8 == 0x1fu8 {
            return Err(
                AuthenticateError::new("the DER element's tag is longer than one byte"),
            );
        }
        let mut start: usize = 2;
        let mut length: u64 = bytes[1] as u64;
        if bytes[1] >= 0x80 {
            let count: usize = (bytes[1] - 0x80) as usize;
            if count == 0 || count == 0x7f {
                return Err(
                    AuthenticateError::new(
                        "the DER element's length is not the shortest definite form",
                    ),
                );
            }
            if bytes.len() - 2 < count {
                return Err(AuthenticateError::new("the DER element is cut short"));
            }
            if bytes[2] == 0 {
                return Err(
                    AuthenticateError::new(
                        "the DER element's length is not the shortest definite form",
                    ),
                );
            }
            match long_length(slice_subrange(bytes, 2, 2 + count)) {
                None => {
                    return Err(AuthenticateError::new("the DER element is cut short"));
                },
                Some(announced) => {
                    if announced < 0x80 {
                        return Err(
                            AuthenticateError::new(
                                "the DER element's length is not the shortest definite form",
                            ),
                        );
                    }
                    start = 2 + count;
                    length = announced;
                },
            }
        }
        if length > (bytes.len() - start) as u64 {
            return Err(AuthenticateError::new("the DER element is cut short"));
        }
        let end: usize = start + length as usize;
        let element = Element { tag: bytes[0], content: slice_subrange(bytes, start, end) };
        Ok((element, slice_subrange(bytes, end, bytes.len())))
    }

    /// The element at the front of `bytes`, which `tag` has to be on.
    ///
    /// # Errors
    ///
    /// As [`Element::read`], and where another tag is on it: the bytes are
    /// not `what`.
    pub fn expect(bytes: &'a [u8], tag: u8, what: &str) -> (element: Result<
        Element<'a>,
        AuthenticateError,
    >)
        ensures
            match element {
                Ok(element) => expected(bytes@, tag, what@) == Ok::<Tlv, Seq<char>>(element@),
                Err(error) => expected(bytes@, tag, what@) == Err::<Tlv, Seq<char>>(error@),
            },
    {
        let (element, _) = match Element::read(bytes) {
            Ok(read) => read,
            Err(error) => {
                return Err(error);
            },
        };
        if element.tag == tag {
            Ok(element)
        } else {
            let mut message: String = "the bytes are not ".to_owned();
            message.append(what);
            Err(AuthenticateError { message })
        }
    }

    /// The elements the content is made of.
    ///
    /// # Errors
    ///
    /// Where the content is not whole DER elements one after the other.
    pub fn children(&self) -> (children: Result<Vec<Element<'a>>, AuthenticateError>)
        ensures
            match children {
                Ok(children) => elements(self@.content) == Ok::<Seq<Tlv>, Seq<char>>(
                    tlvs(children@),
                ),
                Err(error) => elements(self@.content) == Err::<Seq<Tlv>, Seq<char>>(error@),
            },
    {
        let mut children: Vec<Element<'a>> = Vec::new();
        let mut rest: &'a [u8] = self.content;
        assert(elements(rest@) matches Ok(others) ==> tlvs(children@) + others =~= others);
        while rest.len() > 0
            invariant
                match elements(rest@) {
                    Ok(others) => elements(self@.content) == Ok::<Seq<Tlv>, Seq<char>>(
                        tlvs(children@) + others,
                    ),
                    Err(why) => elements(self@.content) == Err::<Seq<Tlv>, Seq<char>>(why),
                },
            decreases rest@.len(),
        {
            proof {
                law_an_element_is_shorter_than_its_bytes(rest@);
            }
            let ghost before = tlvs(children@);
            match Element::read(rest) {
                Err(error) => {
                    return Err(error);
                },
                Ok((first, after)) => {
                    children.push(first);
                    rest = after;
                    proof {
                        assert(tlvs(children@) =~= before.push(first@));
                        if let Ok(others) = elements(after@) {
                            assert(before + (seq![first@] + others) =~= tlvs(children@) + others);
                        }
                    }
                },
            }
        }
        assert(tlvs(children@) + Seq::<Tlv>::empty() =~= tlvs(children@));
        Ok(children)
    }

    /// The element inside field `[number]`, where there is such a field.
    ///
    /// # Errors
    ///
    /// Where the content, or that of the field, is not DER.
    pub fn field(&self, number: u8) -> (field: Result<Option<Element<'a>>, AuthenticateError>)
        ensures
            match field {
                Ok(Some(inside)) => field_of(self@.content, number) == Ok::<
                    Option<Tlv>,
                    Seq<char>,
                >(Some(inside@)),
                Ok(None) => field_of(self@.content, number) == Ok::<Option<Tlv>, Seq<char>>(None),
                Err(error) => field_of(self@.content, number) == Err::<Option<Tlv>, Seq<char>>(
                    error@,
                ),
            },
    {
        let tag: u8 = context(number);
        let children = match self.children() {
            Ok(children) => children,
            Err(error) => {
                return Err(error);
            },
        };
        let ghost all = tlvs(children@);
        let mut index: usize = 0;
        assert(all.skip(0) =~= all);
        while index < children.len()
            invariant
                index <= children@.len(),
                all == tlvs(children@),
                first_tagged(all, tag) == first_tagged(all.skip(index as int), tag),
                tag == 0xa0u8 | number,
                elements(self@.content) == Ok::<Seq<Tlv>, Seq<char>>(all),
            decreases children@.len() - index,
        {
            assert(all.skip(index as int).drop_first() =~= all.skip(index + 1));
            let child: Element<'a> = children[index];
            if child.tag == tag {
                return match Element::read(child.content) {
                    Ok((inside, _)) => Ok(Some(inside)),
                    Err(error) => Err(error),
                };
            }
            index += 1;
        }
        Ok(None)
    }

    /// The number the element writes, where it is a non-negative `INTEGER` of
    /// at most thirty-two bits.
    pub fn integer(&self) -> (number: Option<u32>)
        ensures
            match number {
                Some(number) => integer_of(self@) == Some(number as int),
                None => integer_of(self@) is None,
            },
    {
        let content = self.content;
        if self.tag != INTEGER || content.len() == 0 || content[0] >= 0x80 || (content.len() > 1
            && content[0] == 0 && content[1] < 0x80) {
            return None;
        }
        proof {
            ones::lemma_be_value_bound(content@);
            lemma_power_of_eight();
            if content@.len() > 5 {
                lemma_long_integer(content@);
            } else {
                lemma_pow_increases(256, content@.len(), 5);
            }
        }
        if content.len() > 5 {
            return None;
        }
        let value: u64 = ones::value(content);
        if value <= u32::MAX as u64 {
            Some(value as u32)
        } else {
            None
        }
    }

    /// The text the element writes, where it is a `GeneralString` of UTF-8.
    pub fn text(&self) -> (words: Option<&'a str>)
        ensures
            text::some_text(words) == text_of(self@),
    {
        if self.tag == GENERAL_STRING {
            text::from_utf8(self.content)
        } else {
            None
        }
    }

    /// The seconds since the Unix epoch that the element writes, where it is a
    /// `KerberosTime`.
    pub fn time(&self) -> (seconds: Option<i64>)
        ensures
            match seconds {
                Some(seconds) => time_of(self@) == Some(seconds as int),
                None => time_of(self@) is None,
            },
    {
        if self.tag == GENERALIZED_TIME {
            calendar::seconds(self.content)
        } else {
            None
        }
    }
}

/// More than five octets of a shortest non-negative integer are more than
/// thirty-two bits.
proof fn lemma_long_integer(content: Seq<u8>)
    requires
        content.len() > 5,
        content[0] == 0 ==> content[1] >= 0x80,
    ensures
        ones::be_value(content) > u32::MAX,
{
    lemma_power_of_eight();
    let rest = content.drop_first();
    ones::lemma_be_value_bound(rest);
    if content[0] == 0 {
        assert(0 * pow(256, rest.len()) == 0) by (nonlinear_arith);
        ones::lemma_be_value_at_least(rest);
        lemma_pow_increases(256, 4, (rest.len() - 1) as nat);
    } else {
        ones::lemma_be_value_at_least(content);
        lemma_pow_increases(256, 4, (content.len() - 1) as nat);
    }
}

/// A field a Kerberos message must carry.
pub trait Required<'a> {
    /// The content the field is looked for in.
    spec fn fields(&self) -> Seq<u8>;

    /// `[number]`, required: the error says `what` is missing.
    ///
    /// # Errors
    ///
    /// As [`Element::field`], and where the field is absent.
    fn required(&self, number: u8, what: &str) -> (field: Result<Element<'a>, AuthenticateError>)
        ensures
            match field {
                Ok(inside) => required_of(self.fields(), number, what@) == Ok::<Tlv, Seq<char>>(
                    inside@,
                ),
                Err(error) => required_of(self.fields(), number, what@) == Err::<Tlv, Seq<char>>(
                    error@,
                ),
            },
    ;
}

impl<'a> Required<'a> for Element<'a> {
    open spec fn fields(&self) -> Seq<u8> {
        self@.content
    }

    fn required(&self, number: u8, what: &str) -> (field: Result<Element<'a>, AuthenticateError>) {
        match self.field(number) {
            Err(error) => Err(error),
            Ok(Some(inside)) => Ok(inside),
            Ok(None) => {
                let mut message: String = "the Kerberos message has no ".to_owned();
                message.append(what);
                Err(AuthenticateError { message })
            },
        }
    }
}

/// A `PrincipalName` — `SEQUENCE { name-type [0], name-string [1] SEQUENCE
/// OF GeneralString }` — as Kerberos writes one: components joined by `/`.
///
/// # Errors
///
/// Where the name has no readable component.
pub fn principal(name: Element<'_>) -> (joined: Result<String, AuthenticateError>)
    ensures
        match joined {
            Ok(joined) => principal_of(name@.content) == Ok::<Seq<char>, Seq<char>>(joined@),
            Err(error) => principal_of(name@.content) == Err::<Seq<char>, Seq<char>>(error@),
        },
{
    let names = match name.field(1) {
        Err(error) => {
            return Err(error);
        },
        Ok(None) => {
            return Err(AuthenticateError::new("a principal name in the ticket is not readable"));
        },
        Ok(Some(names)) => names,
    };
    let children = match names.children() {
        Err(error) => {
            return Err(error);
        },
        Ok(children) => children,
    };
    let ghost all = tlvs(children@);
    let mut components: Vec<String> = Vec::new();
    let mut index: usize = 0;
    while index < children.len()
        invariant
            index <= children@.len(),
            all == tlvs(children@),
            components@.len() == index,
            forall|i: int| 0 <= i < index ==> text_of(#[trigger] all[i]) == Some(components@[i]@),
            field_of(name@.content, 1) == Ok::<Option<Tlv>, Seq<char>>(Some(names@)),
            elements(names@.content) == Ok::<Seq<Tlv>, Seq<char>>(all),
        decreases children@.len() - index,
    {
        match children[index].text() {
            Some(words) => {
                components.push(words.to_owned());
            },
            None => {
                assert(text_of(all[index as int]) is None);
                return Err(
                    AuthenticateError::new("a principal name in the ticket is not readable"),
                );
            },
        }
        index += 1;
    }
    if components.len() == 0 {
        return Err(AuthenticateError::new("a principal name in the ticket is not readable"));
    }
    assert(component_texts(all)->0 =~= text::texts(components@));
    Ok(text::join(&components))
}

} // verus!
