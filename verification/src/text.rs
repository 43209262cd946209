//! Text: joined, split, trimmed, read from UTF-8 and written from numbers.
use vstd::prelude::*;
use vstd::string::*;
use vstd::utf8::*;

verus! {

/// `String::push`: appends one character.
pub assume_specification[ String::push ](s: &mut String, ch: char)
    ensures
        final(s)@ == old(s)@.push(ch),
;

/// The characters Unicode's `White_Space` property names.
pub open spec fn is_white_space(c: char) -> bool {
    let n = c as u32;
    ||| 0x09 <= n <= 0x0d
    ||| n == 0x20
    ||| n == 0x85
    ||| n == 0xa0
    ||| n == 0x1680
    ||| 0x2000 <= n <= 0x200a
    ||| n == 0x2028
    ||| n == 0x2029
    ||| n == 0x202f
    ||| n == 0x205f
    ||| n == 0x3000
}

/// `text` without the white space it starts and ends with.
pub open spec fn trimmed(text: Seq<char>) -> Seq<char>
    decreases text.len(),
{
    if text.len() == 0 {
        text
    } else if is_white_space(text.first()) {
        trimmed(text.drop_first())
    } else if is_white_space(text.last()) {
        trimmed(text.drop_last())
    } else {
        text
    }
}

/// `str::trim`: white space, as Unicode's `White_Space` property has it, is
/// taken off both ends and nothing else is.
#[verifier::external_body]
pub(crate) fn trim(text: &str) -> (rest: &str)
    ensures
        rest@ == trimmed(text@),
{
    text.trim()
}

/// The text `bytes` encodes, where they are well-formed UTF-8.
pub open spec fn utf8_text(bytes: Seq<u8>) -> Option<Seq<char>> {
    if valid_utf8(bytes) {
        Some(decode_utf8(bytes))
    } else {
        None
    }
}

/// The view of an optional text.
pub open spec fn some_text(text: Option<&str>) -> Option<Seq<char>> {
    match text {
        Some(text) => Some(text@),
        None => None,
    }
}

/// `std::str::from_utf8`: the decoded text where the bytes are well-formed
/// UTF-8, and an error, dropped here, where they are not.
#[verifier::external_body]
pub(crate) fn from_utf8(bytes: &[u8]) -> (text: Option<&str>)
    ensures
        some_text(text) == utf8_text(bytes@),
{
    std::str::from_utf8(bytes).ok()
}

/// The views of some texts.
pub open spec fn texts(parts: Seq<String>) -> Seq<Seq<char>> {
    Seq::new(parts.len(), |i: int| parts[i]@)
}

/// `parts` with a `/` between each and the next.
pub open spec fn joined(parts: Seq<Seq<char>>) -> Seq<char>
    decreases parts.len(),
{
    if parts.len() == 0 {
        Seq::empty()
    } else if parts.len() == 1 {
        parts[0]
    } else {
        joined(parts.drop_last()).push('/') + parts.last()
    }
}

/// `text` cut at every `/`.
pub open spec fn split_at_slashes(text: Seq<char>) -> Seq<Seq<char>>
    decreases text.len(),
{
    if text.len() == 0 {
        seq![text]
    } else {
        let before = split_at_slashes(text.drop_last());
        if text.last() == '/' {
            before.push(Seq::empty())
        } else {
            before.drop_last().push(before.last().push(text.last()))
        }
    }
}

/// Joining what a split cut gives the text back, and no piece holds a `/`.
pub proof fn law_split_is_undone_by_join(text: Seq<char>)
    ensures
        split_at_slashes(text).len() > 0,
        joined(split_at_slashes(text)) == text,
        forall|i: int|
            0 <= i < split_at_slashes(text).len() ==> !(#[trigger] split_at_slashes(
                text,
            )[i]).contains('/'),
    decreases text.len(),
{
    if text.len() > 0 {
        let before = split_at_slashes(text.drop_last());
        law_split_is_undone_by_join(text.drop_last());
        let pieces = split_at_slashes(text);
        if text.last() == '/' {
            assert(pieces.drop_last() =~= before);
            assert(joined(pieces) =~= text);
        } else {
            let piece = before.last().push(text.last());
            assert(pieces.drop_last() =~= before.drop_last());
            assert(joined(pieces) =~= joined(before).push(text.last()));
            assert(joined(pieces) =~= text);
            assert forall|i: int| 0 <= i < pieces.len() implies !(#[trigger] pieces[i]).contains(
                '/',
            ) by {
                if i == pieces.len() - 1 {
                    assert(!before[before.len() - 1].contains('/'));
                    assert forall|j: int| 0 <= j < piece.len() implies piece[j] != '/' by {
                        if j < piece.len() - 1 {
                            assert(before.last()[j] == piece[j]);
                        }
                    }
                } else {
                    assert(pieces[i] == before[i]);
                }
            }
        }
    }
}

/// Splitting what a join put together gives the parts back, where there is one
/// at least and none holds a `/`.
pub proof fn law_join_is_undone_by_split(parts: Seq<Seq<char>>)
    requires
        parts.len() > 0,
        forall|i: int| 0 <= i < parts.len() ==> !(#[trigger] parts[i]).contains('/'),
    ensures
        split_at_slashes(joined(parts)) == parts,
    decreases parts.len(),
{
    if parts.len() == 1 {
        assert(!parts[0].contains('/'));
        lemma_split_plain(Seq::empty(), parts[0], true);
        assert(Seq::<char>::empty() + parts[0] =~= parts[0]);
        assert(seq![parts[0]] =~= parts);
    } else {
        let before = parts.drop_last();
        assert forall|i: int| 0 <= i < before.len() implies !(#[trigger] before[i]).contains(
            '/',
        ) by {
            assert(before[i] == parts[i]);
        }
        law_join_is_undone_by_split(before);
        assert(!parts[parts.len() - 1].contains('/'));
        lemma_split_plain(joined(before), parts.last(), false);
        assert(before.push(parts.last()) =~= parts);
    }
}

/// A piece without a `/`, written after a `/` or on its own, is split off
/// whole.
proof fn lemma_split_plain(head: Seq<char>, piece: Seq<char>, alone: bool)
    requires
        !piece.contains('/'),
        alone ==> head.len() == 0,
    ensures
        alone ==> split_at_slashes(head + piece) == seq![piece],
        !alone ==> split_at_slashes(head.push('/') + piece) == split_at_slashes(head).push(piece),
    decreases piece.len(),
{
    let lead = if alone {
        head
    } else {
        head.push('/')
    };
    let whole = lead + piece;
    if piece.len() == 0 {
        assert(whole =~= lead);
        assert(piece =~= Seq::empty());
        if alone {
            assert(whole =~= piece);
        } else {
            assert(lead.drop_last() =~= head);
        }
    } else {
        let shorter = piece.drop_last();
        assert(!shorter.contains('/')) by {
            if shorter.contains('/') {
                let i = choose|i: int| 0 <= i < shorter.len() && shorter[i] == '/';
                assert(piece[i] == '/');
            }
        }
        lemma_split_plain(head, shorter, alone);
        assert(whole.drop_last() =~= lead + shorter);
        assert(whole.last() == piece[piece.len() - 1]);
        assert(piece[piece.len() - 1] != '/');
        assert(shorter.push(piece.last()) =~= piece);
        if alone {
            assert(split_at_slashes(whole) =~= seq![piece]);
        } else {
            assert(split_at_slashes(whole) =~= split_at_slashes(head).push(piece));
        }
    }
}

/// `parts` joined by `/`.
pub fn join(parts: &Vec<String>) -> (text: String)
    ensures
        text@ == joined(texts(parts@)),
{
    let mut text: String = String::new();
    let mut index: usize = 0;
    while index < parts.len()
        invariant
            index <= parts@.len(),
            text@ == joined(texts(parts@.take(index as int))),
        decreases parts@.len() - index,
    {
        let ghost so_far = texts(parts@.take(index as int));
        let ghost next = texts(parts@.take(index + 1));
        assert(next.drop_last() =~= so_far);
        if index > 0 {
            text.push('/');
        }
        text.append(parts[index].as_str());
        assert(text@ =~= joined(next));
        index += 1;
    }
    assert(parts@.take(index as int) =~= parts@);
    text
}

/// A principal as Kerberos writes one: components joined by `/`, then `@` and
/// the realm.
pub open spec fn at_realm(parts: Seq<Seq<char>>, realm: Seq<char>) -> Seq<char> {
    joined(parts).push('@') + realm
}

/// A name cut into components is written, at its realm, as the name itself.
pub proof fn law_components_are_written_as_the_name(name: Seq<char>, realm: Seq<char>)
    ensures
        at_realm(split_at_slashes(name), realm) == name + seq!['@'] + realm,
{
    law_split_is_undone_by_join(name);
    assert(at_realm(split_at_slashes(name), realm) =~= name + seq!['@'] + realm);
}

/// A principal as Kerberos writes one: `parts` joined by `/`, then `@` and the
/// realm.
pub fn written(parts: &Vec<String>, realm: &str) -> (principal: String)
    ensures
        principal@ == at_realm(texts(parts@), realm@),
{
    let mut principal: String = join(parts);
    principal.push('@');
    principal.append(realm);
    principal
}

/// `text` cut at every `/`.
pub fn split(text: &str) -> (parts: Vec<String>)
    ensures
        texts(parts@) == split_at_slashes(text@),
{
    let mut parts: Vec<String> = Vec::new();
    let mut piece: String = String::new();
    let ghost mut seen: Seq<char> = Seq::empty();
    assert(texts(parts@).push(piece@) =~= seq![seen]);
    for c in it: text.chars()
        invariant
            it.seq() == text@,
            seen == text@.take(it.index() as int),
            texts(parts@).push(piece@) == split_at_slashes(seen),
    {
        let ghost before = texts(parts@);
        proof {
            let longer = text@.take(it.index() + 1);
            assert(longer.drop_last() =~= seen);
            seen = longer;
        }
        if c == '/' {
            parts.push(piece);
            piece = String::new();
            assert(texts(parts@) =~= split_at_slashes(seen.drop_last()));
        } else {
            piece.push(c);
            let ghost cut = split_at_slashes(seen.drop_last());
            assert(cut.drop_last() =~= before);
        }
    }
    assert(seen =~= text@);
    parts.push(piece);
    assert(texts(parts@) =~= split_at_slashes(text@));
    parts
}

/// The decimal digit `n`.
pub open spec fn digit(n: int) -> char {
    (48 + n) as char
}

/// `n` in decimal.
pub open spec fn decimal(n: nat) -> Seq<char>
    decreases n,
{
    if n < 10 {
        seq![digit(n as int)]
    } else {
        decimal(n / 10).push(digit((n % 10) as int))
    }
}

/// `n` in decimal, with its sign where it is negative.
pub open spec fn signed(n: int) -> Seq<char> {
    if n < 0 {
        seq!['-'] + decimal((-n) as nat)
    } else {
        decimal(n as nat)
    }
}

/// Appends `n` in decimal.
pub fn push_decimal(text: &mut String, n: u64)
    ensures
        final(text)@ == old(text)@ + decimal(n as nat),
    decreases n,
{
    if n >= 10 {
        push_decimal(text, n / 10);
    }
    text.push((48u8 + (n % 10) as u8) as char);
    assert(text@ =~= old(text)@ + decimal(n as nat));
}

/// Appends `n` in decimal, with its sign where it is negative.
pub fn push_signed(text: &mut String, n: i64)
    ensures
        final(text)@ == old(text)@ + signed(n as int),
{
    if n < 0 {
        text.push('-');
        push_decimal(text, (-(n as i128)) as u64);
        assert(text@ =~= old(text)@ + signed(n as int));
    } else {
        push_decimal(text, n as u64);
    }
}

/// The lower-case hexadecimal digit `n`.
pub open spec fn hex_digit(n: int) -> char {
    if n < 10 {
        (48 + n) as char
    } else {
        (87 + n) as char
    }
}

/// `byte` as `0x` and two hexadecimal digits.
pub open spec fn hex(byte: u8) -> Seq<char> {
    seq!['0', 'x', hex_digit(byte as int / 16), hex_digit(byte as int % 16)]
}

fn hex_char(n: u8) -> (c: char)
    requires
        n < 16,
    ensures
        c == hex_digit(n as int),
{
    if n < 10 {
        (48u8 + n) as char
    } else {
        (87u8 + n) as char
    }
}

/// Appends `byte` as `0x` and two hexadecimal digits.
pub fn push_hex(text: &mut String, byte: u8)
    ensures
        final(text)@ == old(text)@ + hex(byte),
{
    text.push('0');
    text.push('x');
    text.push(hex_char(byte / 16));
    text.push(hex_char(byte % 16));
    assert(text@ =~= old(text)@ + hex(byte));
}

} // verus!
