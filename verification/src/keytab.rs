//! The service keys the node holds.
use crate::crypto;
use crate::error::AuthenticateError;
use vstd::prelude::*;

verus! {

/// One service key the node holds: the base key for a service principal at a
/// key version.
#[derive(Clone)]
pub struct KeyEntry {
    principal: String,
    version: Option<u32>,
    base_key: Vec<u8>,
}

/// What a [`KeyEntry`] says.
pub struct KeyEntryView {
    pub principal: Seq<char>,
    pub version: Option<u32>,
    pub base_key: Seq<u8>,
}

impl View for KeyEntry {
    type V = KeyEntryView;

    closed spec fn view(&self) -> KeyEntryView {
        KeyEntryView {
            principal: self.principal@,
            version: self.version,
            base_key: self.base_key@,
        }
    }
}

impl KeyEntryView {
    /// The key is that of `principal`, at the version asked for or at any.
    pub open spec fn opens(self, principal: Seq<char>, version: Option<u32>) -> bool {
        self.principal == principal && (self.version is None || self.version == version)
    }
}

impl KeyEntry {
    /// A key for `principal` (`HTTP/xmip.example@EXAMPLE.COM`) at `version`,
    /// as thirty-two raw bytes.
    #[must_use]
    pub fn new(principal: &str, version: Option<u32>, base_key: Vec<u8>) -> (entry: Self)
        ensures
            entry@ == (KeyEntryView { principal: principal@, version, base_key: base_key@ }),
    {
        KeyEntry { principal: principal.to_owned(), version, base_key }
    }

    /// A key derived from the service's password and salt (RFC 3962), the
    /// way a KDC derives it, for a keytab built from a password.
    ///
    /// # Errors
    ///
    /// Where the derivation cannot produce a key, which it always can.
    pub fn from_password(
        principal: &str,
        version: Option<u32>,
        password: &[u8],
        salt: &[u8],
        iterations: u32,
    ) -> (entry: Result<Self, AuthenticateError>)
        ensures
            entry matches Ok(entry) && entry@ == (KeyEntryView {
                principal: principal@,
                version,
                base_key: crypto::password_key(password@, salt@, iterations),
            }) && entry@.base_key == crypto::derived(
                crypto::pbkdf2_hmac_sha1(password@, salt@, iterations, 32),
                seq![0x6bu8, 0x65, 0x72, 0x62, 0x65, 0x72, 0x6f, 0x73],
            ),
    {
        match crypto::string_to_key(password, salt, iterations) {
            Ok(base_key) => Ok(KeyEntry::new(principal, version, base_key)),
            Err(error) => Err(error),
        }
    }

    /// The key is that of `principal`, at the version asked for or at any.
    #[must_use]
    pub fn opens(&self, principal: &String, version: Option<u32>) -> (yes: bool)
        ensures
            yes == self@.opens(principal@, version),
            yes <==> self@.principal == principal@ && (self@.version is None || self@.version
                == version),
    {
        self.principal == *principal && (self.version.is_none() || self.version == version)
    }

    /// The base key.
    #[must_use]
    pub fn base_key(&self) -> (key: &[u8])
        ensures
            key@ == self@.base_key,
    {
        self.base_key.as_slice()
    }
}

/// The views of some entries.
pub open spec fn entries(keytab: Seq<KeyEntry>) -> Seq<KeyEntryView> {
    Seq::new(keytab.len(), |i: int| keytab[i]@)
}

/// The first entry of `keytab` that opens what is sealed for `principal` at
/// `version`.
pub open spec fn first_opening(
    keytab: Seq<KeyEntryView>,
    principal: Seq<char>,
    version: Option<u32>,
) -> Option<KeyEntryView>
    decreases keytab.len(),
{
    if keytab.len() == 0 {
        None
    } else if keytab[0].opens(principal, version) {
        Some(keytab[0])
    } else {
        first_opening(keytab.drop_first(), principal, version)
    }
}

/// The entry found is one of the keytab's, it opens what it was asked for, and
/// no entry before it does; none is found where none opens it.
pub proof fn law_the_first_key_that_opens_is_found(
    keytab: Seq<KeyEntryView>,
    principal: Seq<char>,
    version: Option<u32>,
)
    ensures
        match first_opening(keytab, principal, version) {
            Some(entry) => exists|i: int|
                0 <= i < keytab.len() && entry == #[trigger] keytab[i] && entry.opens(
                    principal,
                    version,
                ) && forall|j: int|
                    0 <= j < i ==> !(#[trigger] keytab[j]).opens(principal, version),
            None => forall|i: int|
                0 <= i < keytab.len() ==> !(#[trigger] keytab[i]).opens(principal, version),
        },
    decreases keytab.len(),
{
    if keytab.len() > 0 && !keytab[0].opens(principal, version) {
        let rest = keytab.drop_first();
        law_the_first_key_that_opens_is_found(rest, principal, version);
        match first_opening(rest, principal, version) {
            Some(entry) => {
                let i = choose|i: int|
                    0 <= i < rest.len() && entry == #[trigger] rest[i] && entry.opens(
                        principal,
                        version,
                    ) && forall|j: int|
                        0 <= j < i ==> !(#[trigger] rest[j]).opens(principal, version);
                assert(keytab[i + 1] == rest[i]);
                assert forall|j: int| 0 <= j < i + 1 implies !(#[trigger] keytab[j]).opens(
                    principal,
                    version,
                ) by {
                    if j > 0 {
                        assert(keytab[j] == rest[j - 1]);
                    }
                }
            },
            None => {
                assert forall|i: int| 0 <= i < keytab.len() implies !(#[trigger] keytab[i]).opens(
                    principal,
                    version,
                ) by {
                    if i > 0 {
                        assert(keytab[i] == rest[i - 1]);
                    }
                }
            },
        }
    }
}

/// The first entry of `keytab` that opens what is sealed for `principal` at
/// `version`.
pub fn find<'a>(keytab: &'a Vec<KeyEntry>, principal: &String, version: Option<u32>) -> (entry:
    Option<&'a KeyEntry>)
    ensures
        match entry {
            Some(entry) => first_opening(entries(keytab@), principal@, version) == Some(entry@),
            None => first_opening(entries(keytab@), principal@, version) is None,
        },
        entry matches Some(entry) ==> entry@.principal == principal@ && (entry@.version is None
            || entry@.version == version),
        entry is None ==> forall|i: int|
            0 <= i < keytab@.len() ==> (#[trigger] keytab@[i])@.principal != principal@
                || keytab@[i]@.version is Some && keytab@[i]@.version != version,
{
    let ghost all = entries(keytab@);
    let mut index: usize = 0;
    assert(all.skip(0) =~= all);
    while index < keytab.len()
        invariant
            index <= keytab@.len(),
            all == entries(keytab@),
            first_opening(all, principal@, version) == first_opening(
                all.skip(index as int),
                principal@,
                version,
            ),
            forall|i: int|
                0 <= i < index ==> (#[trigger] keytab@[i])@.principal != principal@
                    || keytab@[i]@.version is Some && keytab@[i]@.version != version,
        decreases keytab@.len() - index,
    {
        assert(all.skip(index as int).drop_first() =~= all.skip(index + 1));
        if keytab[index].opens(principal, version) {
            return Some(&keytab[index]);
        }
        index += 1;
    }
    None
}

} // verus!
