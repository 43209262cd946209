//! What identification passed on: a claim, and the proofs that came with it.
use vstd::prelude::*;

verus! {

/// A way of authenticating, by its name.
#[derive(Clone, Debug, PartialEq, Eq)]
pub struct Mechanism {
    name: String,
}

impl View for Mechanism {
    type V = Seq<char>;

    closed spec fn view(&self) -> Seq<char> {
        self.name@
    }
}

impl Mechanism {
    /// The mechanism of this name.
    #[must_use]
    pub fn new(name: &str) -> (mechanism: Self)
        ensures
            mechanism@ == name@,
    {
        Mechanism { name: name.to_owned() }
    }

    /// The mechanism this crate verifies.
    #[must_use]
    pub fn kerberos() -> (mechanism: Self)
        ensures
            mechanism@ == "kerberos"@,
    {
        Mechanism::new("kerberos")
    }

    /// Its name.
    #[must_use]
    pub fn name(&self) -> (name: &str)
        ensures
            name@ == self@,
    {
        self.name.as_str()
    }
}

/// One proof, under the name it is asked for by.
#[derive(Clone, Debug, PartialEq, Eq)]
pub struct Proof {
    name: String,
    content: String,
}

/// What a [`Proof`] says.
pub struct ProofView {
    pub name: Seq<char>,
    pub content: Seq<char>,
}

impl View for Proof {
    type V = ProofView;

    closed spec fn view(&self) -> ProofView {
        ProofView { name: self.name@, content: self.content@ }
    }
}

/// The first of `proofs` that goes by `name`.
pub open spec fn first_proof(proofs: Seq<ProofView>, name: Seq<char>) -> Option<Seq<char>>
    decreases proofs.len(),
{
    if proofs.len() == 0 {
        None
    } else if proofs[0].name == name {
        Some(proofs[0].content)
    } else {
        first_proof(proofs.drop_first(), name)
    }
}

/// A claim as a mechanism presents it, with its proofs.
#[derive(Clone, Debug, PartialEq, Eq)]
pub struct Presented {
    mechanism: Mechanism,
    value: String,
    proofs: Vec<Proof>,
}

/// What is [`Presented`].
pub struct PresentedView {
    pub mechanism: Seq<char>,
    pub value: Seq<char>,
    pub proofs: Seq<ProofView>,
}

impl View for Presented {
    type V = PresentedView;

    closed spec fn view(&self) -> PresentedView {
        PresentedView {
            mechanism: self.mechanism@,
            value: self.value@,
            proofs: Seq::new(self.proofs@.len(), |i: int| self.proofs@[i]@),
        }
    }
}

impl Presented {
    /// The claim `value`, passed on from `mechanism` without a proof.
    #[must_use]
    pub fn passed(mechanism: Mechanism, value: &str) -> (presented: Self)
        ensures
            presented@ == (PresentedView {
                mechanism: mechanism@,
                value: value@,
                proofs: Seq::empty(),
            }),
    {
        let presented = Presented { mechanism, value: value.to_owned(), proofs: Vec::new() };
        assert(presented@.proofs =~= Seq::empty());
        presented
    }

    /// The same claim, with one proof more.
    #[must_use]
    pub fn with_proof(self, name: &str, content: &str) -> (presented: Self)
        ensures
            presented@ == (PresentedView {
                mechanism: self@.mechanism,
                value: self@.value,
                proofs: self@.proofs.push(ProofView { name: name@, content: content@ }),
            }),
    {
        let mut proofs: Vec<Proof> = self.proofs;
        let proof_given = Proof { name: name.to_owned(), content: content.to_owned() };
        proofs.push(proof_given);
        let presented = Presented { mechanism: self.mechanism, value: self.value, proofs };
        assert(presented@.proofs =~= self@.proofs.push(proof_given@));
        presented
    }

    /// The mechanism it came by.
    #[must_use]
    pub fn mechanism(&self) -> (mechanism: &Mechanism)
        ensures
            mechanism@ == self@.mechanism,
    {
        &self.mechanism
    }

    /// The claim.
    #[must_use]
    pub fn value(&self) -> (value: &String)
        ensures
            value@ == self@.value,
    {
        &self.value
    }

    /// The proof under `name`, the first where there are several.
    #[must_use]
    pub fn proof_named(&self, name: &str) -> (content: Option<&str>)
        ensures
            crate::text::some_text(content) == first_proof(self@.proofs, name@),
    {
        let wanted: String = name.to_owned();
        let ghost all = self@.proofs;
        let mut index: usize = 0;
        assert(all.skip(0) =~= all);
        while index < self.proofs.len()
            invariant
                index <= self.proofs@.len(),
                all == self@.proofs,
                wanted@ == name@,
                first_proof(all, name@) == first_proof(all.skip(index as int), name@),
            decreases self.proofs@.len() - index,
        {
            assert(all.skip(index as int).drop_first() =~= all.skip(index + 1));
            assert(all[index as int] == self.proofs@[index as int]@);
            if self.proofs[index].name == wanted {
                return Some(self.proofs[index].content.as_str());
            }
            index += 1;
        }
        None
    }
}

/// What an authenticator answers when it does not refuse.
#[derive(Clone, Copy, Debug, PartialEq, Eq)]
pub enum Verified {
    /// The claim is proven.
    Proven,
}

} // verus!
