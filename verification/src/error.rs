//! Why a presented ticket is refused.
use vstd::prelude::*;

verus! {

/// A refusal, in words.
#[derive(Clone, Debug, PartialEq, Eq)]
pub struct AuthenticateError {
    /// What was wrong.
    pub message: String,
}

impl View for AuthenticateError {
    type V = Seq<char>;

    open spec fn view(&self) -> Seq<char> {
        self.message@
    }
}

impl AuthenticateError {
    /// A refusal saying `message`.
    pub fn new(message: &str) -> (error: Self)
        ensures
            error@ == message@,
    {
        AuthenticateError { message: message.to_owned() }
    }
}

} // verus!
