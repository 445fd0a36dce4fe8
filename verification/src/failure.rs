//! Failures as one line of words.
use vstd::prelude::*;

verus! {

/// Why an operation was refused.
#[derive(Debug, Clone)]
pub struct Failure {
    pub message: String,
}

impl View for Failure {
    type V = Seq<char>;

    open spec fn view(&self) -> Seq<char> {
        self.message@
    }
}

/// The words of a failed check, or nothing where it passed.
pub open spec fn fault_of(r: Result<(), Failure>) -> Option<Seq<char>> {
    match r {
        Ok(_) => None,
        Err(e) => Some(e@),
    }
}

/// A failure with the given words.
pub fn failure(message: &str) -> (r: Failure)
    ensures
        r@ == message@,
{
    Failure { message: message.to_owned() }
}

} // verus!
