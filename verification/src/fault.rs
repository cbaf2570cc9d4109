//! What a guest is told when something cannot be done.

use vstd::prelude::*;

verus! {

/// A refusal, as the sentence that reaches the guest.
#[derive(Debug)]
pub struct Fault {
    pub message: String,
}

impl View for Fault {
    type V = Seq<char>;

    open spec fn view(&self) -> Seq<char> {
        self.message@
    }
}

/// A refusal in fixed words.
pub(crate) fn refuse(message: &str) -> (r: Fault)
    ensures
        r@ == message@,
{
    Fault { message: message.to_owned() }
}

/// What is said of a handle whose instance is gone, whichever way it is used.
pub open spec fn dead_message() -> Seq<char> {
    "this instance has been destroyed"@
}

pub fn dead_instance() -> (r: Fault)
    ensures
        r@ == dead_message(),
{
    refuse("this instance has been destroyed")
}

} // verus!
