//! A minimal greeting store: one message, readable and replaceable.

use vstd::prelude::*;

verus! {

/// The greeting held before anyone stores their own.
pub const DEFAULT_MESSAGE: &'static str = "Hello";

/// A single stored greeting message.
pub struct Contract {
    message: String,
}

impl Contract {
    /// The stored greeting, as the contracts speak of it.
    pub closed spec fn spec_message(self) -> Seq<char> {
        self.message@
    }

    /// Read the stored greeting.
    pub fn get_greeting(&self) -> (r: String)
        ensures
            r@ == self.spec_message(),
    {
        self.message.clone()
    }

    /// Replace the stored greeting.
    pub fn set_greeting(&mut self, message: String)
        ensures
            final(self).spec_message() == message@,
    {
        self.message = message;
    }
}

impl Default for Contract {
    /// A contract holding the default greeting.
    fn default() -> (r: Contract)
        ensures
            r.spec_message() == DEFAULT_MESSAGE@,
    {
        Contract { message: DEFAULT_MESSAGE.to_owned() }
    }
}

} // verus!
