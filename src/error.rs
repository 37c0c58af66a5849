use vstd::prelude::*;

verus! {

/// An error that is only a message.
#[derive(Debug)]
pub struct SimpleStringError {
    description: String,
}

impl SimpleStringError {
    pub closed spec fn spec_description(&self) -> Seq<char> {
        self.description@
    }

    /// An error with the message `description`.
    pub fn new(description: String) -> (r: Self)
        ensures
            r.spec_description() == description@,
    {
        SimpleStringError { description }
    }

    /// The message.
    pub fn description(&self) -> (r: &String)
        ensures
            r@ == self.spec_description(),
    {
        &self.description
    }
}

} // verus!
