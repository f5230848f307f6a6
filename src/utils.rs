use vstd::prelude::*;

verus! {

/// The error of a bounded search that ran out of attempts.
#[derive(Debug, Clone)]
pub struct NotFoundError {
    message: String,
}

impl View for NotFoundError {
    type V = Seq<char>;

    closed spec fn view(&self) -> Seq<char> {
        self.message@
    }
}

impl NotFoundError {
    pub fn new(message: &str) -> (r: NotFoundError)
        ensures
            r@ == message@,
    {
        NotFoundError { message: message.to_owned() }
    }

    pub fn message(&self) -> (r: &str)
        ensures
            r@ == self@,
    {
        self.message.as_str()
    }
}

} // verus!
