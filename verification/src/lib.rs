pub mod env;
pub mod interp;
pub mod laws;
pub mod prims;
pub mod printer;
pub mod reader;
pub mod text;
pub mod types;

use vstd::prelude::*;

verus! {

/// An error carrying a human-readable message.
pub struct MalError {
    msg: String,
}

impl View for MalError {
    type V = Seq<char>;

    closed spec fn view(&self) -> Seq<char> {
        self.msg@
    }
}

impl MalError {
    pub fn new(msg: &str) -> (e: MalError)
        ensures
            e@ == msg@,
    {
        MalError { msg: msg.to_owned() }
    }

    /// The error's message text.
    pub fn message(&self) -> (s: String)
        ensures
            s@ == self@,
    {
        self.msg.clone()
    }
}

impl Clone for MalError {
    fn clone(&self) -> (e: Self)
        ensures
            e@ == self@,
    {
        MalError { msg: self.msg.clone() }
    }
}

} // verus!
