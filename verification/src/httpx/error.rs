//! A failure of the HTTP layer.
use vstd::prelude::*;
use crate::text::owned;

verus! {

#[derive(Debug, PartialEq, Eq)]
pub struct Error {
    pub msg: String,
}

impl Clone for Error {
    fn clone(&self) -> (r: Error)
        ensures
            r == *self,
    {
        Error { msg: self.msg.clone() }
    }
}

impl Error {
    pub fn new_message_error(msg: &str) -> (r: Error)
        ensures
            r.msg@ == msg@,
    {
        Error { msg: owned(msg) }
    }
}

} // verus!
