//! A plain error with a message.
use vstd::prelude::*;

verus! {

#[derive(Debug)]
pub struct GeneralError {
    pub msg: String,
}

impl GeneralError {
    pub fn wrap(msg: String) -> (r: GeneralError)
        ensures
            r.msg@ == msg@,
    {
        GeneralError { msg }
    }

    pub fn wrap_box(msg: String) -> (r: Box<GeneralError>)
        ensures
            r.msg@ == msg@,
    {
        Box::new(Self::wrap(msg))
    }

    /// The message that the error shows.
    pub fn to_text(&self) -> (r: String)
        ensures
            r@ == self.msg@,
    {
        self.msg.clone()
    }
}

} // verus!
