//! The error a failed driver call reports: the driver's own message.
use vstd::prelude::*;

verus! {

/// An error reported by the packet driver, with the driver's message.
#[derive(Debug)]
pub struct DPDKError {
    message: String,
}

impl View for DPDKError {
    type V = Seq<char>;

    closed spec fn view(&self) -> Seq<char> {
        self.message@
    }
}

impl DPDKError {
    /// An error with the message the driver gave for its error code.
    pub fn new(message: String) -> (r: DPDKError)
        ensures
            r@ == message@,
    {
        DPDKError { message }
    }

    /// The driver's message.
    pub fn message(&self) -> (r: &str)
        ensures
            r@ == self@,
    {
        self.message.as_str()
    }

    /// The text shown to a user: `DPDKError: ` and the message.
    pub fn to_string(&self) -> (r: String)
        ensures
            r@ == "DPDKError: "@ + self@,
    {
        let mut s = String::from_str("DPDKError: ");
        s.append(self.message.as_str());
        s
    }
}

} // verus!
