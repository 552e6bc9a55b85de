use vstd::prelude::*;

verus! {

/// Error of a SQL command: the message names the kind of failure
/// (`INVALID_SYNTAX`, `INVALID_TABLE`, `INVALID_ORDER`, `INVALID_ORDER_FORMAT`, ...).
#[derive(Debug)]
pub struct SQLError {
    pub message: String,
}

impl SQLError {
    /// Creates a new SQLError with the given message.
    pub fn new(message: &str) -> (e: SQLError)
        ensures
            e.message@ == message@,
    {
        SQLError { message: message.to_string() }
    }

    /// The text of the error, as it is shown to the user.
    pub fn mensaje(&self) -> (r: String)
        ensures
            r@ == self.message@,
    {
        self.message.clone()
    }
}

} // verus!
