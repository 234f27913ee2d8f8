use vstd::prelude::*;

verus! {

/// An error carrying an HTTP-like status code and a human-readable message.
#[derive(Debug)]
pub struct Error {
    pub status: u16,
    pub message: String,
}

impl Error {
    /// Builds an error from a status and a message.
    pub fn new(status: u16, message: &str) -> (e: Error)
        ensures
            e.status == status,
            e.message@ == message@,
    {
        Error { status, message: message.to_owned() }
    }
}

/// The status and message of the error that a blank required field gives.
pub open spec fn missing(text: Seq<char>, key: Seq<char>) -> Option<(u16, Seq<char>)> {
    if crate::text::blank(text) {
        Some((400u16, key + " is required"@))
    } else {
        None
    }
}

/// Rejects a required text field that is empty after trimming.
pub fn required(text: &str, key: &str) -> (r: Result<(), Error>)
    ensures
        match missing(text@, key@) {
            Some((status, message)) => r matches Err(e) && e.status == status && e.message@ == message,
            None => r is Ok,
        },
{
    if crate::text::is_blank(text) {
        let message = crate::text::cat(key, " is required");
        return Err(Error { status: 400, message });
    }
    Ok(())
}

} // verus!
