//! A clipboard for platforms that have none within a terminal's reach: it opens,
//! and then refuses every request.

use vstd::prelude::*;

verus! {

/// Clipboard access is unavailable on this platform.
#[derive(Clone, Copy, Debug, PartialEq, Eq, Structural)]
pub struct Error;

impl Error {
    /// What to tell the user.
    pub fn message(&self) -> (text: String)
        ensures
            text@ == "clipboard is not available on Android/Termux"@,
    {
        "clipboard is not available on Android/Termux".to_owned()
    }
}

/// A clipboard that holds nothing.
#[derive(Debug)]
pub struct Clipboard;

impl Clipboard {
    /// Opening always succeeds, so that callers fail where they copy or paste.
    pub fn new() -> (opened: Result<Clipboard, Error>)
        ensures
            opened == Ok::<Clipboard, Error>(Clipboard),
    {
        Ok(Clipboard)
    }

    /// Refuses the text, whatever it is.
    pub fn set_text(&mut self, _text: &str) -> (done: Result<(), Error>)
        ensures
            done == Err::<(), Error>(Error),
            *final(self) == *old(self),
    {
        Err(Error)
    }

    /// Has no text to give.
    pub fn get_text(&mut self) -> (text: Result<String, Error>)
        ensures
            text == Err::<String, Error>(Error),
            *final(self) == *old(self),
    {
        Err(Error)
    }
}

} // verus!
