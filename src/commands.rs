//! The host's commands that need no file or process work.
use vstd::prelude::*;
use crate::error::Error;
use crate::text::{chars_of, string_of, push_all};

verus! {

/// A greeting for `name`.
pub fn greet(name: &str) -> (r: String)
    ensures
        r@ == "Hello, "@ + name@ + "! You've been greeted from Rust!"@,
{
    let mut out = chars_of("Hello, ");
    push_all(&mut out, &chars_of(name));
    push_all(&mut out, &chars_of("! You've been greeted from Rust!"));
    string_of(&out)
}

/// The document the user picked, or `NoSelection` when the picker was dismissed.
pub fn select_document(picked: Option<String>) -> (r: Result<String, Error>)
    ensures
        match picked {
            Some(p) => r == Ok::<String, Error>(p),
            None => r == Err::<String, Error>(Error::NoSelection),
        },
{
    match picked {
        Some(p) => Ok(p),
        None => Err(Error::NoSelection),
    }
}

} // verus!
