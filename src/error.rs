//! Why a run stopped.
use vstd::prelude::*;
use crate::text::{chars_of, string_of, push_all, push_decimal, decimal};

verus! {

/// Every failure ends the run it occurs in; nothing is retried.
#[derive(Debug, PartialEq, Eq)]
pub enum Error {
    /// The user declined to pick a document.
    NoSelection,
    /// The document path has no file name to derive a cache directory from.
    InvalidPath,
    /// The document could not be parsed as a PDF.
    DocumentLoad,
    /// Reading the document, or creating, listing, removing or reading cache files, failed.
    Io { message: String },
    /// The rasterizer ended with a non-success status.
    ExternalTool { code: i32, stderr: String },
}

/// The decimal numeral of an integer, with a leading `-` when it is negative.
pub open spec fn signed_numeral(n: int) -> Seq<char> {
    if n < 0 {
        seq!['-'] + decimal((-n) as nat)
    } else {
        decimal(n as nat)
    }
}

/// The text shown to the user for an error; the rasterizer's error text is
/// passed on verbatim.
pub open spec fn error_text(e: Error) -> Seq<char> {
    match e {
        Error::NoSelection => "No document selected"@,
        Error::InvalidPath => "The document path has no file name"@,
        Error::DocumentLoad => "Failed to load PDF document"@,
        Error::Io { message } => message@,
        Error::ExternalTool { code, stderr } => "Magick command failed with exit code "@
            + signed_numeral(code as int) + ", stderr: "@ + stderr@,
    }
}

impl Error {
    /// The text shown to the user for this error.
    pub fn message(&self) -> (r: String)
        ensures
            r@ == error_text(*self),
    {
        match self {
            Error::NoSelection => "No document selected".to_owned(),
            Error::InvalidPath => "The document path has no file name".to_owned(),
            Error::DocumentLoad => "Failed to load PDF document".to_owned(),
            Error::Io { message } => message.clone(),
            Error::ExternalTool { code, stderr } => {
                let mut out = chars_of("Magick command failed with exit code ");
                let start = Ghost(out@);
                if *code < 0 {
                    out.push('-');
                    let magnitude: i64 = -(*code as i64);
                    push_decimal(&mut out, magnitude as usize);
                    assert(out@ == start@ + signed_numeral(*code as int));
                } else {
                    push_decimal(&mut out, *code as usize);
                }
                push_all(&mut out, &chars_of(", stderr: "));
                push_all(&mut out, &chars_of(stderr.as_str()));
                string_of(&out)
            },
        }
    }
}

} // verus!
