//! The errors of a conversion.
use vstd::prelude::*;
use crate::text::has_prefix;

verus! {

#[verifier::external_type_specification]
#[verifier::external_body]
pub struct ExIoError(std::io::Error);

/// Why a conversion failed.
#[derive(Debug)]
pub enum MpeError {
    /// An input file does not exist.
    FileNotFound(String),
    /// No Chrome or Chromium browser was found.
    ChromeNotFound,
    /// The browser could not print the page.
    PdfGenerationFailed(String),
    /// Reading or writing a file failed.
    IoError(std::io::Error),
}

/// `std::io::Error`'s `to_string`, the text of an I/O error. Nothing is
/// stated of the text.
#[verifier::external_body]
fn io_error_text(e: &std::io::Error) -> String {
    e.to_string()
}

impl MpeError {
    /// The message shown to the user.
    pub fn message(&self) -> (r: String)
        ensures
            match self {
                MpeError::FileNotFound(path) => r@ == "File not found: "@ + path@,
                MpeError::ChromeNotFound => r@ == "Chrome not found. Please install Google Chrome"@,
                MpeError::PdfGenerationFailed(msg) => r@ == "PDF generation failed: "@ + msg@,
                MpeError::IoError(_) => has_prefix(r@, "IO error: "@),
            },
    {
        let mut out: Vec<char> = Vec::new();
        match self {
            MpeError::FileNotFound(path) => {
                crate::text::push_str(&mut out, "File not found: ");
                crate::text::push_str(&mut out, path.as_str());
            },
            MpeError::ChromeNotFound => {
                crate::text::push_str(&mut out, "Chrome not found. Please install Google Chrome");
            },
            MpeError::PdfGenerationFailed(msg) => {
                crate::text::push_str(&mut out, "PDF generation failed: ");
                crate::text::push_str(&mut out, msg.as_str());
            },
            MpeError::IoError(e) => {
                crate::text::push_str(&mut out, "IO error: ");
                let ghost head = out@;
                let t = io_error_text(e);
                crate::text::push_str(&mut out, t.as_str());
                proof {
                    reveal_strlit("IO error: ");
                    assert(out@.subrange(0, 10) =~= head);
                }
            },
        }
        crate::text::string_of(&out)
    }
}

impl From<std::io::Error> for MpeError {
    fn from(e: std::io::Error) -> (r: Self) {
        MpeError::IoError(e)
    }
}

impl vstd::std_specs::convert::FromSpecImpl<std::io::Error> for MpeError {
    open spec fn obeys_from_spec() -> bool {
        true
    }

    open spec fn from_spec(v: std::io::Error) -> Self {
        MpeError::IoError(v)
    }
}

} // verus!
