//! The errors that the library's own checks report.
use vstd::prelude::*;
use crate::pdf_model::ObjectRef;
use crate::text::{decimal, owned, push_decimal, push_str};

verus! {

/// Why an operation on a document was refused.
#[derive(Debug)]
pub enum PdfDebuggerError {
    ObjectNotFound { reference: ObjectRef },
    StreamNotFound { reference: ObjectRef },
    Parse { offset: usize, message: String },
    FileTooLarge { size: u64, limit: u64 },
    StreamDecode { reference: ObjectRef, message: String },
    LazyOpen { message: String },
    MissingOutputPath,
    ConflictingOutputModes { message: String },
}

/// An error with its texts as character sequences.
pub enum ErrorV {
    ObjectNotFound(ObjectRef),
    StreamNotFound(ObjectRef),
    Parse(usize, Seq<char>),
    FileTooLarge(u64, u64),
    StreamDecode(ObjectRef, Seq<char>),
    LazyOpen(Seq<char>),
    MissingOutputPath,
    ConflictingOutputModes(Seq<char>),
}

impl View for PdfDebuggerError {
    type V = ErrorV;

    open spec fn view(&self) -> ErrorV {
        match self {
            PdfDebuggerError::ObjectNotFound { reference } => ErrorV::ObjectNotFound(*reference),
            PdfDebuggerError::StreamNotFound { reference } => ErrorV::StreamNotFound(*reference),
            PdfDebuggerError::Parse { offset, message } => ErrorV::Parse(*offset, message@),
            PdfDebuggerError::FileTooLarge { size, limit } => ErrorV::FileTooLarge(*size, *limit),
            PdfDebuggerError::StreamDecode { reference, message } => ErrorV::StreamDecode(*reference, message@),
            PdfDebuggerError::LazyOpen { message } => ErrorV::LazyOpen(message@),
            PdfDebuggerError::MissingOutputPath => ErrorV::MissingOutputPath,
            PdfDebuggerError::ConflictingOutputModes { message } => ErrorV::ConflictingOutputModes(message@),
        }
    }
}

/// The text that describes an error.
pub open spec fn error_message(e: ErrorV) -> Seq<char> {
    match e {
        ErrorV::ObjectNotFound(r) => "object "@ + r.spec_text() + " was not found"@,
        ErrorV::StreamNotFound(r) => "object "@ + r.spec_text() + " is not a stream"@,
        ErrorV::Parse(offset, m) => "failed to parse PDF at byte offset "@ + decimal(offset as nat) + ": "@ + m,
        ErrorV::FileTooLarge(size, limit) => "PDF is too large for the current MVP full-file parser: "@
            + decimal(size as nat) + " bytes selected, safe limit is "@ + decimal(limit as nat)
            + " bytes. This file was not parsed; future large-PDF support needs streaming or lazy parsing."@,
        ErrorV::StreamDecode(r, m) => "stream decode failed for "@ + r.spec_text() + ": "@ + m,
        ErrorV::LazyOpen(m) => "lazy PDF open failed: "@ + m,
        ErrorV::MissingOutputPath => "no output path was provided"@,
        ErrorV::ConflictingOutputModes(m) => "conflicting output modes: "@ + m,
    }
}

fn decimal_u64(n: u64) -> (s: String)
    ensures
        s@ == decimal(n as nat),
    decreases n,
{
    if n < 10 {
        let mut s = String::new();
        crate::text::push_char(&mut s, ((n as u8) + 48) as char);
        s
    } else {
        let mut s = decimal_u64(n / 10);
        crate::text::push_char(&mut s, (((n % 10) as u8) + 48) as char);
        s
    }
}

fn ref_text(a: &str, r: ObjectRef, b: &str) -> (s: String)
    ensures
        s@ == a@ + r.spec_text() + b@,
{
    let mut s = owned(a);
    let t = r.to_text();
    push_str(&mut s, t.as_str());
    push_str(&mut s, b);
    s
}

impl PdfDebuggerError {
    /// The text that describes the error.
    pub fn message(&self) -> (s: String)
        ensures
            s@ == error_message(self@),
    {
        match self {
            PdfDebuggerError::ObjectNotFound { reference } => ref_text("object ", *reference, " was not found"),
            PdfDebuggerError::StreamNotFound { reference } => ref_text("object ", *reference, " is not a stream"),
            PdfDebuggerError::Parse { offset, message } => {
                let mut s = owned("failed to parse PDF at byte offset ");
                push_decimal(&mut s, *offset);
                push_str(&mut s, ": ");
                push_str(&mut s, message.as_str());
                s
            },
            PdfDebuggerError::FileTooLarge { size, limit } => {
                let mut s = owned("PDF is too large for the current MVP full-file parser: ");
                let a = decimal_u64(*size);
                push_str(&mut s, a.as_str());
                push_str(&mut s, " bytes selected, safe limit is ");
                let b = decimal_u64(*limit);
                push_str(&mut s, b.as_str());
                push_str(&mut s, " bytes. This file was not parsed; future large-PDF support needs streaming or lazy parsing.");
                s
            },
            PdfDebuggerError::StreamDecode { reference, message } => {
                let mut s = ref_text("stream decode failed for ", *reference, ": ");
                push_str(&mut s, message.as_str());
                s
            },
            PdfDebuggerError::LazyOpen { message } => {
                let mut s = owned("lazy PDF open failed: ");
                push_str(&mut s, message.as_str());
                s
            },
            PdfDebuggerError::MissingOutputPath => owned("no output path was provided"),
            PdfDebuggerError::ConflictingOutputModes { message } => {
                let mut s = owned("conflicting output modes: ");
                push_str(&mut s, message.as_str());
                s
            },
        }
    }
}

} // verus!
