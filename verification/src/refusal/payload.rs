//! The refusal and the envelope that carries it.

use vstd::prelude::*;

use crate::record::builder::{text_of, SCHEMA_VERSION};
use crate::refusal::codes::RefusalCode;
use crate::text::joined;

verus! {

/// The outcome tag of every refusal envelope.
pub const REFUSAL_OUTCOME: &'static str = "REFUSAL";

/// The line put out when a refusal envelope could not be encoded.
pub const FALLBACK_ENVELOPE: &'static str =
    "{\"outcome\":\"REFUSAL\",\"refusal\":{\"code\":\"E_IO\",\"detail\":{\"error\":\"refusal_encoding_failure\"},\"message\":\"Filesystem error during scan\",\"next_command\":null},\"version\":\"vacuum.v0\"}";

/// What a refusal says beyond its code: the root it is about, and the
/// underlying error where there is one.
#[derive(Debug, PartialEq, Eq)]
pub struct RefusalDetail {
    pub root: Option<String>,
    pub error: Option<String>,
}

/// The reason a scan could not proceed at all.
#[derive(Debug)]
pub struct Refusal {
    pub code: RefusalCode,
    pub detail: RefusalDetail,
}

/// A refusal as contracts see it.
pub struct RefusalView {
    pub code: RefusalCode,
    pub root: Option<Seq<char>>,
    pub error: Option<Seq<char>>,
}

impl View for Refusal {
    type V = RefusalView;

    open spec fn view(&self) -> RefusalView {
        RefusalView {
            code: self.code,
            root: text_of(self.detail.root),
            error: text_of(self.detail.error),
        }
    }
}

/// The refusal given when no root was named: "root not found", about the
/// empty root.
pub open spec fn empty_roots_view() -> RefusalView {
    RefusalView { code: RefusalCode::RootNotFound, root: Some(Seq::<char>::empty()), error: None }
}

impl Clone for RefusalDetail {
    fn clone(&self) -> (out: Self)
        ensures
            text_of(out.root) == text_of(self.root),
            text_of(out.error) == text_of(self.error),
    {
        RefusalDetail {
            root: match &self.root {
                Some(root) => Some(root.clone()),
                None => None,
            },
            error: match &self.error {
                Some(error) => Some(error.clone()),
                None => None,
            },
        }
    }
}

impl Clone for Refusal {
    fn clone(&self) -> (out: Self)
        ensures
            out@ == self@,
    {
        Refusal { code: self.code, detail: self.detail.clone() }
    }
}

impl Refusal {
    /// A refusal with this code and detail.
    pub fn new(code: RefusalCode, detail: RefusalDetail) -> (refusal: Self)
        ensures
            refusal.code == code,
            refusal.detail == detail,
    {
        Refusal { code, detail }
    }
}

/// The refusal given when no root was named.
pub fn empty_roots_refusal() -> (refusal: Refusal)
    ensures
        refusal@ == empty_roots_view(),
{
    Refusal::new(RefusalCode::RootNotFound, RefusalDetail { root: Some(String::new()), error: None })
}

/// The terminal output that replaces the manifest when a scan is refused.
#[derive(Debug)]
pub struct RefusalEnvelope {
    pub version: &'static str,
    pub outcome: &'static str,
    pub code: &'static str,
    pub message: &'static str,
    pub detail: RefusalDetail,
    pub next_command: Option<String>,
}

/// The envelope that carries a refusal: the schema tag, the outcome
/// `REFUSAL`, the code and its message, the refusal's detail, and no next
/// command.
pub fn envelope(refusal: &Refusal) -> (out: RefusalEnvelope)
    ensures
        out.version@ == SCHEMA_VERSION@,
        out.outcome@ == REFUSAL_OUTCOME@,
        out.code@ == refusal.code.code_text(),
        out.message@ == refusal.code.message_text(),
        text_of(out.detail.root) == refusal@.root,
        text_of(out.detail.error) == refusal@.error,
        out.next_command is None,
{
    RefusalEnvelope {
        version: SCHEMA_VERSION,
        outcome: REFUSAL_OUTCOME,
        code: refusal.code.as_str(),
        message: refusal.code.message(),
        detail: refusal.detail.clone(),
        next_command: None,
    }
}

/// What to put out for a refusal.
#[derive(Debug, PartialEq, Eq)]
pub struct Emission {
    /// The one line for the manifest's stream.
    pub line: String,
    /// A complaint for the side channel, where encoding failed.
    pub complaint: Option<String>,
}

/// The complaint made when an envelope could not be encoded.
pub open spec fn complaint_text(error: Seq<char>) -> Seq<char> {
    "vacuum: failed to encode refusal envelope: "@ + error
}

/// Decides what is put out once the envelope went through the encoder: the
/// encoded line as it is, or, where encoding failed, the fixed fallback line
/// with a complaint that names the encoder's error.
pub fn emit(encoded: Result<String, String>) -> (out: Emission)
    ensures
        match encoded {
            Ok(line) => out.line@ == line@ && out.complaint is None,
            Err(error) => out.line@ == FALLBACK_ENVELOPE@ && text_of(out.complaint) == Some(
                complaint_text(error@),
            ),
        },
{
    match encoded {
        Ok(line) => Emission { line, complaint: None },
        Err(error) => Emission {
            line: FALLBACK_ENVELOPE.to_string(),
            complaint: Some(joined("vacuum: failed to encode refusal envelope: ", error.as_str())),
        },
    }
}

} // verus!
