//! The codes of a refusal.

use vstd::prelude::*;

verus! {

/// The reason a scan was refused.
#[derive(Debug, Clone, Copy, PartialEq, Eq, Structural)]
pub enum RefusalCode {
    /// A root does not exist, or no root was given.
    RootNotFound,
    /// A root exists but may not be read.
    RootPermission,
    /// Any other filesystem failure on a root.
    Io,
}

impl RefusalCode {
    /// The code as it appears in a refusal envelope.
    pub open spec fn code_text(self) -> Seq<char> {
        match self {
            RefusalCode::RootNotFound => "E_ROOT_NOT_FOUND"@,
            RefusalCode::RootPermission => "E_ROOT_PERMISSION"@,
            RefusalCode::Io => "E_IO"@,
        }
    }

    /// The sentence that accompanies the code.
    pub open spec fn message_text(self) -> Seq<char> {
        match self {
            RefusalCode::RootNotFound => "Root path does not exist"@,
            RefusalCode::RootPermission => "Cannot read root directory"@,
            RefusalCode::Io => "Filesystem error during scan"@,
        }
    }

    /// The code as it appears in a refusal envelope.
    pub fn as_str(self) -> (text: &'static str)
        ensures
            text@ == self.code_text(),
    {
        match self {
            RefusalCode::RootNotFound => "E_ROOT_NOT_FOUND",
            RefusalCode::RootPermission => "E_ROOT_PERMISSION",
            RefusalCode::Io => "E_IO",
        }
    }

    /// The sentence that accompanies the code.
    pub fn message(self) -> (text: &'static str)
        ensures
            text@ == self.message_text(),
    {
        match self {
            RefusalCode::RootNotFound => "Root path does not exist",
            RefusalCode::RootPermission => "Cannot read root directory",
            RefusalCode::Io => "Filesystem error during scan",
        }
    }
}

/// No two refusal codes share their text.
pub proof fn lemma_code_text_injective(a: RefusalCode, b: RefusalCode)
    requires
        a.code_text() == b.code_text(),
    ensures
        a == b,
{
    reveal_strlit("E_ROOT_NOT_FOUND");
    reveal_strlit("E_ROOT_PERMISSION");
    reveal_strlit("E_IO");
    assert(a.code_text().len() == b.code_text().len());
    if a != b {
        assert("E_ROOT_NOT_FOUND"@.len() == 16);
        assert("E_ROOT_PERMISSION"@.len() == 17);
        assert("E_IO"@.len() == 4);
    }
}

} // verus!
