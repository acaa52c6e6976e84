//! The manifest record, its warnings, and how contracts see them.

use vstd::prelude::*;

use crate::text::text_lt;

verus! {

/// The schema tag carried by every record and refusal.
pub const SCHEMA_VERSION: &'static str = "vacuum.v0";

/// The name under which this tool reports itself.
pub const TOOL_NAME: &'static str = "vacuum";

/// The version this tool reports of itself.
pub const TOOL_VERSION: &'static str = "0.1.0";

/// What went wrong underneath a warning.
#[derive(Debug, PartialEq, Eq)]
pub struct WarningDetail {
    pub error: String,
}

/// Why the metadata of an entry could not be resolved.
#[derive(Debug, PartialEq, Eq)]
pub struct Warning {
    pub tool: String,
    pub code: String,
    pub message: String,
    pub detail: WarningDetail,
}

/// One entry of a record's tool-to-version mapping.
#[derive(Debug, PartialEq, Eq)]
pub struct ToolVersion {
    pub tool: String,
    pub version: String,
}

/// One discovered filesystem entry.
#[derive(Debug, PartialEq, Eq)]
pub struct VacuumRecord {
    pub version: &'static str,
    pub path: String,
    pub relative_path: String,
    pub root: String,
    pub size: Option<u64>,
    pub mtime: Option<String>,
    pub extension: Option<String>,
    pub mime_guess: Option<String>,
    pub _skipped: Option<bool>,
    pub _warnings: Option<Vec<Warning>>,
    /// Kept in ascending byte-wise order of the tool names, each name once.
    pub tool_versions: Vec<ToolVersion>,
}

/// A warning as contracts see it.
pub struct WarningView {
    pub tool: Seq<char>,
    pub code: Seq<char>,
    pub message: Seq<char>,
    pub error: Seq<char>,
}

/// A record as contracts see it: every string as its text, the version
/// mapping as its pairs in order.
pub struct RecordView {
    pub version: Seq<char>,
    pub path: Seq<char>,
    pub relative_path: Seq<char>,
    pub root: Seq<char>,
    pub size: Option<u64>,
    pub mtime: Option<Seq<char>>,
    pub extension: Option<Seq<char>>,
    pub mime_guess: Option<Seq<char>>,
    pub skipped: Option<bool>,
    pub warnings: Option<Seq<WarningView>>,
    pub tool_versions: Seq<(Seq<char>, Seq<char>)>,
}

/// The text of an optional string.
pub open spec fn text_of(value: Option<String>) -> Option<Seq<char>> {
    match value {
        Some(text) => Some(text@),
        None => None,
    }
}

/// The text of an optional string slice.
pub open spec fn text_of_str(value: Option<&str>) -> Option<Seq<char>> {
    match value {
        Some(text) => Some(text@),
        None => None,
    }
}

/// The views of a sequence of warnings, in order.
pub open spec fn warning_views(warnings: Seq<Warning>) -> Seq<WarningView> {
    warnings.map_values(|warning: Warning| warning@)
}

/// The views of a sequence of version entries, in order.
pub open spec fn version_views(versions: Seq<ToolVersion>) -> Seq<(Seq<char>, Seq<char>)> {
    versions.map_values(|entry: ToolVersion| entry@)
}

/// The views of a sequence of records, in order.
pub open spec fn record_views(records: Seq<VacuumRecord>) -> Seq<RecordView> {
    records.map_values(|record: VacuumRecord| record@)
}

/// The tool names of a version mapping ascend strictly, and this tool is
/// among them.
pub open spec fn versions_ordered(versions: Seq<(Seq<char>, Seq<char>)>) -> bool {
    &&& forall|i: int, j: int|
        0 <= i < j < versions.len() ==> text_lt(
            (#[trigger] versions[i]).0,
            (#[trigger] versions[j]).0,
        )
    &&& exists|i: int| 0 <= i < versions.len() && (#[trigger] versions[i]).0 == TOOL_NAME@
}

/// The mapping every record starts from: this tool and its version.
pub open spec fn own_versions() -> Seq<(Seq<char>, Seq<char>)> {
    seq![(TOOL_NAME@, TOOL_VERSION@)]
}

impl View for Warning {
    type V = WarningView;

    open spec fn view(&self) -> WarningView {
        WarningView {
            tool: self.tool@,
            code: self.code@,
            message: self.message@,
            error: self.detail.error@,
        }
    }
}

impl View for ToolVersion {
    type V = (Seq<char>, Seq<char>);

    open spec fn view(&self) -> (Seq<char>, Seq<char>) {
        (self.tool@, self.version@)
    }
}

impl View for VacuumRecord {
    type V = RecordView;

    open spec fn view(&self) -> RecordView {
        RecordView {
            version: self.version@,
            path: self.path@,
            relative_path: self.relative_path@,
            root: self.root@,
            size: self.size,
            mtime: text_of(self.mtime),
            extension: text_of(self.extension),
            mime_guess: text_of(self.mime_guess),
            skipped: self._skipped,
            warnings: match self._warnings {
                Some(warnings) => Some(warning_views(warnings@)),
                None => None,
            },
            tool_versions: version_views(self.tool_versions@),
        }
    }
}

impl RecordView {
    /// The entry's metadata could not be resolved.
    pub open spec fn is_skipped(self) -> bool {
        self.skipped == Some(true)
    }

    /// A skipped record carries neither size nor modification time, and says
    /// why in at least one warning.
    pub open spec fn skip_invariant(self) -> bool {
        self.is_skipped() ==> {
            &&& self.size is None
            &&& self.mtime is None
            &&& self.warnings matches Some(warnings) && warnings.len() > 0
        }
    }

    /// What holds of every record this crate builds: the schema tag is the
    /// fixed one, the skip marker is absent or true, warnings are present
    /// exactly on skipped records, and the skip invariant and the order of
    /// the version mapping hold.
    pub open spec fn well_formed(self) -> bool {
        &&& self.version == SCHEMA_VERSION@
        &&& self.skipped != Some(false)
        &&& self.is_skipped() <==> self.warnings is Some
        &&& self.skip_invariant()
        &&& versions_ordered(self.tool_versions)
    }
}

impl Clone for WarningDetail {
    fn clone(&self) -> (out: Self)
        ensures
            out.error@ == self.error@,
    {
        WarningDetail { error: self.error.clone() }
    }
}

impl Clone for Warning {
    fn clone(&self) -> (out: Self)
        ensures
            out@ == self@,
    {
        Warning {
            tool: self.tool.clone(),
            code: self.code.clone(),
            message: self.message.clone(),
            detail: self.detail.clone(),
        }
    }
}

impl Clone for ToolVersion {
    fn clone(&self) -> (out: Self)
        ensures
            out@ == self@,
    {
        ToolVersion { tool: self.tool.clone(), version: self.version.clone() }
    }
}

/// A copy of an optional string.
pub(crate) fn clone_text(value: &Option<String>) -> (out: Option<String>)
    ensures
        text_of(out) == text_of(*value),
{
    match value {
        Some(text) => Some(text.clone()),
        None => None,
    }
}

/// A copy of a list of warnings.
fn clone_warnings(warnings: &Vec<Warning>) -> (out: Vec<Warning>)
    ensures
        warning_views(out@) == warning_views(warnings@),
{
    let mut out: Vec<Warning> = Vec::new();
    let mut i: usize = 0;
    while i < warnings.len()
        invariant
            i <= warnings.len(),
            out.len() == i,
            forall|k: int| 0 <= k < i ==> out[k]@ == warnings[k]@,
        decreases warnings.len() - i,
    {
        out.push(warnings[i].clone());
        i += 1;
    }
    assert(warning_views(out@) =~= warning_views(warnings@));
    out
}

/// A copy of a version mapping.
fn clone_versions(versions: &Vec<ToolVersion>) -> (out: Vec<ToolVersion>)
    ensures
        version_views(out@) == version_views(versions@),
{
    let mut out: Vec<ToolVersion> = Vec::new();
    let mut i: usize = 0;
    while i < versions.len()
        invariant
            i <= versions.len(),
            out.len() == i,
            forall|k: int| 0 <= k < i ==> out[k]@ == versions[k]@,
        decreases versions.len() - i,
    {
        out.push(versions[i].clone());
        i += 1;
    }
    assert(version_views(out@) =~= version_views(versions@));
    out
}

impl Clone for VacuumRecord {
    fn clone(&self) -> (out: Self)
        ensures
            out@ == self@,
    {
        VacuumRecord {
            version: self.version,
            path: self.path.clone(),
            relative_path: self.relative_path.clone(),
            root: self.root.clone(),
            size: self.size,
            mtime: clone_text(&self.mtime),
            extension: clone_text(&self.extension),
            mime_guess: clone_text(&self.mime_guess),
            _skipped: self._skipped,
            _warnings: match &self._warnings {
                Some(warnings) => Some(clone_warnings(warnings)),
                None => None,
            },
            tool_versions: clone_versions(&self.tool_versions),
        }
    }
}

impl VacuumRecord {
    /// The record that names no entry yet: the schema tag and this tool's own
    /// version are set, every path is empty, everything else is absent.
    pub open spec fn empty_view() -> RecordView {
        RecordView {
            version: SCHEMA_VERSION@,
            path: Seq::<char>::empty(),
            relative_path: Seq::<char>::empty(),
            root: Seq::<char>::empty(),
            size: None,
            mtime: None,
            extension: None,
            mime_guess: None,
            skipped: None,
            warnings: None,
            tool_versions: own_versions(),
        }
    }

    /// A record that names no entry yet, to be filled in.
    pub fn empty() -> (record: Self)
        ensures
            record@ == Self::empty_view(),
            record@.well_formed(),
    {
        let mut tool_versions: Vec<ToolVersion> = Vec::new();
        tool_versions.push(
            ToolVersion { tool: TOOL_NAME.to_string(), version: TOOL_VERSION.to_string() },
        );
        let record = VacuumRecord {
            version: SCHEMA_VERSION,
            path: String::new(),
            relative_path: String::new(),
            root: String::new(),
            size: None,
            mtime: None,
            extension: None,
            mime_guess: None,
            _skipped: None,
            _warnings: None,
            tool_versions,
        };
        proof {
            assert(record@.tool_versions =~= own_versions());
            assert(record@.tool_versions[0].0 == TOOL_NAME@);
        }
        record
    }
}

} // verus!
