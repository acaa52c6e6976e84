//! From what a traversal came upon to records: the record of one entry, the
//! accumulating scan with its progress reports and warnings, the scan of
//! recorded traversals, and the validation of the requested roots.

use vstd::prelude::*;

use crate::record::builder::{
    own_versions, record_views, text_of, text_of_str, versions_ordered, RecordView, VacuumRecord,
    Warning, WarningDetail, WarningView, TOOL_NAME,
};
use crate::record::mime::{guess_from_extension, mime_guess_for};
use crate::record::path::{
    extension, is_absolute, join, lemma_normalized_has_no_backslash, native_string,
    normalize_relative, normalized, path_extension, path_is_absolute, path_joined,
    path_remainder, path_same, same_path, strip_prefix,
};
use crate::record::time::{rfc3339_utc, to_rfc3339, Precision};
use crate::refusal::codes::RefusalCode;
use crate::refusal::payload::{
    empty_roots_refusal, empty_roots_view, Refusal, RefusalDetail, RefusalView,
};
use crate::text::joined;

verus! {

/// The code that every entry-level warning carries.
pub const ENTRY_ERROR_CODE: &'static str = "E_IO";

/// A moment in time, as whole seconds since the Unix epoch and the
/// nanoseconds beyond them.
#[derive(Debug, Clone, Copy, PartialEq, Eq)]
pub struct Timestamp {
    pub seconds: i64,
    pub nanoseconds: u32,
}

/// What the filesystem answered when it was asked for an entry's metadata.
#[derive(Debug, PartialEq, Eq)]
pub enum EntryStat {
    /// The metadata was read.
    Resolved {
        size: u64,
        /// The time of last modification, where the platform keeps one.
        modified: Option<Timestamp>,
        /// The canonical form of the entry's path, where it was asked for and
        /// could be had.
        canonical: Option<String>,
    },
    /// The metadata could not be read; `error` is the system's own wording.
    Failed { error: String },
}

/// The text a record carries for a modification time: UTC in RFC 3339 form
/// with milliseconds and a closing `Z`; none for none, and none for a time
/// that cannot be written so.
pub open spec fn mtime_text(value: Option<Timestamp>) -> Option<Seq<char>> {
    match value {
        Some(moment) => rfc3339_utc(moment.seconds, moment.nanoseconds, Precision::Millis, true),
        None => None,
    }
}

/// A modification time as a record carries it.
pub fn format_mtime(value: Option<Timestamp>) -> (out: Option<String>)
    ensures
        text_of(out) == mtime_text(value),
{
    match value {
        Some(moment) => to_rfc3339(moment.seconds, moment.nanoseconds, Precision::Millis, true),
        None => None,
    }
}

/// The warning attached to a skipped record.
pub open spec fn io_warning_view(message: Seq<char>, error: Seq<char>) -> WarningView {
    WarningView { tool: TOOL_NAME@, code: ENTRY_ERROR_CODE@, message, error }
}

/// The warning attached to a skipped record: this tool's, with the entry
/// error code, the message, and the underlying error as detail.
pub fn io_warning(message: String, error: String) -> (warning: Warning)
    ensures
        warning@ == io_warning_view(message@, error@),
{
    Warning {
        tool: TOOL_NAME.to_string(),
        code: ENTRY_ERROR_CODE.to_string(),
        message,
        detail: WarningDetail { error },
    }
}

/// An extension as a record carries it: with its leading dot.
pub open spec fn dotted(extension: Option<Seq<char>>) -> Option<Seq<char>> {
    match extension {
        Some(found) => Some("."@ + found),
        None => None,
    }
}

/// The path of an entry relative to its root, normalized: what is left once
/// the root is stripped, or the whole path where stripping failed.
pub open spec fn relative_text(path: Seq<char>, stripped: Option<Seq<char>>) -> Seq<char> {
    match stripped {
        Some(rest) => normalized(rest),
        None => normalized(path),
    }
}

/// What a record says of an entry before its metadata is looked at.
pub open spec fn entry_view(
    root: Seq<char>,
    path: Seq<char>,
    stripped: Option<Seq<char>>,
    extension: Option<Seq<char>>,
) -> RecordView {
    RecordView {
        path,
        relative_path: relative_text(path, stripped),
        root,
        extension: dotted(extension),
        mime_guess: mime_guess_for(dotted(extension)),
        ..VacuumRecord::empty_view()
    }
}

/// A record once its entry's metadata was read.
pub open spec fn resolved_view(
    base: RecordView,
    path: Seq<char>,
    size: u64,
    mtime: Option<Seq<char>>,
) -> RecordView {
    RecordView { path, size: Some(size), mtime, ..base }
}

/// A record whose entry could not be resolved: flagged, with one warning.
pub open spec fn skipped_view(base: RecordView, message: Seq<char>, error: Seq<char>) -> RecordView {
    RecordView {
        size: None,
        mtime: None,
        skipped: Some(true),
        warnings: Some(seq![io_warning_view(message, error)]),
        ..base
    }
}

/// The record of an entry before its metadata is looked at, from the entry's
/// path, its root, what stripping the root off the path left, and the
/// extension found in the path.
pub fn entry_record(
    root: &str,
    path: &str,
    stripped: Option<String>,
    found_extension: Option<String>,
) -> (record: VacuumRecord)
    ensures
        record@ == entry_view(root@, path@, text_of(stripped), text_of(found_extension)),
        record@.well_formed(),
        !record@.relative_path.contains('\\'),
{
    let relative_path = match &stripped {
        Some(rest) => normalize_relative(rest.as_str()),
        None => normalize_relative(path),
    };
    let extension = match &found_extension {
        Some(found) => Some(joined(".", found.as_str())),
        None => None,
    };
    let guess = match &extension {
        Some(dotted) => guess_from_extension(Some(dotted.as_str())),
        None => guess_from_extension(None),
    };
    let mime_guess = match guess {
        Some(mime) => Some(mime.to_string()),
        None => None,
    };
    let mut record = VacuumRecord::empty();
    record.path = native_string(path);
    record.relative_path = relative_path;
    record.root = root.to_string();
    record.extension = extension;
    record.mime_guess = mime_guess;
    record
}

/// Completes a record whose entry's metadata was read.
pub fn resolved_record(base: VacuumRecord, path: String, size: u64, mtime: Option<String>) -> (record:
    VacuumRecord)
    ensures
        record@ == resolved_view(base@, path@, size, text_of(mtime)),
{
    let mut record = base;
    record.path = path;
    record.size = Some(size);
    record.mtime = mtime;
    record
}

/// Turns a record into that of a skipped entry, with one warning made of
/// `message` and `error`.
pub fn skipped_record(base: VacuumRecord, message: String, error: String) -> (record: VacuumRecord)
    ensures
        record@ == skipped_view(base@, message@, error@),
{
    let mut record = base;
    let mut warnings: Vec<Warning> = Vec::new();
    warnings.push(io_warning(message, error));
    record.size = None;
    record.mtime = None;
    record._skipped = Some(true);
    record._warnings = Some(warnings);
    proof {
        assert(record@.warnings->0 =~= seq![io_warning_view(message@, error@)]);
    }
    record
}

/// The path a resolved record carries: the canonical one where symlinks are
/// followed and it could be had, else the path as traversed.
pub open spec fn output_path(
    entry_path: Seq<char>,
    follow_symlinks: bool,
    canonical: Option<Seq<char>>,
) -> Seq<char> {
    match canonical {
        Some(resolved) if follow_symlinks => resolved,
        _ => entry_path,
    }
}

/// The message of the warning on an entry whose metadata could not be read.
pub open spec fn metadata_message(error: Seq<char>) -> Seq<char> {
    "Cannot read file metadata: "@ + error
}

/// The message of the warning on an entry that the traversal could not read.
pub open spec fn traversal_message(error: Seq<char>) -> Seq<char> {
    "Cannot read directory entry: "@ + error
}

/// A record once the answer to the metadata request is in: resolved with
/// size, modification time and output path, or skipped with the error.
pub open spec fn settled_view(
    base: RecordView,
    entry_path: Seq<char>,
    follow_symlinks: bool,
    stat: EntryStat,
) -> RecordView {
    match stat {
        EntryStat::Resolved { size, modified, canonical } => resolved_view(
            base,
            output_path(entry_path, follow_symlinks, text_of(canonical)),
            size,
            mtime_text(modified),
        ),
        EntryStat::Failed { error } => skipped_view(base, metadata_message(error@), error@),
    }
}

/// The record of one traversed entry.
pub open spec fn built_view(
    root: Seq<char>,
    entry_path: Seq<char>,
    follow_symlinks: bool,
    stat: EntryStat,
) -> RecordView {
    settled_view(
        entry_view(
            root,
            entry_path,
            path_remainder(entry_path, root),
            path_extension(entry_path),
        ),
        entry_path,
        follow_symlinks,
        stat,
    )
}

/// The record of an entry that the traversal itself could not read: none
/// where the failure names no path or names the root itself.
pub open spec fn walk_error_view(root: Seq<char>, path: Option<Seq<char>>, error: Seq<char>) -> Option<
    RecordView,
> {
    match path {
        Some(at) if !path_same(at, root) => Some(
            skipped_view(
                entry_view(root, at, path_remainder(at, root), path_extension(at)),
                traversal_message(error),
                error,
            ),
        ),
        _ => None,
    }
}

/// Builds the one record of a traversed entry from the answer to its
/// metadata request. A failed request never aborts: it gives a skipped record
/// that still carries what the path alone tells.
pub fn build_record(root: &str, entry_path: &str, follow_symlinks: bool, stat: &EntryStat) -> (record:
    VacuumRecord)
    ensures
        record@ == built_view(root@, entry_path@, follow_symlinks, *stat),
        record@.well_formed(),
        !record@.relative_path.contains('\\'),
        record@.is_skipped() <==> stat is Failed,
        !record@.is_skipped() ==> record@.size is Some,
{
    let base = entry_record(
        root,
        entry_path,
        strip_prefix(entry_path, root),
        extension(entry_path),
    );
    match stat {
        EntryStat::Resolved { size, modified, canonical } => {
            let path = match canonical {
                Some(resolved) if follow_symlinks => resolved.clone(),
                _ => native_string(entry_path),
            };
            resolved_record(base, path, *size, format_mtime(*modified))
        },
        EntryStat::Failed { error } => skipped_record(
            base,
            joined("Cannot read file metadata: ", error.as_str()),
            error.clone(),
        ),
    }
}

/// Builds the skipped record of an entry that the traversal could not read,
/// where the failure names a path other than the root.
pub fn build_skipped_from_walk_error(root: &str, path: Option<&str>, error: &str) -> (record: Option<
    VacuumRecord,
>)
    ensures
        match record {
            Some(skipped) => walk_error_view(root@, text_of_str(path), error@) == Some(skipped@),
            None => walk_error_view(root@, text_of_str(path), error@) is None,
        },
        record matches Some(skipped) ==> skipped@.well_formed() && skipped@.is_skipped()
            && !skipped@.relative_path.contains('\\'),
{
    let at = match path {
        Some(at) => at,
        None => {
            return None;
        },
    };
    if same_path(at, root) {
        return None;
    }
    let base = entry_record(root, at, strip_prefix(at, root), extension(at));
    Some(
        skipped_record(
            base,
            joined("Cannot read directory entry: ", error),
            error.to_string(),
        ),
    )
}

/// A progress event falls due whenever this many entries more were processed.
pub const PROGRESS_EVERY: u64 = 1000;

/// A progress event falls due once this many milliseconds went by since the
/// last one.
pub const PROGRESS_INTERVAL_MS: u64 = 500;

/// How far a scan has come.
#[derive(Debug, Clone, Copy, PartialEq, Eq)]
pub struct ProgressEvent {
    pub processed: u64,
    pub elapsed_ms: u64,
}

/// The state behind rate-limited progress reports: a count and two readings
/// of the caller's clock, in milliseconds.
#[derive(Debug, Clone, Copy, PartialEq, Eq)]
pub struct ProgressReporter {
    pub enabled: bool,
    pub processed: u64,
    pub started_at: u64,
    pub last_emitted_at: u64,
}

/// The milliseconds from `since` to `now`; zero where the clock ran backwards.
pub open spec fn elapsed_ms(since: u64, now: u64) -> u64 {
    if now >= since {
        (now - since) as u64
    } else {
        0
    }
}

impl ProgressReporter {
    /// A progress event is owed at `now`: reporting is on, and the count is a
    /// multiple of `PROGRESS_EVERY` or `PROGRESS_INTERVAL_MS` have gone by.
    pub open spec fn due(self, now: u64) -> bool {
        self.enabled && (self.processed % PROGRESS_EVERY == 0 || elapsed_ms(
            self.last_emitted_at,
            now,
        ) >= PROGRESS_INTERVAL_MS)
    }

    /// The reporter with one entry more counted; the count stops at the
    /// largest number it can hold.
    pub open spec fn counted(self) -> ProgressReporter {
        ProgressReporter {
            processed: if self.processed == u64::MAX {
                self.processed
            } else {
                (self.processed + 1) as u64
            },
            ..self
        }
    }

    /// The event that reports the state at `now`.
    pub open spec fn event(self, now: u64) -> ProgressEvent {
        ProgressEvent { processed: self.processed, elapsed_ms: elapsed_ms(self.started_at, now) }
    }

    /// The reporter once it has reported at `now`.
    pub open spec fn emitted(self, now: u64) -> ProgressReporter {
        ProgressReporter { last_emitted_at: now, ..self }
    }

    /// The reporter once one entry more was processed at `now`: the entry is
    /// counted, and a report is made if one is then due.
    pub open spec fn stepped(self, now: u64) -> ProgressReporter {
        if self.counted().due(now) {
            self.counted().emitted(now)
        } else {
            self.counted()
        }
    }

    /// A reporter that has counted nothing, started at `now`.
    pub fn new(enabled: bool, now: u64) -> (reporter: Self)
        ensures
            reporter == (ProgressReporter {
                enabled,
                processed: 0,
                started_at: now,
                last_emitted_at: now,
            }),
    {
        ProgressReporter { enabled, processed: 0, started_at: now, last_emitted_at: now }
    }

    /// Counts one entry more.
    pub fn record_processed(&mut self)
        ensures
            *final(self) == old(self).counted(),
    {
        self.processed = self.processed.saturating_add(1);
    }

    /// Reports at `now`, whatever the rate limit says.
    pub fn emit(&mut self, now: u64) -> (event: ProgressEvent)
        ensures
            event == old(self).event(now),
            *final(self) == old(self).emitted(now),
    {
        self.last_emitted_at = now;
        ProgressEvent { processed: self.processed, elapsed_ms: now.saturating_sub(self.started_at) }
    }

    /// Reports at `now` if an event is due, and not otherwise.
    pub fn emit_if_due(&mut self, now: u64) -> (event: Option<ProgressEvent>)
        ensures
            old(self).due(now) ==> event == Some(old(self).event(now)) && *final(self) == old(
                self,
            ).emitted(now),
            !old(self).due(now) ==> event is None && *final(self) == *old(self),
    {
        if !self.enabled {
            return None;
        }
        let waited = now.saturating_sub(self.last_emitted_at);
        if self.processed % PROGRESS_EVERY == 0 || waited >= PROGRESS_INTERVAL_MS {
            Some(self.emit(now))
        } else {
            None
        }
    }

    /// The closing report of a scan: always made where reporting is on.
    pub fn emit_final(&mut self, now: u64) -> (event: Option<ProgressEvent>)
        ensures
            old(self).enabled ==> event == Some(old(self).event(now)) && *final(self) == old(
                self,
            ).emitted(now),
            !old(self).enabled ==> event is None && *final(self) == *old(self),
    {
        if !self.enabled {
            return None;
        }
        Some(self.emit(now))
    }
}

/// One message for the side channel that accompanies a scan.
#[derive(Debug, PartialEq, Eq)]
pub enum Notice {
    /// A structured progress event.
    Progress(ProgressEvent),
    /// A structured warning about a skipped entry.
    Warning { path: String, message: String },
    /// A warning about a skipped entry as one plain line.
    Plain(String),
}

/// A notice as contracts see it.
pub enum NoticeView {
    Progress(ProgressEvent),
    Warning { path: Seq<char>, message: Seq<char> },
    Plain(Seq<char>),
}

impl View for Notice {
    type V = NoticeView;

    open spec fn view(&self) -> NoticeView {
        match self {
            Notice::Progress(event) => NoticeView::Progress(*event),
            Notice::Warning { path, message } => NoticeView::Warning {
                path: path@,
                message: message@,
            },
            Notice::Plain(line) => NoticeView::Plain(line@),
        }
    }
}

/// The views of a sequence of notices, in order.
pub open spec fn notice_views(notices: Seq<Notice>) -> Seq<NoticeView> {
    notices.map_values(|notice: Notice| notice@)
}

/// The plain line that tells of a skipped entry.
pub open spec fn plain_warning(path: Seq<char>, message: Seq<char>) -> Seq<char> {
    "vacuum: skipped "@ + path + " ("@ + message + ")"@
}

/// The warning owed to the side channel for a record: none unless the record
/// is skipped and carries a warning; else its path and first warning's
/// message, structured or as a plain line.
pub open spec fn skip_notice(record: RecordView, structured: bool) -> Option<NoticeView> {
    match record.warnings {
        Some(warnings) if record.is_skipped() && warnings.len() > 0 => if structured {
            Some(NoticeView::Warning { path: record.path, message: warnings[0].message })
        } else {
            Some(NoticeView::Plain(plain_warning(record.path, warnings[0].message)))
        },
        _ => None,
    }
}

/// The warning notice for a record, where one is owed.
pub fn warning_for_skipped(record: &VacuumRecord, structured: bool) -> (notice: Option<Notice>)
    ensures
        match notice {
            Some(found) => skip_notice(record@, structured) == Some(found@),
            None => skip_notice(record@, structured) is None,
        },
{
    match record._skipped {
        Some(true) => {},
        _ => {
            return None;
        },
    }
    let warnings = match &record._warnings {
        Some(warnings) => warnings,
        None => {
            return None;
        },
    };
    if warnings.len() == 0 {
        return None;
    }
    let warning = &warnings[0];
    if structured {
        Some(Notice::Warning { path: record.path.clone(), message: warning.message.clone() })
    } else {
        let mut line = joined("vacuum: skipped ", record.path.as_str());
        line.append(" (");
        line.append(warning.message.as_str());
        line.append(")");
        Some(Notice::Plain(line))
    }
}

/// Whether a traversed entry is listed in the manifest: every entry but the
/// root itself and directories.
pub open spec fn listed(depth: usize, is_dir: bool) -> bool {
    depth != 0 && !is_dir
}

/// Whether a traversed entry is listed in the manifest.
pub fn entry_is_listed(depth: usize, is_dir: bool) -> (yes: bool)
    ensures
        yes == listed(depth, is_dir),
{
    depth != 0 && !is_dir
}

/// A scan as far as it has come: the records so far, the progress state, and
/// the notices put out.
pub struct ScanTrace {
    pub records: Seq<RecordView>,
    pub progress: ProgressReporter,
    pub notices: Seq<NoticeView>,
}

impl ScanTrace {
    /// A scan that has seen nothing yet.
    pub open spec fn start(progress_enabled: bool, now: u64) -> ScanTrace {
        ScanTrace {
            records: Seq::empty(),
            progress: ProgressReporter {
                enabled: progress_enabled,
                processed: 0,
                started_at: now,
                last_emitted_at: now,
            },
            notices: Seq::empty(),
        }
    }

    /// The notices that taking in `record` at `now` gives rise to: a progress
    /// event if one is due once the record is counted, then the warning if
    /// the record is skipped.
    pub open spec fn notices_for(self, record: RecordView, now: u64) -> Seq<NoticeView> {
        let counted = self.progress.counted();
        let progress: Seq<NoticeView> = if counted.due(now) {
            seq![NoticeView::Progress(counted.event(now))]
        } else {
            Seq::empty()
        };
        match skip_notice(record, self.progress.enabled) {
            Some(warning) => progress.push(warning),
            None => progress,
        }
    }

    /// The scan once `record` was taken in at `now`.
    pub open spec fn with_record(self, record: RecordView, now: u64) -> ScanTrace {
        ScanTrace {
            records: self.records.push(record),
            progress: self.progress.stepped(now),
            notices: self.notices + self.notices_for(record, now),
        }
    }

    /// The scan once the walk has ended at `now`: where reporting is on, one
    /// last progress event is put out.
    pub open spec fn finished(self, now: u64) -> ScanTrace {
        if self.progress.enabled {
            ScanTrace {
                progress: self.progress.emitted(now),
                notices: self.notices.push(NoticeView::Progress(self.progress.event(now))),
                ..self
            }
        } else {
            self
        }
    }
}

/// The accumulating state of a scan: the records found so far and the
/// progress reporter. The caller walks the roots and hands in what it sees.
#[derive(Debug)]
pub struct Scan {
    pub records: Vec<VacuumRecord>,
    pub progress: ProgressReporter,
}

impl Scan {
    /// The state as a trace that has put out `notices` so far.
    pub open spec fn trace(self, notices: Seq<NoticeView>) -> ScanTrace {
        ScanTrace { records: record_views(self.records@), progress: self.progress, notices }
    }

    /// A scan that has seen nothing yet, started at `now`.
    pub fn new(progress_enabled: bool, now: u64) -> (scan: Self)
        ensures
            scan.records@.len() == 0,
            scan.trace(Seq::empty()) == ScanTrace::start(progress_enabled, now),
    {
        let scan = Scan { records: Vec::new(), progress: ProgressReporter::new(progress_enabled, now) };
        assert(record_views(scan.records@) =~= Seq::<RecordView>::empty());
        scan
    }

    /// Takes in one record at `now` and returns the notices this gives rise to.
    pub fn accept(&mut self, record: VacuumRecord, now: u64) -> (notices: Vec<Notice>)
        ensures
            final(self).records@ == old(self).records@.push(record),
            final(self).progress == old(self).progress.stepped(now),
            notice_views(notices@) == old(self).trace(Seq::empty()).notices_for(record@, now),
            final(self).trace(notice_views(notices@)) == old(self).trace(Seq::empty()).with_record(
                record@,
                now,
            ),
    {
        let ghost before = record_views(self.records@);
        let ghost start = self.trace(Seq::empty());
        let mut notices: Vec<Notice> = Vec::new();
        let warning = warning_for_skipped(&record, self.progress.enabled);
        self.records.push(record);
        self.progress.record_processed();
        match self.progress.emit_if_due(now) {
            Some(event) => {
                notices.push(Notice::Progress(event));
            },
            None => {},
        }
        match warning {
            Some(notice) => {
                notices.push(notice);
            },
            None => {},
        }
        proof {
            assert(record_views(self.records@) =~= before.push(record@));
            assert(notice_views(notices@) =~= start.notices_for(record@, now));
            assert(start.notices + start.notices_for(record@, now) =~= start.notices_for(
                record@,
                now,
            ));
        }
        notices
    }

    /// Ends the scan at `now` and returns the closing notice, if one is owed.
    pub fn finish(&mut self, now: u64) -> (notices: Vec<Notice>)
        ensures
            final(self).records@ == old(self).records@,
            final(self).trace(notice_views(notices@)) == old(self).trace(Seq::empty()).finished(
                now,
            ),
    {
        let mut notices: Vec<Notice> = Vec::new();
        match self.progress.emit_final(now) {
            Some(event) => {
                notices.push(Notice::Progress(event));
            },
            None => {},
        }
        proof {
            if old(self).progress.enabled {
                assert(notice_views(notices@) =~= Seq::<NoticeView>::empty().push(
                    NoticeView::Progress(old(self).progress.event(now)),
                ));
            } else {
                assert(notice_views(notices@) =~= Seq::<NoticeView>::empty());
            }
        }
        notices
    }
}

/// One thing a traversal came upon, with the metadata answer where an entry
/// was reached and the reading of the caller's clock at that moment.
#[derive(Debug, PartialEq, Eq)]
pub enum WalkItem {
    /// An entry was reached. `stat` is read only where the entry is listed.
    Entry { depth: usize, is_dir: bool, path: String, stat: EntryStat, seen_at: u64 },
    /// The traversal failed, at the path `at` where it could tell.
    Failure { at: Option<String>, message: String, seen_at: u64 },
    /// A symlink at `link` leads back to a directory that holds it. The
    /// traversal did not enter it again.
    Cycle { link: String, seen_at: u64 },
}

/// What the traversal of one root came upon, in the order it came.
#[derive(Debug, PartialEq, Eq)]
pub struct RootWalk {
    /// The root, absolute, as records carry it.
    pub root: String,
    pub items: Vec<WalkItem>,
}

impl WalkItem {
    /// The clock reading that came with the item.
    pub open spec fn seen_at(self) -> u64 {
        match self {
            WalkItem::Entry { seen_at, .. } => seen_at,
            WalkItem::Failure { seen_at, .. } => seen_at,
            WalkItem::Cycle { seen_at, .. } => seen_at,
        }
    }

    /// The record that the item gives under `root`: that of a listed entry,
    /// the skipped record of a failure, or none. A cycle is broken silently:
    /// it gives no record.
    pub open spec fn record(self, root: Seq<char>, follow_symlinks: bool) -> Option<RecordView> {
        match self {
            WalkItem::Entry { depth, is_dir, path, stat, .. } => if listed(depth, is_dir) {
                Some(built_view(root, path@, follow_symlinks, stat))
            } else {
                None
            },
            WalkItem::Failure { at, message, .. } => walk_error_view(root, text_of(at), message@),
            WalkItem::Cycle { .. } => None,
        }
    }
}

/// The records that the traversal of one root gives, in the order of its
/// items.
pub open spec fn walk_records(root: Seq<char>, follow_symlinks: bool, items: Seq<WalkItem>) -> Seq<
    RecordView,
>
    decreases items.len(),
{
    if items.len() == 0 {
        Seq::empty()
    } else {
        let before = walk_records(root, follow_symlinks, items.drop_last());
        match items.last().record(root, follow_symlinks) {
            Some(record) => before.push(record),
            None => before,
        }
    }
}

/// The records that a scan of several roots gives: those of each root, one
/// root after the other.
pub open spec fn scan_records(walks: Seq<RootWalk>, follow_symlinks: bool) -> Seq<RecordView>
    decreases walks.len(),
{
    if walks.len() == 0 {
        Seq::empty()
    } else {
        scan_records(walks.drop_last(), follow_symlinks) + walk_records(
            walks.last().root@,
            follow_symlinks,
            walks.last().items@,
        )
    }
}

impl ScanTrace {
    /// The scan once `item`, found under `root`, was taken in.
    pub open spec fn with_item(self, root: Seq<char>, follow_symlinks: bool, item: WalkItem) -> ScanTrace {
        match item.record(root, follow_symlinks) {
            Some(record) => self.with_record(record, item.seen_at()),
            None => self,
        }
    }

    /// The scan once all of `items`, found under `root`, were taken in.
    pub open spec fn with_items(
        self,
        root: Seq<char>,
        follow_symlinks: bool,
        items: Seq<WalkItem>,
    ) -> ScanTrace
        decreases items.len(),
    {
        if items.len() == 0 {
            self
        } else {
            self.with_items(root, follow_symlinks, items.drop_last()).with_item(
                root,
                follow_symlinks,
                items.last(),
            )
        }
    }

    /// The scan once all of `walks` were taken in, one root after the other.
    pub open spec fn with_walks(self, walks: Seq<RootWalk>, follow_symlinks: bool) -> ScanTrace
        decreases walks.len(),
    {
        if walks.len() == 0 {
            self
        } else {
            self.with_walks(walks.drop_last(), follow_symlinks).with_items(
                walks.last().root@,
                follow_symlinks,
                walks.last().items@,
            )
        }
    }
}

/// The records of a scan are those already there and then those of the items
/// taken in, whatever the clock said and whether progress was reported.
pub proof fn lemma_items_add_their_records(
    trace: ScanTrace,
    root: Seq<char>,
    follow_symlinks: bool,
    items: Seq<WalkItem>,
)
    ensures
        trace.with_items(root, follow_symlinks, items).records == trace.records + walk_records(
            root,
            follow_symlinks,
            items,
        ),
    decreases items.len(),
{
    if items.len() == 0 {
        assert(trace.records + Seq::<RecordView>::empty() =~= trace.records);
    } else {
        lemma_items_add_their_records(trace, root, follow_symlinks, items.drop_last());
        let before = walk_records(root, follow_symlinks, items.drop_last());
        match items.last().record(root, follow_symlinks) {
            Some(record) => {
                assert((trace.records + before).push(record) =~= trace.records + before.push(
                    record,
                ));
            },
            None => {},
        }
    }
}

/// The records of a scan of several roots are those already there and then
/// `scan_records` of the roots.
pub proof fn lemma_walks_add_their_records(
    trace: ScanTrace,
    walks: Seq<RootWalk>,
    follow_symlinks: bool,
)
    ensures
        trace.with_walks(walks, follow_symlinks).records == trace.records + scan_records(
            walks,
            follow_symlinks,
        ),
    decreases walks.len(),
{
    if walks.len() == 0 {
        assert(trace.records + Seq::<RecordView>::empty() =~= trace.records);
    } else {
        lemma_walks_add_their_records(trace, walks.drop_last(), follow_symlinks);
        let before = trace.with_walks(walks.drop_last(), follow_symlinks);
        lemma_items_add_their_records(
            before,
            walks.last().root@,
            follow_symlinks,
            walks.last().items@,
        );
        let earlier = scan_records(walks.drop_last(), follow_symlinks);
        let last = walk_records(walks.last().root@, follow_symlinks, walks.last().items@);
        assert((trace.records + earlier) + last =~= trace.records + (earlier + last));
    }
}

/// What a scan hands back: the records in the order they were found, and the
/// notices for the side channel in the order they were put out.
#[derive(Debug)]
pub struct ScanReport {
    pub records: Vec<VacuumRecord>,
    pub notices: Vec<Notice>,
}

impl Scan {
    /// Takes in one item that the traversal of `root` came upon, and returns
    /// the notices this gives rise to.
    pub fn observe(&mut self, root: &str, follow_symlinks: bool, item: &WalkItem) -> (notices: Vec<
        Notice,
    >)
        ensures
            final(self).trace(notice_views(notices@)) == old(self).trace(Seq::empty()).with_item(
                root@,
                follow_symlinks,
                *item,
            ),
    {
        match item {
            WalkItem::Entry { depth, is_dir, path, stat, seen_at } => {
                if entry_is_listed(*depth, *is_dir) {
                    let record = build_record(root, path.as_str(), follow_symlinks, stat);
                    self.accept(record, *seen_at)
                } else {
                    let notices: Vec<Notice> = Vec::new();
                    assert(notice_views(notices@) =~= Seq::<NoticeView>::empty());
                    notices
                }
            },
            WalkItem::Failure { at, message, seen_at } => {
                let at = match at {
                    Some(at) => Some(at.as_str()),
                    None => None,
                };
                match build_skipped_from_walk_error(root, at, message.as_str()) {
                    Some(record) => self.accept(record, *seen_at),
                    None => {
                        let notices: Vec<Notice> = Vec::new();
                        assert(notice_views(notices@) =~= Seq::<NoticeView>::empty());
                        notices
                    },
                }
            },
            WalkItem::Cycle { .. } => {
                let notices: Vec<Notice> = Vec::new();
                assert(notice_views(notices@) =~= Seq::<NoticeView>::empty());
                notices
            },
        }
    }
}

/// Every record that an item gives is well formed, and its relative path
/// holds no backslash.
pub proof fn lemma_item_record_well_formed(item: WalkItem, root: Seq<char>, follow_symlinks: bool)
    ensures
        item.record(root, follow_symlinks) matches Some(record) ==> record.well_formed()
            && !record.relative_path.contains('\\'),
{
    match item.record(root, follow_symlinks) {
        Some(record) => {
            assert(versions_ordered(own_versions())) by {
                assert(own_versions()[0].0 == TOOL_NAME@);
            }
            match item {
                WalkItem::Entry { path, .. } => {
                    lemma_normalized_has_no_backslash(path@);
                    match path_remainder(path@, root) {
                        Some(rest) => {
                            lemma_normalized_has_no_backslash(rest);
                        },
                        None => {},
                    }
                },
                WalkItem::Failure { at, .. } => {
                    let at = at->0@;
                    lemma_normalized_has_no_backslash(at);
                    match path_remainder(at, root) {
                        Some(rest) => {
                            lemma_normalized_has_no_backslash(rest);
                        },
                        None => {},
                    }
                },
                WalkItem::Cycle { .. } => {},
            }
        },
        None => {},
    }
}

/// Every record of a root's traversal is well formed, and its relative path
/// holds no backslash.
pub proof fn lemma_walk_records_well_formed(
    root: Seq<char>,
    follow_symlinks: bool,
    items: Seq<WalkItem>,
)
    ensures
        forall|k: int|
            0 <= k < walk_records(root, follow_symlinks, items).len() ==> {
                let record = #[trigger] walk_records(root, follow_symlinks, items)[k];
                record.well_formed() && !record.relative_path.contains('\\')
            },
    decreases items.len(),
{
    if items.len() > 0 {
        lemma_walk_records_well_formed(root, follow_symlinks, items.drop_last());
        lemma_item_record_well_formed(items.last(), root, follow_symlinks);
    }
}

/// Every record of a scan is well formed: in particular a skipped record
/// carries neither size nor modification time and has at least one warning.
/// No relative path holds a backslash.
pub proof fn lemma_scan_records_well_formed(walks: Seq<RootWalk>, follow_symlinks: bool)
    ensures
        forall|k: int|
            0 <= k < scan_records(walks, follow_symlinks).len() ==> {
                let record = #[trigger] scan_records(walks, follow_symlinks)[k];
                record.well_formed() && record.skip_invariant() && !record.relative_path.contains(
                    '\\',
                )
            },
    decreases walks.len(),
{
    if walks.len() > 0 {
        lemma_scan_records_well_formed(walks.drop_last(), follow_symlinks);
        lemma_walk_records_well_formed(walks.last().root@, follow_symlinks, walks.last().items@);
    }
}

/// Notices put out so far, and then more: the trace does not care in how many
/// batches they came.
proof fn lemma_notices_carry(
    records: Seq<RecordView>,
    progress: ProgressReporter,
    so_far: Seq<NoticeView>,
    root: Seq<char>,
    follow_symlinks: bool,
    item: WalkItem,
)
    ensures
        ({
            let fresh = ScanTrace { records, progress, notices: Seq::empty() }.with_item(
                root,
                follow_symlinks,
                item,
            );
            ScanTrace { records, progress, notices: so_far }.with_item(
                root,
                follow_symlinks,
                item,
            ) == ScanTrace { notices: so_far + fresh.notices, ..fresh }
        }),
{
    let empty = ScanTrace { records, progress, notices: Seq::empty() };
    let full = ScanTrace { records, progress, notices: so_far };
    match item.record(root, follow_symlinks) {
        Some(record) => {
            let now = item.seen_at();
            assert(full.notices_for(record, now) == empty.notices_for(record, now));
            assert(so_far + (Seq::<NoticeView>::empty() + empty.notices_for(record, now))
                =~= so_far + full.notices_for(record, now));
        },
        None => {
            assert(so_far + Seq::<NoticeView>::empty() =~= so_far);
        },
    }
}

/// Scans what the traversals of several roots came upon: one record for
/// every listed entry and every failure that names a path, in the order
/// found, and the notices for the side channel. `started_at` and
/// `finished_at` are the clock readings at the start and the end of the walk.
pub fn scan_roots_with_progress(
    walks: &Vec<RootWalk>,
    follow_symlinks: bool,
    progress_enabled: bool,
    started_at: u64,
    finished_at: u64,
) -> (report: ScanReport)
    ensures
        record_views(report.records@) == scan_records(walks@, follow_symlinks),
        notice_views(report.notices@) == ScanTrace::start(progress_enabled, started_at).with_walks(
            walks@,
            follow_symlinks,
        ).finished(finished_at).notices,
        forall|k: int|
            0 <= k < report.records.len() ==> {
                let record = #[trigger] report.records[k]@;
                record.well_formed() && record.skip_invariant() && !record.relative_path.contains(
                    '\\',
                )
            },
{
    let mut scan = Scan::new(progress_enabled, started_at);
    let mut notices: Vec<Notice> = Vec::new();
    let ghost start = ScanTrace::start(progress_enabled, started_at);
    assert(notice_views(notices@) =~= Seq::<NoticeView>::empty());
    let mut w: usize = 0;
    while w < walks.len()
        invariant
            w <= walks.len(),
            start == ScanTrace::start(progress_enabled, started_at),
            scan.progress.enabled == progress_enabled,
            scan.trace(notice_views(notices@)) == start.with_walks(
                walks@.take(w as int),
                follow_symlinks,
            ),
        decreases walks.len() - w,
    {
        let walk = &walks[w];
        let ghost base = scan.trace(notice_views(notices@));
        let mut i: usize = 0;
        while i < walk.items.len()
            invariant
                i <= walk.items.len(),
                scan.progress.enabled == progress_enabled,
                scan.trace(notice_views(notices@)) == base.with_items(
                    walk.root@,
                    follow_symlinks,
                    walk.items@.take(i as int),
                ),
            decreases walk.items.len() - i,
        {
            let ghost so_far = notice_views(notices@);
            let ghost records = record_views(scan.records@);
            let ghost progress = scan.progress;
            let mut more = scan.observe(walk.root.as_str(), follow_symlinks, &walk.items[i]);
            let ghost added = notice_views(more@);
            notices.append(&mut more);
            proof {
                lemma_notices_carry(
                    records,
                    progress,
                    so_far,
                    walk.root@,
                    follow_symlinks,
                    walk.items@[i as int],
                );
                assert(notice_views(notices@) =~= so_far + added);
                assert(walk.items@.take(i + 1).drop_last() == walk.items@.take(i as int));
            }
            i += 1;
        }
        proof {
            assert(walk.items@.take(walk.items@.len() as int) == walk.items@);
            assert(walks@.take(w + 1).drop_last() == walks@.take(w as int));
        }
        w += 1;
    }
    let ghost so_far = notice_views(notices@);
    let mut last = scan.finish(finished_at);
    let ghost added = notice_views(last@);
    notices.append(&mut last);
    proof {
        assert(walks@.take(walks@.len() as int) == walks@);
        assert(notice_views(notices@) =~= so_far + added);
        lemma_walks_add_their_records(start, walks@, follow_symlinks);
        assert(start.records + scan_records(walks@, follow_symlinks) =~= scan_records(
            walks@,
            follow_symlinks,
        ));
        lemma_scan_records_well_formed(walks@, follow_symlinks);
        if progress_enabled {
            assert(so_far + added =~= so_far.push(added[0]));
        } else {
            assert(so_far + added =~= so_far);
        }
    }
    let report = ScanReport { records: scan.records, notices };
    proof {
        assert forall|k: int| 0 <= k < report.records.len() implies {
            let record = #[trigger] report.records[k]@;
            record.well_formed() && record.skip_invariant() && !record.relative_path.contains('\\')
        } by {
            assert(report.records[k]@ == record_views(report.records@)[k]);
        }
    }
    report
}

/// Scans without progress reports and hands back the records alone.
pub fn scan_roots(walks: &Vec<RootWalk>, follow_symlinks: bool) -> (records: Vec<VacuumRecord>)
    ensures
        record_views(records@) == scan_records(walks@, follow_symlinks),
        forall|k: int|
            0 <= k < records.len() ==> {
                let record = #[trigger] records[k]@;
                record.well_formed() && record.skip_invariant() && !record.relative_path.contains(
                    '\\',
                )
            },
{
    scan_roots_with_progress(walks, follow_symlinks, false, 0, 0).records
}

/// The kinds of filesystem failure that a refusal tells apart.
#[derive(Debug, Clone, Copy, PartialEq, Eq, Structural)]
pub enum IoErrorKind {
    NotFound,
    PermissionDenied,
    Other,
}

/// A filesystem failure: its kind and the system's own wording.
#[derive(Debug, PartialEq, Eq)]
pub struct IoFailure {
    pub kind: IoErrorKind,
    pub message: String,
}

/// What was found when a requested root was looked at.
#[derive(Debug, PartialEq, Eq)]
pub enum RootProbe {
    /// The root's metadata could not be read.
    Unreadable(IoFailure),
    /// The root exists and is no directory.
    NotDirectory,
    /// The root is a directory whose contents cannot be enumerated.
    Unlistable(IoFailure),
    /// The root is a directory whose contents can be enumerated.
    Listable,
}

/// A requested root, as it was written, with what was found there.
#[derive(Debug, PartialEq, Eq)]
pub struct ProbedRoot {
    pub root: String,
    pub probe: RootProbe,
}

/// The error text of the refusal of a root that is no directory.
pub const NOT_A_DIRECTORY: &'static str = "Not a directory";

/// The refusal that a filesystem failure on `root` gives: "not found" names
/// the root alone; "permission" and all others add the system's wording.
pub open spec fn io_refusal_view(root: Seq<char>, failure: IoFailure) -> RefusalView {
    match failure.kind {
        IoErrorKind::NotFound => RefusalView {
            code: RefusalCode::RootNotFound,
            root: Some(root),
            error: None,
        },
        IoErrorKind::PermissionDenied => RefusalView {
            code: RefusalCode::RootPermission,
            root: Some(root),
            error: Some(failure.message@),
        },
        IoErrorKind::Other => RefusalView {
            code: RefusalCode::Io,
            root: Some(root),
            error: Some(failure.message@),
        },
    }
}

/// The refusal that a probe of `root` gives; none where the root is a
/// directory that can be enumerated.
pub open spec fn probe_refusal(root: Seq<char>, probe: RootProbe) -> Option<RefusalView> {
    match probe {
        RootProbe::Unreadable(failure) => Some(io_refusal_view(root, failure)),
        RootProbe::NotDirectory => Some(
            RefusalView { code: RefusalCode::Io, root: Some(root), error: Some(NOT_A_DIRECTORY@) },
        ),
        RootProbe::Unlistable(failure) => Some(io_refusal_view(root, failure)),
        RootProbe::Listable => None,
    }
}

/// The refusal of the first root, from place `from` on, that is not a
/// directory open to enumeration; none where there is no such root.
pub open spec fn refusal_from(roots: Seq<ProbedRoot>, from: int) -> Option<RefusalView>
    decreases roots.len() - from,
{
    if from < 0 || from >= roots.len() {
        None
    } else {
        match probe_refusal(roots[from].root@, roots[from].probe) {
            Some(refusal) => Some(refusal),
            None => refusal_from(roots, from + 1),
        }
    }
}

/// The outcome of validating the requested roots in order: the refusal for
/// an empty list, else that of the first root that fails, else none.
pub open spec fn validation(roots: Seq<ProbedRoot>) -> Option<RefusalView> {
    if roots.len() == 0 {
        Some(empty_roots_view())
    } else {
        refusal_from(roots, 0)
    }
}

/// Validation is fail-fast and keeps to the order of the roots: where root
/// `k` fails and all before it pass, the outcome is the refusal of root `k`,
/// whatever follows it.
pub proof fn lemma_validation_fails_fast(roots: Seq<ProbedRoot>, k: int)
    requires
        0 <= k < roots.len(),
        probe_refusal(roots[k].root@, roots[k].probe) is Some,
        forall|j: int| 0 <= j < k ==> probe_refusal(#[trigger] roots[j].root@, roots[j].probe) is None,
    ensures
        validation(roots) == probe_refusal(roots[k].root@, roots[k].probe),
        validation(roots.take(k + 1)) == validation(roots),
{
    lemma_refusal_from_earliest(roots, k, 0);
    let cut = roots.take(k + 1);
    assert(cut[k] == roots[k]);
    assert forall|j: int| 0 <= j < k implies probe_refusal(
        #[trigger] cut[j].root@,
        cut[j].probe,
    ) is None by {
        assert(cut[j] == roots[j]);
    }
    lemma_refusal_from_earliest(cut, k, 0);
}

proof fn lemma_refusal_from_earliest(roots: Seq<ProbedRoot>, k: int, from: int)
    requires
        0 <= from <= k < roots.len(),
        probe_refusal(roots[k].root@, roots[k].probe) is Some,
        forall|j: int| 0 <= j < k ==> probe_refusal(#[trigger] roots[j].root@, roots[j].probe) is None,
    ensures
        refusal_from(roots, from) == probe_refusal(roots[k].root@, roots[k].probe),
    decreases k - from,
{
    if from < k {
        assert(probe_refusal(roots[from].root@, roots[from].probe) is None);
        lemma_refusal_from_earliest(roots, k, from + 1);
    }
}

proof fn lemma_refusal_from_none(roots: Seq<ProbedRoot>, from: int)
    requires
        0 <= from <= roots.len(),
        forall|j: int|
            from <= j < roots.len() ==> probe_refusal(#[trigger] roots[j].root@, roots[j].probe)
                is None,
    ensures
        refusal_from(roots, from) is None,
    decreases roots.len() - from,
{
    if from < roots.len() {
        assert(probe_refusal(roots[from].root@, roots[from].probe) is None);
        lemma_refusal_from_none(roots, from + 1);
    }
}

/// Validation passes exactly where at least one root was named and every
/// root is a directory open to enumeration.
pub proof fn lemma_validation_passes(roots: Seq<ProbedRoot>)
    ensures
        validation(roots) is None <==> roots.len() > 0 && forall|j: int|
            0 <= j < roots.len() ==> (#[trigger] roots[j]).probe is Listable,
{
    if roots.len() > 0 {
        if forall|j: int| 0 <= j < roots.len() ==> (#[trigger] roots[j]).probe is Listable {
            assert forall|j: int| 0 <= j < roots.len() implies probe_refusal(
                #[trigger] roots[j].root@,
                roots[j].probe,
            ) is None by {
                assert(roots[j].probe is Listable);
            }
            lemma_refusal_from_none(roots, 0);
        } else {
            let bad = choose|j: int| 0 <= j < roots.len() && !((#[trigger] roots[j]).probe is Listable);
            lemma_first_failure_exists(roots, bad, 0);
        }
    }
}

proof fn lemma_first_failure_exists(roots: Seq<ProbedRoot>, bad: int, from: int)
    requires
        0 <= from <= bad < roots.len(),
        !(roots[bad].probe is Listable),
    ensures
        refusal_from(roots, from) is Some,
    decreases bad - from,
{
    if from < bad && probe_refusal(roots[from].root@, roots[from].probe) is None {
        lemma_first_failure_exists(roots, bad, from + 1);
    }
}

/// The refusal that a filesystem failure on `root` gives.
pub fn refusal_from_io(root: &str, failure: &IoFailure) -> (refusal: Refusal)
    ensures
        refusal@ == io_refusal_view(root@, *failure),
{
    match failure.kind {
        IoErrorKind::NotFound => Refusal::new(
            RefusalCode::RootNotFound,
            RefusalDetail { root: Some(root.to_string()), error: None },
        ),
        IoErrorKind::PermissionDenied => Refusal::new(
            RefusalCode::RootPermission,
            RefusalDetail { root: Some(root.to_string()), error: Some(failure.message.clone()) },
        ),
        IoErrorKind::Other => Refusal::new(
            RefusalCode::Io,
            RefusalDetail { root: Some(root.to_string()), error: Some(failure.message.clone()) },
        ),
    }
}

/// Validates one root from what was found there: it must exist, be a
/// directory, and be open to enumeration.
pub fn validate_root(root: &str, probe: &RootProbe) -> (outcome: Result<(), Refusal>)
    ensures
        match outcome {
            Ok(_) => probe_refusal(root@, *probe) is None,
            Err(refusal) => probe_refusal(root@, *probe) == Some(refusal@),
        },
{
    match probe {
        RootProbe::Unreadable(failure) => Err(refusal_from_io(root, failure)),
        RootProbe::NotDirectory => Err(
            Refusal::new(
                RefusalCode::Io,
                RefusalDetail {
                    root: Some(root.to_string()),
                    error: Some(NOT_A_DIRECTORY.to_string()),
                },
            ),
        ),
        RootProbe::Unlistable(failure) => Err(refusal_from_io(root, failure)),
        RootProbe::Listable => Ok(()),
    }
}

/// Validates the requested roots in order and stops at the first that fails.
/// An empty list is refused as "root not found", about the empty root.
pub fn validate_roots(roots: &Vec<ProbedRoot>) -> (outcome: Result<(), Refusal>)
    ensures
        match outcome {
            Ok(_) => validation(roots@) is None,
            Err(refusal) => validation(roots@) == Some(refusal@),
        },
{
    if roots.len() == 0 {
        return Err(empty_roots_refusal());
    }
    let mut i: usize = 0;
    while i < roots.len()
        invariant
            i <= roots.len(),
            refusal_from(roots@, 0) == refusal_from(roots@, i as int),
        decreases roots.len() - i,
    {
        match validate_root(roots[i].root.as_str(), &roots[i].probe) {
            Ok(_) => {},
            Err(refusal) => {
                return Err(refusal);
            },
        }
        i += 1;
    }
    Ok(())
}

/// The root as the traversal starts from it: itself where it is absolute or
/// no working directory is known, else joined onto the working directory.
pub open spec fn absolute_root_text(root: Seq<char>, current_dir: Option<Seq<char>>) -> Seq<char> {
    match current_dir {
        Some(base) if !path_is_absolute(root) => path_joined(base, root),
        _ => root,
    }
}

/// The root as the traversal starts from it and as records carry it.
pub fn absolute_root(root: &str, current_dir: Option<&str>) -> (out: String)
    ensures
        out@ == absolute_root_text(root@, text_of_str(current_dir)),
{
    if is_absolute(root) {
        return root.to_string();
    }
    match current_dir {
        Some(base) => join(base, root),
        None => root.to_string(),
    }
}

impl EntryStat {
    /// Two answers say the same.
    pub open spec fn agrees(self, other: EntryStat) -> bool {
        match (self, other) {
            (
                EntryStat::Resolved { size, modified, canonical },
                EntryStat::Resolved { size: other_size, modified: other_modified, canonical: other_canonical },
            ) => size == other_size && modified == other_modified && text_of(canonical) == text_of(
                other_canonical,
            ),
            (EntryStat::Failed { error }, EntryStat::Failed { error: other_error }) => error@
                == other_error@,
            _ => false,
        }
    }
}

impl WalkItem {
    /// Two items tell of the same thing seen, whenever it was seen.
    pub open spec fn agrees(self, other: WalkItem) -> bool {
        match (self, other) {
            (
                WalkItem::Entry { depth, is_dir, path, stat, .. },
                WalkItem::Entry {
                    depth: other_depth,
                    is_dir: other_is_dir,
                    path: other_path,
                    stat: other_stat,
                    ..
                },
            ) => depth == other_depth && is_dir == other_is_dir && path@ == other_path@ && (listed(
                depth,
                is_dir,
            ) ==> stat.agrees(other_stat)),
            (
                WalkItem::Failure { at, message, .. },
                WalkItem::Failure { at: other_at, message: other_message, .. },
            ) => text_of(at) == text_of(other_at) && message@ == other_message@,
            (WalkItem::Cycle { link, .. }, WalkItem::Cycle { link: other_link, .. }) => link@
                == other_link@,
            _ => false,
        }
    }
}

impl RootWalk {
    /// Two traversals of the same root came upon the same things in the same
    /// order.
    pub open spec fn agrees(self, other: RootWalk) -> bool {
        &&& self.root@ == other.root@
        &&& self.items@.len() == other.items@.len()
        &&& forall|i: int|
            0 <= i < self.items@.len() ==> (#[trigger] self.items@[i]).agrees(other.items@[i])
    }
}

/// Two scans came upon the same things: root by root, item by item.
pub open spec fn same_observations(first: Seq<RootWalk>, second: Seq<RootWalk>) -> bool {
    &&& first.len() == second.len()
    &&& forall|i: int| 0 <= i < first.len() ==> (#[trigger] first[i]).agrees(second[i])
}

proof fn lemma_agreeing_items_give_same_records(
    root: Seq<char>,
    follow_symlinks: bool,
    first: Seq<WalkItem>,
    second: Seq<WalkItem>,
)
    requires
        first.len() == second.len(),
        forall|i: int| 0 <= i < first.len() ==> (#[trigger] first[i]).agrees(second[i]),
    ensures
        walk_records(root, follow_symlinks, first) == walk_records(root, follow_symlinks, second),
    decreases first.len(),
{
    if first.len() > 0 {
        assert(first.last().agrees(second.last()));
        assert forall|i: int| 0 <= i < first.drop_last().len() implies (
        #[trigger] first.drop_last()[i]).agrees(second.drop_last()[i]) by {
            assert(first[i].agrees(second[i]));
        }
        lemma_agreeing_items_give_same_records(
            root,
            follow_symlinks,
            first.drop_last(),
            second.drop_last(),
        );
    }
}

/// Scans that came upon the same things give the same records, whatever the
/// clock said at the time.
pub proof fn lemma_same_observations_give_same_records(
    first: Seq<RootWalk>,
    second: Seq<RootWalk>,
    follow_symlinks: bool,
)
    requires
        same_observations(first, second),
    ensures
        scan_records(first, follow_symlinks) == scan_records(second, follow_symlinks),
    decreases first.len(),
{
    if first.len() > 0 {
        assert(first.last().agrees(second.last()));
        assert forall|i: int| 0 <= i < first.drop_last().len() implies (
        #[trigger] first.drop_last()[i]).agrees(second.drop_last()[i]) by {
            assert(first[i].agrees(second[i]));
        }
        lemma_same_observations_give_same_records(
            first.drop_last(),
            second.drop_last(),
            follow_symlinks,
        );
        lemma_agreeing_items_give_same_records(
            first.last().root@,
            follow_symlinks,
            first.last().items@,
            second.last().items@,
        );
    }
}

/// Every record of a root's traversal carries that root.
pub proof fn lemma_walk_records_carry_root(
    root: Seq<char>,
    follow_symlinks: bool,
    items: Seq<WalkItem>,
)
    ensures
        forall|k: int|
            0 <= k < walk_records(root, follow_symlinks, items).len() ==> (
            #[trigger] walk_records(root, follow_symlinks, items)[k]).root == root,
    decreases items.len(),
{
    if items.len() > 0 {
        lemma_walk_records_carry_root(root, follow_symlinks, items.drop_last());
    }
}

} // verus!
