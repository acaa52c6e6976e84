//! The selection of records by glob patterns on their relative paths.

use vstd::prelude::*;

use crate::record::builder::{record_views, RecordView, VacuumRecord};
use crate::record::path::{normalize_relative, normalized};
use crate::text::texts;

verus! {

// Patterns are matched by the globset crate. Its three types pass through
// this module unopened; what is claimed of them is said by the names below
// and by the contracts of the five functions that call into the crate. Every
// glob here is parsed by `parse_glob`, which sets `literal_separator` and
// leaves globset's other settings as they come; the names speak of such
// globs.

#[verifier::external_type_specification]
#[verifier::external_body]
pub struct ExGlob(globset::Glob);

#[verifier::external_type_specification]
#[verifier::external_body]
pub struct ExGlobSetBuilder(globset::GlobSetBuilder);

#[verifier::external_type_specification]
#[verifier::external_body]
pub struct ExGlobSet(globset::GlobSet);

/// Wildcards of every pattern stop at the path separator: `*` and `?` never
/// match `/`, and `**` stands for whole segments.
pub const LITERAL_SEPARATOR: bool = true;

/// Whether globset parses `pattern` as a glob, with `literal_separator` set
/// as given. Backslashes are read as globset reads them on the platform
/// built for.
pub uninterp spec fn glob_parses(pattern: Seq<char>, literal_separator: bool) -> bool;

/// Whether the glob that globset parses from `pattern`, with
/// `literal_separator` set as given, matches the path `candidate`.
pub uninterp spec fn glob_matches(
    pattern: Seq<char>,
    literal_separator: bool,
    candidate: Seq<char>,
) -> bool;

/// Whether globset builds a set from globs parsed from these patterns with
/// these settings of `literal_separator`.
pub uninterp spec fn set_builds(globs: Seq<(Seq<char>, bool)>) -> bool;

/// The pattern that a glob was parsed from, and the setting of
/// `literal_separator` it was parsed with.
pub uninterp spec fn glob_source(glob: globset::Glob) -> (Seq<char>, bool);

/// The sources of the globs added to a builder, in the order added.
pub uninterp spec fn builder_globs(builder: globset::GlobSetBuilder) -> Seq<(Seq<char>, bool)>;

/// The sources of the globs that a set was built from.
pub uninterp spec fn set_globs(set: globset::GlobSet) -> Seq<(Seq<char>, bool)>;

/// Parses a pattern with globset's `GlobBuilder`: a glob where `glob_parses`
/// holds of the pattern and the setting, which then remembers both as its
/// source; else nothing.
#[verifier::external_body]
fn parse_glob(pattern: &str, literal_separator: bool) -> (out: Option<globset::Glob>)
    ensures
        out is Some <==> glob_parses(pattern@, literal_separator),
        out matches Some(glob) ==> glob_source(glob) == (pattern@, literal_separator),
{
    globset::GlobBuilder::new(pattern).literal_separator(literal_separator).build().ok()
}

/// `GlobSetBuilder::new` of globset: a builder that holds no glob.
#[verifier::external_body]
fn new_builder() -> (builder: globset::GlobSetBuilder)
    ensures
        builder_globs(builder) == Seq::<(Seq<char>, bool)>::empty(),
{
    globset::GlobSetBuilder::new()
}

/// `GlobSetBuilder::add` of globset: the glob joins the builder's globs at
/// the end.
#[verifier::external_body]
fn add_glob(builder: &mut globset::GlobSetBuilder, glob: globset::Glob)
    ensures
        builder_globs(*final(builder)) == builder_globs(*old(builder)).push(glob_source(glob)),
{
    builder.add(glob);
}

/// `GlobSetBuilder::build` of globset: a set of the builder's globs where
/// `set_builds` holds of their sources; else nothing.
#[verifier::external_body]
fn build_set(builder: &globset::GlobSetBuilder) -> (out: Option<globset::GlobSet>)
    ensures
        out is Some <==> set_builds(builder_globs(*builder)),
        out matches Some(set) ==> set_globs(set) == builder_globs(*builder),
{
    builder.build().ok()
}

/// `GlobSet::is_match` of globset: whether any glob of the set matches the
/// path.
#[verifier::external_body]
fn set_is_match(set: &globset::GlobSet, candidate: &str) -> (matched: bool)
    ensures
        matched == (exists|i: int|
            0 <= i && i < set_globs(*set).len() && glob_matches(
                (#[trigger] set_globs(*set)[i]).0,
                set_globs(*set)[i].1,
                candidate@,
            )),
{
    set.is_match(candidate)
}

/// At least one of `patterns` matches `candidate`.
pub open spec fn any_matches(patterns: Seq<Seq<char>>, candidate: Seq<char>) -> bool {
    exists|i: int|
        0 <= i < patterns.len() && glob_matches(#[trigger] patterns[i], LITERAL_SEPARATOR, candidate)
}

/// The patterns of a list that parse, in order.
pub open spec fn parsed_patterns(patterns: Seq<Seq<char>>) -> Seq<Seq<char>> {
    patterns.filter(|pattern: Seq<char>| glob_parses(pattern, LITERAL_SEPARATOR))
}

/// The sources of the globs parsed from `patterns`.
pub open spec fn glob_sources(patterns: Seq<Seq<char>>) -> Seq<(Seq<char>, bool)> {
    patterns.map_values(|pattern: Seq<char>| (pattern, LITERAL_SEPARATOR))
}

/// The patterns that a list contributes to matching: those that parse,
/// provided there is at least one and a set can be built of them.
pub open spec fn usable_patterns(patterns: Seq<Seq<char>>) -> Option<Seq<Seq<char>>> {
    let parsed = parsed_patterns(patterns);
    if parsed.len() > 0 && set_builds(glob_sources(parsed)) {
        Some(parsed)
    } else {
        None
    }
}

/// A list of patterns matches `candidate`: one of its usable patterns does.
/// A list without usable patterns matches nothing.
pub open spec fn stage_matches(patterns: Seq<Seq<char>>, candidate: Seq<char>) -> bool {
    match usable_patterns(patterns) {
        Some(usable) => any_matches(usable, candidate),
        None => false,
    }
}

/// A record with this relative path is selected: its normalized path matches
/// the list `includes`, or that list is empty; and it does not match the list
/// `excludes`.
pub open spec fn selected(
    includes: Seq<Seq<char>>,
    excludes: Seq<Seq<char>>,
    relative_path: Seq<char>,
) -> bool {
    let candidate = normalized(relative_path);
    (includes.len() == 0 || stage_matches(includes, candidate)) && !stage_matches(
        excludes,
        candidate,
    )
}

/// The records that pass the filter, in their order.
pub open spec fn filtered(
    records: Seq<RecordView>,
    includes: Seq<Seq<char>>,
    excludes: Seq<Seq<char>>,
) -> Seq<RecordView> {
    records.filter(|record: RecordView| selected(includes, excludes, record.relative_path))
}

/// A set compiled from a list of patterns holds the globs of the list's
/// usable patterns; no set stands for a list without usable patterns.
pub open spec fn compiled_from(set: Option<globset::GlobSet>, patterns: Seq<Seq<char>>) -> bool {
    match set {
        Some(compiled) => usable_patterns(patterns) matches Some(usable) && set_globs(compiled)
            == glob_sources(usable),
        None => usable_patterns(patterns) is None,
    }
}

/// Compiles a list of patterns: those that do not parse are left out; nothing
/// comes back where none parses or no set can be built of those that do.
fn compile_globset(patterns: &[String]) -> (out: Option<globset::GlobSet>)
    ensures
        compiled_from(out, texts(patterns@)),
{
    if patterns.len() == 0 {
        proof {
            reveal(Seq::filter);
            assert(parsed_patterns(texts(patterns@)).len() == 0);
        }
        return None;
    }
    let mut builder = new_builder();
    let mut has_pattern = false;
    let ghost all = texts(patterns@);
    let mut i: usize = 0;
    proof {
        reveal(Seq::filter);
        assert(all.take(0) =~= Seq::<Seq<char>>::empty());
        assert(glob_sources(parsed_patterns(all.take(0))) =~= Seq::<(Seq<char>, bool)>::empty());
    }
    while i < patterns.len()
        invariant
            i <= patterns.len(),
            all == texts(patterns@),
            builder_globs(builder) == glob_sources(parsed_patterns(all.take(i as int))),
            has_pattern == (parsed_patterns(all.take(i as int)).len() > 0),
        decreases patterns.len() - i,
    {
        let ghost before = parsed_patterns(all.take(i as int));
        match parse_glob(patterns[i].as_str(), LITERAL_SEPARATOR) {
            Some(glob) => {
                add_glob(&mut builder, glob);
                has_pattern = true;
            },
            None => {},
        }
        proof {
            reveal(Seq::filter);
            let pattern = patterns@[i as int]@;
            assert(all.take(i + 1).drop_last() == all.take(i as int));
            assert(all.take(i + 1).last() == pattern);
            if glob_parses(pattern, LITERAL_SEPARATOR) {
                assert(glob_sources(before.push(pattern)) =~= glob_sources(before).push(
                    (pattern, LITERAL_SEPARATOR),
                ));
            }
        }
        i += 1;
    }
    proof {
        assert(all.take(patterns.len() as int) == all);
    }
    if !has_pattern {
        return None;
    }
    build_set(&builder)
}

/// Whether a compiled list of patterns matches `candidate`; a list that gave
/// no set matches nothing.
fn stage_is_match(set: &Option<globset::GlobSet>, candidate: &str, Ghost(patterns): Ghost<
    Seq<Seq<char>>,
>) -> (matched: bool)
    requires
        compiled_from(*set, patterns),
    ensures
        matched == stage_matches(patterns, candidate@),
{
    match set {
        Some(compiled) => {
            let matched = set_is_match(compiled, candidate);
            proof {
                let usable = usable_patterns(patterns)->0;
                let globs = set_globs(*compiled);
                if matched {
                    let i = choose|i: int|
                        0 <= i && i < globs.len() && glob_matches(
                            (#[trigger] globs[i]).0,
                            globs[i].1,
                            candidate@,
                        );
                    assert(globs[i] == (usable[i], LITERAL_SEPARATOR));
                    assert(glob_matches(usable[i], LITERAL_SEPARATOR, candidate@));
                }
                if any_matches(usable, candidate@) {
                    let i = choose|i: int|
                        0 <= i < usable.len() && glob_matches(
                            #[trigger] usable[i],
                            LITERAL_SEPARATOR,
                            candidate@,
                        );
                    assert(globs[i] == (usable[i], LITERAL_SEPARATOR));
                    assert(glob_matches(globs[i].0, globs[i].1, candidate@));
                }
            }
            matched
        },
        None => false,
    }
}

/// Keeps the records whose normalized relative path matches at least one
/// pattern of `includes`, or all where that list is empty, and matches no
/// pattern of `excludes`. The records kept stay in their order.
pub fn apply_filters(records: Vec<VacuumRecord>, includes: &[String], excludes: &[String]) -> (kept:
    Vec<VacuumRecord>)
    ensures
        record_views(kept@) == filtered(
            record_views(records@),
            texts(includes@),
            texts(excludes@),
        ),
{
    let wanted = compile_globset(includes);
    let unwanted = compile_globset(excludes);
    let take_all = includes.len() == 0;
    let ghost views = record_views(records@);
    let ghost ins = texts(includes@);
    let ghost outs = texts(excludes@);
    let mut kept: Vec<VacuumRecord> = Vec::new();
    proof {
        reveal(Seq::filter);
        assert(views.take(0) =~= Seq::<RecordView>::empty());
        assert(record_views(kept@) =~= Seq::<RecordView>::empty());
    }
    for record in it: records
        invariant
            it.seq() == records@,
            views == record_views(records@),
            ins == texts(includes@),
            outs == texts(excludes@),
            take_all == (ins.len() == 0),
            compiled_from(wanted, ins),
            compiled_from(unwanted, outs),
            record_views(kept@) == filtered(views.take(it.index() as int), ins, outs),
    {
        let ghost before = record_views(kept@);
        let candidate = normalize_relative(record.relative_path.as_str());
        let included = take_all || stage_is_match(&wanted, candidate.as_str(), Ghost(ins));
        let keep = included && !stage_is_match(&unwanted, candidate.as_str(), Ghost(outs));
        proof {
            let k = it.index() as int;
            reveal(Seq::filter);
            assert(views.take(k + 1).drop_last() == views.take(k));
            assert(views.take(k + 1).last() == record@);
            assert(keep == selected(ins, outs, record@.relative_path));
        }
        if keep {
            kept.push(record);
            proof {
                assert(record_views(kept@) =~= before.push(record@));
            }
        }
    }
    proof {
        assert(views.take(views.len() as int) == views);
    }
    kept
}

/// The patterns that parse are those of the list of which `glob_parses`
/// holds.
pub proof fn lemma_parsed_patterns_members(patterns: Seq<Seq<char>>, pattern: Seq<char>)
    ensures
        parsed_patterns(patterns).contains(pattern) <==> patterns.contains(pattern) && glob_parses(
            pattern,
            LITERAL_SEPARATOR,
        ),
{
    broadcast use vstd::seq_lib::group_filter_ensures;

    let parses = |pattern: Seq<char>| glob_parses(pattern, LITERAL_SEPARATOR);
    if parsed_patterns(patterns).contains(pattern) {
        patterns.lemma_filter_contains_rev(parses, pattern);
        let i = choose|i: int|
            0 <= i < parsed_patterns(patterns).len() && parsed_patterns(patterns)[i] == pattern;
        assert(parses(parsed_patterns(patterns)[i]));
    }
    if patterns.contains(pattern) && glob_parses(pattern, LITERAL_SEPARATOR) {
        let i = choose|i: int| 0 <= i < patterns.len() && patterns[i] == pattern;
        assert(parses(patterns[i]));
    }
}

/// With no pattern in `includes` every record passes the inclusion stage: it
/// is selected exactly when `excludes` does not match it. With no pattern at
/// all every record is selected.
pub proof fn lemma_empty_includes_match_everything(
    excludes: Seq<Seq<char>>,
    relative_path: Seq<char>,
)
    ensures
        selected(Seq::empty(), excludes, relative_path) == !stage_matches(
            excludes,
            normalized(relative_path),
        ),
        selected(Seq::empty(), Seq::empty(), relative_path),
{
    assert(parsed_patterns(Seq::empty()).len() == 0) by {
        Seq::<Seq<char>>::empty().lemma_filter_len(
            |pattern: Seq<char>| glob_parses(pattern, LITERAL_SEPARATOR),
        );
    }
}

/// Where `includes` is not empty, a record that none of its patterns matches
/// is dropped. A pattern that does not parse matches nothing, so a list of
/// which no pattern parses drops every record.
pub proof fn lemma_unmatched_is_dropped(
    includes: Seq<Seq<char>>,
    excludes: Seq<Seq<char>>,
    relative_path: Seq<char>,
)
    ensures
        includes.len() > 0 && (forall|i: int|
            0 <= i < includes.len() ==> !(glob_parses(#[trigger] includes[i], LITERAL_SEPARATOR)
                && glob_matches(includes[i], LITERAL_SEPARATOR, normalized(relative_path))))
            ==> !selected(includes, excludes, relative_path),
{
    let candidate = normalized(relative_path);
    if includes.len() > 0 && (forall|i: int|
        0 <= i < includes.len() ==> !(glob_parses(#[trigger] includes[i], LITERAL_SEPARATOR)
            && glob_matches(includes[i], LITERAL_SEPARATOR, candidate))) {
        if stage_matches(includes, candidate) {
            let usable = usable_patterns(includes)->0;
            let k = choose|k: int|
                0 <= k < usable.len() && glob_matches(
                    #[trigger] usable[k],
                    LITERAL_SEPARATOR,
                    candidate,
                );
            assert(usable.contains(usable[k]));
            lemma_parsed_patterns_members(includes, usable[k]);
            let i = choose|i: int| 0 <= i < includes.len() && includes[i] == usable[k];
            assert(glob_parses(includes[i], LITERAL_SEPARATOR) && glob_matches(
                includes[i],
                LITERAL_SEPARATOR,
                candidate,
            ));
        }
    }
}

/// A pattern of `excludes` parses and matches the record's normalized path.
pub open spec fn excluded_by_a_pattern(excludes: Seq<Seq<char>>, relative_path: Seq<char>) -> bool {
    exists|i: int|
        0 <= i < excludes.len() && glob_parses(#[trigger] excludes[i], LITERAL_SEPARATOR)
            && glob_matches(excludes[i], LITERAL_SEPARATOR, normalized(relative_path))
}

/// A record that a pattern of `excludes` matches is dropped even if a pattern
/// of `includes` matches it, provided globset builds a set of the patterns
/// of `excludes` that parse. Where it builds none, the list excludes nothing,
/// and such a record is selected exactly when `includes` lets it pass.
pub proof fn lemma_excluded_is_dropped(
    includes: Seq<Seq<char>>,
    excludes: Seq<Seq<char>>,
    relative_path: Seq<char>,
)
    ensures
        excluded_by_a_pattern(excludes, relative_path) && set_builds(
            glob_sources(parsed_patterns(excludes)),
        ) ==> !selected(includes, excludes, relative_path),
        excluded_by_a_pattern(excludes, relative_path) && !set_builds(
            glob_sources(parsed_patterns(excludes)),
        ) ==> selected(includes, excludes, relative_path) == (includes.len() == 0 || stage_matches(
            includes,
            normalized(relative_path),
        )),
{
    let candidate = normalized(relative_path);
    if excluded_by_a_pattern(excludes, relative_path) && set_builds(
        glob_sources(parsed_patterns(excludes)),
    ) {
        let i = choose|i: int|
            0 <= i < excludes.len() && glob_parses(#[trigger] excludes[i], LITERAL_SEPARATOR)
                && glob_matches(excludes[i], LITERAL_SEPARATOR, candidate);
        assert(excludes.contains(excludes[i]));
        lemma_parsed_patterns_members(excludes, excludes[i]);
        let parsed = parsed_patterns(excludes);
        let k = choose|k: int| 0 <= k < parsed.len() && parsed[k] == excludes[i];
        assert(glob_matches(parsed[k], LITERAL_SEPARATOR, candidate));
        assert(stage_matches(excludes, candidate));
    }
}

/// The filter keeps exactly the records that are selected.
pub proof fn lemma_filtered_members(
    records: Seq<RecordView>,
    includes: Seq<Seq<char>>,
    excludes: Seq<Seq<char>>,
    record: RecordView,
)
    ensures
        filtered(records, includes, excludes).contains(record) <==> records.contains(record)
            && selected(includes, excludes, record.relative_path),
{
    broadcast use vstd::seq_lib::group_filter_ensures;

    let keep = |record: RecordView| selected(includes, excludes, record.relative_path);
    let kept = filtered(records, includes, excludes);
    if kept.contains(record) {
        records.lemma_filter_contains_rev(keep, record);
        let i = choose|i: int| 0 <= i < kept.len() && kept[i] == record;
        assert(keep(kept[i]));
    }
    if records.contains(record) && selected(includes, excludes, record.relative_path) {
        let i = choose|i: int| 0 <= i < records.len() && records[i] == record;
        assert(keep(records[i]));
    }
}

} // verus!
