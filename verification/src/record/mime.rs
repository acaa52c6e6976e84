//! The MIME type that an extension suggests.

use vstd::prelude::*;

use crate::record::builder::text_of_str;
use crate::text::{
    eq_ignore_ascii_case, lemma_ascii_case_match_carries, matches_ignoring_ascii_case,
};

verus! {

/// The MIME type that the table gives for an extension with its leading dot,
/// ASCII letters taken without case; `None` where the table has no entry.
pub open spec fn mime_for(extension: Seq<char>) -> Option<Seq<char>> {
    if matches_ignoring_ascii_case(extension, ".csv"@) {
        Some("text/csv"@)
    } else if matches_ignoring_ascii_case(extension, ".tsv"@) {
        Some("text/tab-separated-values"@)
    } else if matches_ignoring_ascii_case(extension, ".txt"@) {
        Some("text/plain"@)
    } else if matches_ignoring_ascii_case(extension, ".json"@) {
        Some("application/json"@)
    } else if matches_ignoring_ascii_case(extension, ".jsonl"@) {
        Some("application/x-jsonlines"@)
    } else if matches_ignoring_ascii_case(extension, ".xml"@) {
        Some("application/xml"@)
    } else if matches_ignoring_ascii_case(extension, ".pdf"@) {
        Some("application/pdf"@)
    } else if matches_ignoring_ascii_case(extension, ".xlsx"@) {
        Some("application/vnd.openxmlformats-officedocument.spreadsheetml.sheet"@)
    } else if matches_ignoring_ascii_case(extension, ".xls"@) {
        Some("application/vnd.ms-excel"@)
    } else if matches_ignoring_ascii_case(extension, ".parquet"@) {
        Some("application/vnd.apache.parquet"@)
    } else if matches_ignoring_ascii_case(extension, ".zip"@) {
        Some("application/zip"@)
    } else if matches_ignoring_ascii_case(extension, ".gz"@) {
        Some("application/gzip"@)
    } else if matches_ignoring_ascii_case(extension, ".yaml"@)
        || matches_ignoring_ascii_case(extension, ".yml"@) {
        Some("application/x-yaml"@)
    } else {
        None
    }
}

/// The MIME type guessed for an optional extension: none for none.
pub open spec fn mime_guess_for(extension: Option<Seq<char>>) -> Option<Seq<char>> {
    match extension {
        Some(extension) => mime_for(extension),
        None => None,
    }
}

/// The guess does not depend on the case of ASCII letters: extensions that
/// differ in it alone get the same guess.
pub proof fn lemma_mime_ignores_ascii_case(a: Seq<char>, b: Seq<char>)
    requires
        matches_ignoring_ascii_case(a, b),
    ensures
        mime_for(a) == mime_for(b),
{
    lemma_ascii_case_match_carries(a, b, ".csv"@);
    lemma_ascii_case_match_carries(a, b, ".tsv"@);
    lemma_ascii_case_match_carries(a, b, ".txt"@);
    lemma_ascii_case_match_carries(a, b, ".json"@);
    lemma_ascii_case_match_carries(a, b, ".jsonl"@);
    lemma_ascii_case_match_carries(a, b, ".xml"@);
    lemma_ascii_case_match_carries(a, b, ".pdf"@);
    lemma_ascii_case_match_carries(a, b, ".xlsx"@);
    lemma_ascii_case_match_carries(a, b, ".xls"@);
    lemma_ascii_case_match_carries(a, b, ".parquet"@);
    lemma_ascii_case_match_carries(a, b, ".zip"@);
    lemma_ascii_case_match_carries(a, b, ".gz"@);
    lemma_ascii_case_match_carries(a, b, ".yaml"@);
    lemma_ascii_case_match_carries(a, b, ".yml"@);
}

/// The MIME type for a file extension, from the extension alone.
pub fn guess_from_extension(extension: Option<&str>) -> (guess: Option<&'static str>)
    ensures
        text_of_str(guess) == mime_guess_for(text_of_str(extension)),
{
    let extension = match extension {
        Some(extension) => extension,
        None => {
            return None;
        },
    };
    if eq_ignore_ascii_case(extension, ".csv") {
        Some("text/csv")
    } else if eq_ignore_ascii_case(extension, ".tsv") {
        Some("text/tab-separated-values")
    } else if eq_ignore_ascii_case(extension, ".txt") {
        Some("text/plain")
    } else if eq_ignore_ascii_case(extension, ".json") {
        Some("application/json")
    } else if eq_ignore_ascii_case(extension, ".jsonl") {
        Some("application/x-jsonlines")
    } else if eq_ignore_ascii_case(extension, ".xml") {
        Some("application/xml")
    } else if eq_ignore_ascii_case(extension, ".pdf") {
        Some("application/pdf")
    } else if eq_ignore_ascii_case(extension, ".xlsx") {
        Some("application/vnd.openxmlformats-officedocument.spreadsheetml.sheet")
    } else if eq_ignore_ascii_case(extension, ".xls") {
        Some("application/vnd.ms-excel")
    } else if eq_ignore_ascii_case(extension, ".parquet") {
        Some("application/vnd.apache.parquet")
    } else if eq_ignore_ascii_case(extension, ".zip") {
        Some("application/zip")
    } else if eq_ignore_ascii_case(extension, ".gz") {
        Some("application/gzip")
    } else if eq_ignore_ascii_case(extension, ".yaml") || eq_ignore_ascii_case(
        extension,
        ".yml",
    ) {
        Some("application/x-yaml")
    } else {
        None
    }
}

} // verus!
