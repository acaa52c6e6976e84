//! Where the audit ledger lives.

use vstd::prelude::*;

use crate::record::builder::text_of_str;
use crate::record::path::{join, path_joined};

verus! {

/// The directory that holds the ledger by default.
pub const LEDGER_DIRECTORY: &'static str = ".epistemic";

/// The ledger's file name.
pub const LEDGER_FILE: &'static str = "witness.jsonl";

/// Where the ledger lives: at the configured path where one is given; else
/// in the ledger directory under the home directory, or under the user
/// profile where no home is known; else in the ledger directory under the
/// working directory.
pub open spec fn ledger_path(
    configured: Option<Seq<char>>,
    home: Option<Seq<char>>,
    user_profile: Option<Seq<char>>,
) -> Seq<char> {
    match (configured, home, user_profile) {
        (Some(path), _, _) => path,
        (None, Some(base), _) => path_joined(path_joined(base, LEDGER_DIRECTORY@), LEDGER_FILE@),
        (None, None, Some(base)) => path_joined(
            path_joined(base, LEDGER_DIRECTORY@),
            LEDGER_FILE@,
        ),
        (None, None, None) => path_joined(LEDGER_DIRECTORY@, LEDGER_FILE@),
    }
}

/// Resolves the ledger's path from the three settings that may place it.
pub fn resolve_ledger_path(
    configured: Option<&str>,
    home: Option<&str>,
    user_profile: Option<&str>,
) -> (path: String)
    ensures
        path@ == ledger_path(
            text_of_str(configured),
            text_of_str(home),
            text_of_str(user_profile),
        ),
{
    match configured {
        Some(path) => {
            return path.to_string();
        },
        None => {},
    }
    let base = match home {
        Some(home) => Some(home),
        None => user_profile,
    };
    match base {
        Some(base) => {
            let directory = join(base, LEDGER_DIRECTORY);
            join(directory.as_str(), LEDGER_FILE)
        },
        None => join(LEDGER_DIRECTORY, LEDGER_FILE),
    }
}

} // verus!
