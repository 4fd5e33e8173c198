//! How this program names itself and its version.

use vstd::prelude::*;
use vstd::string::StringExecFns;

verus! {

/// What stands for the commit where none is known.
pub const UNKNOWN_COMMIT: &'static str = "unknown commit";

/// The text of a version: `v`, the package version, and the commit in
/// parentheses.
pub open spec fn version_text(version: Seq<char>, commit: Option<Seq<char>>) -> Seq<char> {
    "v"@ + version + " ("@ + match commit {
        Some(hash) => hash,
        None => UNKNOWN_COMMIT@,
    } + ")"@
}

/// The text of a generator label: the program's name, a space and its
/// version.
pub open spec fn generator_text(version: Seq<char>) -> Seq<char> {
    "errornowatcher "@ + version
}

/// Formats the package version and the short hash of the commit it was built
/// from, with `unknown commit` where there is no hash.
pub fn version_formatted(version: &str, commit: Option<&str>) -> (text: String)
    ensures
        text@ == version_text(
            version@,
            match commit {
                Some(hash) => Some(hash@),
                None => None,
            },
        ),
{
    let mut text = String::from_str("v");
    text.append(version);
    text.append(" (");
    match commit {
        Some(hash) => text.append(hash),
        None => text.append(UNKNOWN_COMMIT),
    }
    text.append(")");
    text
}

/// The label under which this program signs the recordings it makes.
pub fn generator(version: &str) -> (text: String)
    ensures
        text@ == generator_text(version@),
{
    let mut text = String::from_str("errornowatcher ");
    text.append(version);
    text
}

} // verus!
