//! Overrides from the environment.

use crate::text::{same_text, to_lowercase};
use vstd::prelude::*;

verus! {

broadcast use vstd::string::group_string_axioms;

/// The lowercase texts that switch an override on.
pub open spec fn is_truthy_text(low: Seq<char>) -> bool {
    low == "1"@ || low == "true"@ || low == "yes"@ || low == "on"@
}

/// Whether models are to be loaded in this process rather than in the shared
/// daemon, given the value of the environment variable `ENGRAMDB_IN_PROCESS`.
/// Anything but a truthy text, an unset variable too, is `false`.
pub fn in_process_override(value: Option<&str>) -> (r: bool)
    ensures
        r == (match value {
            Some(v) => is_truthy_text(crate::text::unicode_lowercase(v@)),
            None => false,
        }),
        value matches Some(v) ==> crate::text::is_ascii_text(v@) ==> r == is_truthy_text(
            crate::text::ascii_lowercase(v@),
        ),
{
    match value {
        Some(v) => {
            let lowered = to_lowercase(v);
            let low = lowered.as_str();
            same_text(low, "1") || same_text(low, "true") || same_text(low, "yes") || same_text(
                low,
                "on",
            )
        },
        None => false,
    }
}

} // verus!
