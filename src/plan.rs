use vstd::prelude::*;

use crate::text::{lower_of, lowercase};

verus! {

/// Output format for the shopping list.
#[derive(Clone, Copy, Debug, PartialEq, Eq, Structural)]
pub enum OutputFormat {
    Text,
    Json,
    Compact,
}

impl Default for OutputFormat {
    fn default() -> (r: Self)
        ensures
            r == OutputFormat::Text,
    {
        OutputFormat::Text
    }
}

/// The message for an unknown format name.
pub open spec fn unknown_format_message(name: Seq<char>) -> Seq<char> {
    "unknown format: "@ + name + " (expected text, json, or compact)"@
}

impl OutputFormat {
    /// Parse a format name, ignoring case: `text`, `json` or `compact`.
    pub fn parse(s: &str) -> (r: Result<Self, String>)
        ensures
            lower_of(s@) == "text"@ ==> r == Ok::<OutputFormat, String>(OutputFormat::Text),
            lower_of(s@) == "json"@ ==> r == Ok::<OutputFormat, String>(OutputFormat::Json),
            lower_of(s@) == "compact"@ ==> r == Ok::<OutputFormat, String>(OutputFormat::Compact),
            lower_of(s@) != "text"@ && lower_of(s@) != "json"@ && lower_of(s@) != "compact"@ ==> (
            r matches Err(m) && m@ == unknown_format_message(lower_of(s@))),
    {
        proof {
            reveal_strlit("text");
            reveal_strlit("json");
            reveal_strlit("compact");
            assert("json"@[0] != "text"@[0]);
            assert("compact"@.len() != "text"@.len());
            assert("compact"@.len() != "json"@.len());
        }
        let lower = lowercase(s);
        if lower == "text".to_owned() {
            Ok(OutputFormat::Text)
        } else if lower == "json".to_owned() {
            Ok(OutputFormat::Json)
        } else if lower == "compact".to_owned() {
            Ok(OutputFormat::Compact)
        } else {
            let mut m = "unknown format: ".to_owned();
            m.append(lower.as_str());
            m.append(" (expected text, json, or compact)");
            Err(m)
        }
    }
}

impl std::str::FromStr for OutputFormat {
    type Err = String;

    fn from_str(s: &str) -> Result<Self, String> {
        OutputFormat::parse(s)
    }
}

} // verus!
