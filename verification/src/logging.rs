//! How the operational logs are written.

use vstd::prelude::*;

use crate::text;

verus! {

/// The level and the format of the logs.
#[derive(Debug)]
pub struct LogConfig {
    pub level: String,
    /// `json`, `text`, or anything else to let the terminal decide.
    pub format: String,
}

impl Default for LogConfig {
    fn default() -> (r: Self)
        ensures
            r.level@ == "info"@,
            r.format@ == "auto"@,
    {
        LogConfig { level: "info".to_owned(), format: "auto".to_owned() }
    }
}

/// Whether logs are lines of JSON: as the format says, else wherever no terminal reads them.
pub open spec fn json_lines(format: Seq<char>, terminal: bool) -> bool {
    if format == "json"@ {
        true
    } else if format == "text"@ {
        false
    } else {
        !terminal
    }
}

/// Whether logs are lines of JSON.
pub fn wants_json(cfg: &LogConfig, terminal: bool) -> (r: bool)
    ensures
        r == json_lines(cfg.format@, terminal),
{
    if text::same(&cfg.format, "json") {
        true
    } else if text::same(&cfg.format, "text") {
        false
    } else {
        !terminal
    }
}

/// Logs are lines of JSON or of text as the format says, and where it says neither, JSON exactly where no
/// terminal reads them.
pub proof fn a_format_is_honoured(format: Seq<char>, terminal: bool)
    ensures
        json_lines("json"@, terminal),
        !json_lines("text"@, terminal),
        format != "json"@ && format != "text"@ ==> json_lines(format, terminal) == !terminal,
{
    reveal_strlit("json");
    reveal_strlit("text");
    assert("json"@[0] == 'j' && "text"@[0] == 't');
}

} // verus!
