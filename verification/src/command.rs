//! The subcommands of the `kebab` command line, as far as the library
//! decides on them: which ones write to the store (and so are refused in
//! readonly mode), which queries they refuse, and how the `--mode` and
//! `--trust-min` flags map onto the search settings.

use vstd::prelude::*;
use vstd::std_specs::convert::FromSpecImpl;
use crate::error_classify::{ErrorV1, ErrorV1View};
use crate::korean::{all_ws, is_blank};
use crate::text::chars_of;

verus! {

/// A `kebab` subcommand.
#[derive(Clone, Copy, Debug, PartialEq, Eq, Structural)]
pub enum Command {
    Init,
    Config,
    Ingest,
    List,
    Inspect,
    Fetch,
    Search,
    Ask,
    Reset,
    Doctor,
    Schema,
    Eval,
    Mcp,
    IngestFile,
    IngestStdin,
}

/// The subcommands that write to the store: the three ingest forms and
/// `reset`.
pub open spec fn mutating_spec(cmd: Command) -> bool {
    match cmd {
        Command::Ingest | Command::IngestFile | Command::IngestStdin | Command::Reset => true,
        _ => false,
    }
}

/// Whether `cmd` writes to the store (refused under `--readonly`).
pub fn is_mutating(cmd: &Command) -> (res: bool)
    ensures
        res == mutating_spec(*cmd),
{
    match cmd {
        Command::Ingest | Command::IngestFile | Command::IngestStdin | Command::Reset => true,
        _ => false,
    }
}

/// The `invalid_input` report for an empty or whitespace-only query of
/// `search` (anything else: `ask`).
pub open spec fn empty_query_report(cmd: Command) -> ErrorV1View {
    if cmd == Command::Search {
        ErrorV1View {
            code: "invalid_input"@,
            message: "query is empty; provide a non-empty search term or use --bulk"@,
            details: seq![],
            hint: Some("e.g. `kebab search 'rust async'` or `kebab search --bulk < queries.ndjson`"@),
        }
    } else {
        ErrorV1View {
            code: "invalid_input"@,
            message: "query is empty; provide a non-empty prompt"@,
            details: seq![],
            hint: Some("e.g. `kebab ask \"explain this code\"`"@),
        }
    }
}

/// Check the query of `search` or `ask`: a query that is empty or all
/// whitespace is refused with an `invalid_input` report.
pub fn validate_query(cmd: Command, query: &str) -> (res: Result<(), ErrorV1>)
    ensures
        match res {
            Ok(()) => !all_ws(query@),
            Err(e) => all_ws(query@) && e@ == empty_query_report(cmd),
        },
{
    let chars = chars_of(query);
    if !is_blank(&chars) {
        return Ok(());
    }
    let e = match cmd {
        Command::Search => ErrorV1 {
            code: String::from_str("invalid_input"),
            message: String::from_str("query is empty; provide a non-empty search term or use --bulk"),
            details: Vec::new(),
            hint: Some(
                String::from_str("e.g. `kebab search 'rust async'` or `kebab search --bulk < queries.ndjson`"),
            ),
        },
        _ => ErrorV1 {
            code: String::from_str("invalid_input"),
            message: String::from_str("query is empty; provide a non-empty prompt"),
            details: Vec::new(),
            hint: Some(String::from_str("e.g. `kebab ask \"explain this code\"`")),
        },
    };
    proof {
        assert(e@.details =~= Seq::<(Seq<char>, crate::error_classify::DetailView)>::empty());
    }
    Err(e)
}

/// The `--mode` flag of `search` and `ask`.
#[derive(Clone, Copy, Debug, PartialEq, Eq, Structural)]
pub enum ModeFlag {
    Lexical,
    Vector,
    Hybrid,
}

/// The retrieval mode of a search.
#[derive(Clone, Copy, Debug, PartialEq, Eq, Structural)]
pub enum SearchMode {
    Lexical,
    Vector,
    Hybrid,
}

impl From<ModeFlag> for SearchMode {
    fn from(m: ModeFlag) -> (res: SearchMode) {
        match m {
            ModeFlag::Lexical => SearchMode::Lexical,
            ModeFlag::Vector => SearchMode::Vector,
            ModeFlag::Hybrid => SearchMode::Hybrid,
        }
    }
}

impl FromSpecImpl<ModeFlag> for SearchMode {
    open spec fn obeys_from_spec() -> bool {
        true
    }

    open spec fn from_spec(m: ModeFlag) -> SearchMode {
        match m {
            ModeFlag::Lexical => SearchMode::Lexical,
            ModeFlag::Vector => SearchMode::Vector,
            ModeFlag::Hybrid => SearchMode::Hybrid,
        }
    }
}

/// The `--trust-min` flag of `search`.
#[derive(Clone, Copy, Debug, PartialEq, Eq, Structural)]
pub enum TrustLevelFlag {
    Primary,
    Secondary,
    Generated,
}

/// How far a source is trusted.
#[derive(Clone, Copy, Debug, PartialEq, Eq, Structural)]
pub enum TrustLevel {
    Primary,
    Secondary,
    Generated,
}

impl From<TrustLevelFlag> for TrustLevel {
    fn from(f: TrustLevelFlag) -> (res: TrustLevel) {
        match f {
            TrustLevelFlag::Primary => TrustLevel::Primary,
            TrustLevelFlag::Secondary => TrustLevel::Secondary,
            TrustLevelFlag::Generated => TrustLevel::Generated,
        }
    }
}

impl FromSpecImpl<TrustLevelFlag> for TrustLevel {
    open spec fn obeys_from_spec() -> bool {
        true
    }

    open spec fn from_spec(f: TrustLevelFlag) -> TrustLevel {
        match f {
            TrustLevelFlag::Primary => TrustLevel::Primary,
            TrustLevelFlag::Secondary => TrustLevel::Secondary,
            TrustLevelFlag::Generated => TrustLevel::Generated,
        }
    }
}

} // verus!
