//! The `error.v1` shape of a failed command: a stable machine code, a
//! message, structured details and an optional hint, chosen by the kind of
//! error; and the process exit code of a failure.

use vstd::prelude::*;
use crate::config::ConfigInvalid;
use crate::model::clone_strings;

verus! {

/// The kinds of failure a command reports, with what the report needs.
#[derive(Debug)]
pub enum ErrorSignal {
    /// The config file could not be read or parsed.
    ConfigInvalid(ConfigInvalid),
    /// The index is missing; `message` is the error's own text.
    NotIndexed { message: String, expected: String, found: Option<String> },
    /// The model server could not be reached; `source` is the transport
    /// error's text.
    LlmUnreachable { endpoint: String, source: String },
    /// The model is not pulled on the server.
    LlmModelNotPulled { model: String },
    /// The model server timed out; `source` is the timeout's text.
    LlmTimeout { source: String },
    /// The model server answered with an HTTP error body.
    LlmStream { body: String },
    /// The model server sent a line that does not parse.
    LlmMalformed { line: String },
    /// An I/O error: its text and its kind's name.
    Io { message: String, kind: String },
    /// Anything else: its text and the texts of its cause chain, outermost
    /// first.
    Generic { message: String, chain: Vec<String> },
}

/// A value of the `details` object.
#[derive(Debug, PartialEq, Eq)]
pub enum DetailValue {
    Text(String),
    Null,
    List(Vec<String>),
}

/// The `error.v1` payload; `details` are the object's members in order.
#[derive(Debug)]
pub struct ErrorV1 {
    pub code: String,
    pub message: String,
    pub details: Vec<(String, DetailValue)>,
    pub hint: Option<String>,
}

pub enum DetailView {
    Text(Seq<char>),
    Null,
    List(Seq<Seq<char>>),
}

pub struct ErrorV1View {
    pub code: Seq<char>,
    pub message: Seq<char>,
    pub details: Seq<(Seq<char>, DetailView)>,
    pub hint: Option<Seq<char>>,
}

impl View for DetailValue {
    type V = DetailView;

    open spec fn view(&self) -> DetailView {
        match self {
            DetailValue::Text(s) => DetailView::Text(s@),
            DetailValue::Null => DetailView::Null,
            DetailValue::List(v) => DetailView::List(v@.map_values(|s: String| s@)),
        }
    }
}

impl View for ErrorV1 {
    type V = ErrorV1View;

    open spec fn view(&self) -> ErrorV1View {
        ErrorV1View {
            code: self.code@,
            message: self.message@,
            details: self.details@.map_values(|d: (String, DetailValue)| (d.0@, d.1@)),
            hint: match self.hint {
                Some(h) => Some(h@),
                None => None,
            },
        }
    }
}

pub open spec fn text_detail(key: Seq<char>, value: Seq<char>) -> (Seq<char>, DetailView) {
    (key, DetailView::Text(value))
}

/// The report of `s`; the cause chain is included only when `verbose`.
pub open spec fn classify_spec(s: ErrorSignal, verbose: bool) -> ErrorV1View {
    match s {
        ErrorSignal::ConfigInvalid(c) => ErrorV1View {
            code: "config_invalid"@,
            message: "config invalid at "@ + c.path@ + ": "@ + c.cause@,
            details: seq![text_detail("path"@, c.path@), text_detail("cause"@, c.cause@)],
            hint: Some("check `--config <path>` and TOML syntax"@),
        },
        ErrorSignal::NotIndexed { message, expected, found } => ErrorV1View {
            code: "not_indexed"@,
            message: message@,
            details: seq![
                text_detail("expected"@, expected@),
                (
                    "found"@,
                    match found {
                        Some(f) => DetailView::Text(f@),
                        None => DetailView::Null,
                    },
                ),
            ],
            hint: Some("run `kebab init` then `kebab ingest`"@),
        },
        ErrorSignal::LlmUnreachable { endpoint, source } => ErrorV1View {
            code: "model_unreachable"@,
            message: "ollama unreachable at "@ + endpoint@,
            details: seq![text_detail("endpoint"@, endpoint@), text_detail("source"@, source@)],
            hint: Some("ensure `ollama serve` is reachable at "@ + endpoint@),
        },
        ErrorSignal::LlmModelNotPulled { model } => ErrorV1View {
            code: "model_not_pulled"@,
            message: "ollama model `"@ + model@ + "` is not pulled"@,
            details: seq![text_detail("model"@, model@)],
            hint: Some("run `ollama pull "@ + model@ + "`"@),
        },
        ErrorSignal::LlmTimeout { source } => ErrorV1View {
            code: "timeout"@,
            message: "ollama timeout: "@ + source@,
            details: seq![text_detail("source"@, source@)],
            hint: Some("increase timeout or check Ollama load"@),
        },
        ErrorSignal::LlmStream { body } => ErrorV1View {
            code: "generic"@,
            message: "ollama HTTP error: "@ + body@,
            details: seq![text_detail("body"@, body@)],
            hint: None,
        },
        ErrorSignal::LlmMalformed { line } => ErrorV1View {
            code: "generic"@,
            message: "malformed response line: "@ + line@,
            details: seq![text_detail("line"@, line@)],
            hint: None,
        },
        ErrorSignal::Io { message, kind } => ErrorV1View {
            code: "io_error"@,
            message: message@,
            details: seq![text_detail("kind"@, kind@)],
            hint: None,
        },
        ErrorSignal::Generic { message, chain } => ErrorV1View {
            code: "generic"@,
            message: message@,
            details: if verbose {
                seq![("chain"@, DetailView::List(chain@.map_values(|s: String| s@)))]
            } else {
                seq![]
            },
            hint: None,
        },
    }
}

fn concat2(a: &str, b: &str) -> (res: String)
    ensures
        res@ == a@ + b@,
{
    let mut s = String::from_str(a);
    s.append(b);
    s
}

fn concat3(a: &str, b: &str, c: &str) -> (res: String)
    ensures
        res@ == a@ + b@ + c@,
{
    let mut s = String::from_str(a);
    s.append(b);
    s.append(c);
    s
}

fn text_pair(key: &str, value: &String) -> (res: (String, DetailValue))
    ensures
        (res.0@, res.1@) == text_detail(key@, value@),
{
    (String::from_str(key), DetailValue::Text(value.clone()))
}

/// Map a failure to its `error.v1` report (see `classify_spec`).
pub fn classify(s: &ErrorSignal, verbose: bool) -> (res: ErrorV1)
    ensures
        res@ == classify_spec(*s, verbose),
{
    let res = match s {
        ErrorSignal::ConfigInvalid(c) => {
            let mut d: Vec<(String, DetailValue)> = Vec::new();
            d.push(text_pair("path", &c.path));
            d.push(text_pair("cause", &c.cause));
            ErrorV1 {
                code: String::from_str("config_invalid"),
                message: c.message(),
                details: d,
                hint: Some(String::from_str("check `--config <path>` and TOML syntax")),
            }
        },
        ErrorSignal::NotIndexed { message, expected, found } => {
            let mut d: Vec<(String, DetailValue)> = Vec::new();
            d.push(text_pair("expected", expected));
            let f = match found {
                Some(f) => DetailValue::Text(f.clone()),
                None => DetailValue::Null,
            };
            d.push((String::from_str("found"), f));
            ErrorV1 {
                code: String::from_str("not_indexed"),
                message: message.clone(),
                details: d,
                hint: Some(String::from_str("run `kebab init` then `kebab ingest`")),
            }
        },
        ErrorSignal::LlmUnreachable { endpoint, source } => {
            let mut d: Vec<(String, DetailValue)> = Vec::new();
            d.push(text_pair("endpoint", endpoint));
            d.push(text_pair("source", source));
            ErrorV1 {
                code: String::from_str("model_unreachable"),
                message: concat2("ollama unreachable at ", endpoint.as_str()),
                details: d,
                hint: Some(concat2("ensure `ollama serve` is reachable at ", endpoint.as_str())),
            }
        },
        ErrorSignal::LlmModelNotPulled { model } => {
            let mut d: Vec<(String, DetailValue)> = Vec::new();
            d.push(text_pair("model", model));
            ErrorV1 {
                code: String::from_str("model_not_pulled"),
                message: concat3("ollama model `", model.as_str(), "` is not pulled"),
                details: d,
                hint: Some(concat3("run `ollama pull ", model.as_str(), "`")),
            }
        },
        ErrorSignal::LlmTimeout { source } => {
            let mut d: Vec<(String, DetailValue)> = Vec::new();
            d.push(text_pair("source", source));
            ErrorV1 {
                code: String::from_str("timeout"),
                message: concat2("ollama timeout: ", source.as_str()),
                details: d,
                hint: Some(String::from_str("increase timeout or check Ollama load")),
            }
        },
        ErrorSignal::LlmStream { body } => {
            let mut d: Vec<(String, DetailValue)> = Vec::new();
            d.push(text_pair("body", body));
            ErrorV1 {
                code: String::from_str("generic"),
                message: concat2("ollama HTTP error: ", body.as_str()),
                details: d,
                hint: None,
            }
        },
        ErrorSignal::LlmMalformed { line } => {
            let mut d: Vec<(String, DetailValue)> = Vec::new();
            d.push(text_pair("line", line));
            ErrorV1 {
                code: String::from_str("generic"),
                message: concat2("malformed response line: ", line.as_str()),
                details: d,
                hint: None,
            }
        },
        ErrorSignal::Io { message, kind } => {
            let mut d: Vec<(String, DetailValue)> = Vec::new();
            d.push(text_pair("kind", kind));
            ErrorV1 { code: String::from_str("io_error"), message: message.clone(), details: d, hint: None }
        },
        ErrorSignal::Generic { message, chain } => {
            let mut d: Vec<(String, DetailValue)> = Vec::new();
            if verbose {
                d.push((String::from_str("chain"), DetailValue::List(clone_strings(chain))));
            }
            ErrorV1 { code: String::from_str("generic"), message: message.clone(), details: d, hint: None }
        },
    };
    proof {
        assert(res@.details =~= classify_spec(*s, verbose).details);
    }
    res
}

/// What a failure means for the process status.
#[derive(PartialEq, Eq, Structural, Clone, Copy, Debug)]
pub enum ExitSignal {
    /// The answer was refused (score gate, verification).
    Refusal,
    /// The search found nothing.
    NoHit,
    /// `doctor` found a problem.
    DoctorUnhealthy,
    /// Any other error.
    Other,
}

/// The exit status of a failure: 1 for a refusal or no hit, 3 for an
/// unhealthy doctor, 2 for any other error.
pub fn exit_code(s: ExitSignal) -> (res: u8)
    ensures
        res == match s {
            ExitSignal::Refusal => 1u8,
            ExitSignal::NoHit => 1u8,
            ExitSignal::DoctorUnhealthy => 3u8,
            ExitSignal::Other => 2u8,
        },
{
    match s {
        ExitSignal::Refusal => 1,
        ExitSignal::NoHit => 1,
        ExitSignal::DoctorUnhealthy => 3,
        ExitSignal::Other => 2,
    }
}

} // verus!
