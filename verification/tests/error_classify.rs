use kebab::config::ConfigInvalid;
use kebab::error_classify::{classify, exit_code, DetailValue, ErrorSignal, ExitSignal};

fn detail<'a>(details: &'a [(String, DetailValue)], key: &str) -> Option<&'a DetailValue> {
    details.iter().find(|(k, _)| k == key).map(|(_, v)| v)
}

#[test]
fn config_invalid_classifies_to_config_invalid_code() {
    let s = ErrorSignal::ConfigInvalid(ConfigInvalid { path: "/tmp/x.toml".into(), cause: "missing".into() });
    let v1 = classify(&s, false);
    assert_eq!(v1.code, "config_invalid");
    assert_eq!(detail(&v1.details, "path"), Some(&DetailValue::Text("/tmp/x.toml".into())));
    assert!(v1.hint.is_some());
    assert_eq!(v1.message, "config invalid at /tmp/x.toml: missing");
}

#[test]
fn not_indexed_classifies_correctly() {
    let s = ErrorSignal::NotIndexed { message: "index missing".into(), expected: "/data/k.sqlite".into(), found: None };
    let v1 = classify(&s, false);
    assert_eq!(v1.code, "not_indexed");
    assert_eq!(detail(&v1.details, "found"), Some(&DetailValue::Null));
    assert_eq!(v1.hint.as_deref(), Some("run `kebab init` then `kebab ingest`"));
}

#[test]
fn llm_unreachable_classifies_to_model_unreachable() {
    let s = ErrorSignal::LlmUnreachable { endpoint: "http://127.0.0.1:1".into(), source: "connection refused".into() };
    let v1 = classify(&s, false);
    assert_eq!(v1.code, "model_unreachable");
    assert_eq!(v1.message, "ollama unreachable at http://127.0.0.1:1");
    assert_eq!(v1.hint.as_deref(), Some("ensure `ollama serve` is reachable at http://127.0.0.1:1"));
}

#[test]
fn model_not_pulled_classifies_correctly() {
    let v1 = classify(&ErrorSignal::LlmModelNotPulled { model: "gemma4:e4b".into() }, false);
    assert_eq!(v1.code, "model_not_pulled");
    assert_eq!(detail(&v1.details, "model"), Some(&DetailValue::Text("gemma4:e4b".into())));
    assert_eq!(v1.message, "ollama model `gemma4:e4b` is not pulled");
    assert_eq!(v1.hint.as_deref(), Some("run `ollama pull gemma4:e4b`"));
}

#[test]
fn unknown_error_classifies_to_generic() {
    let v1 = classify(&ErrorSignal::Generic { message: "something else".into(), chain: vec!["something else".into()] }, false);
    assert_eq!(v1.code, "generic");
    assert!(v1.hint.is_none());
    assert!(v1.details.is_empty());
}

#[test]
fn generic_with_verbose_includes_chain() {
    let s = ErrorSignal::Generic {
        message: "leaf".into(),
        chain: vec!["leaf".into(), "middle".into(), "root".into()],
    };
    let v1 = classify(&s, true);
    assert_eq!(v1.code, "generic");
    match detail(&v1.details, "chain") {
        Some(DetailValue::List(chain)) => assert_eq!(chain.len(), 3),
        other => panic!("expected a chain, got {other:?}"),
    }
}

#[test]
fn io_error_classifies_correctly() {
    let v1 = classify(&ErrorSignal::Io { message: "no such file".into(), kind: "NotFound".into() }, false);
    assert_eq!(v1.code, "io_error");
    assert_eq!(detail(&v1.details, "kind"), Some(&DetailValue::Text("NotFound".into())));
}

#[test]
fn llm_timeout_stream_and_malformed_codes() {
    assert_eq!(classify(&ErrorSignal::LlmTimeout { source: "30s".into() }, false).code, "timeout");
    let stream = classify(&ErrorSignal::LlmStream { body: "500".into() }, false);
    assert_eq!((stream.code.as_str(), stream.message.as_str()), ("generic", "ollama HTTP error: 500"));
    let bad = classify(&ErrorSignal::LlmMalformed { line: "{".into() }, false);
    assert_eq!(bad.message, "malformed response line: {");
}

#[test]
fn exit_codes_by_signal() {
    assert_eq!(exit_code(ExitSignal::Refusal), 1);
    assert_eq!(exit_code(ExitSignal::NoHit), 1);
    assert_eq!(exit_code(ExitSignal::DoctorUnhealthy), 3);
    assert_eq!(exit_code(ExitSignal::Other), 2);
}
