use kebab::paths::{expand_path, expand_path_with_base};

fn s(v: &str) -> Option<String> {
    Some(v.to_string())
}

const HOME: &str = "/home/tester";

#[test]
fn substitutes_data_dir_template() {
    assert_eq!(expand_path("{data_dir}/runs", "/tmp/kbtest", &None, &s(HOME)), "/tmp/kbtest/runs");
}

#[test]
fn data_dir_substitution_skipped_when_empty() {
    assert_eq!(expand_path("{data_dir}/runs", "", &None, &s(HOME)), "{data_dir}/runs");
}

#[test]
fn passthrough_absolute_path() {
    assert_eq!(expand_path("/abs/runs", "/ignored", &None, &s(HOME)), "/abs/runs");
}

#[test]
fn xdg_data_home_set_replaces_var() {
    let p = expand_path("${XDG_DATA_HOME:-~/.local/share}/kebab", "", &s("/custom/path"), &s(HOME));
    assert_eq!(p, "/custom/path/kebab");
}

#[test]
fn xdg_data_home_unset_uses_default() {
    let p = expand_path("${XDG_DATA_HOME:-~/.local/share}/kebab", "", &None, &s(HOME));
    assert_eq!(p, "/home/tester/.local/share/kebab");
}

#[test]
fn xdg_data_home_empty_is_treated_as_unset() {
    let p = expand_path("${XDG_DATA_HOME:-~/.local/share}/kebab", "", &s(""), &s(HOME));
    assert_eq!(p, "/home/tester/.local/share/kebab");
}

#[test]
fn xdg_with_no_default_resolves_to_empty_when_unset() {
    assert_eq!(expand_path("${XDG_DATA_HOME}/kb", "", &None, &s(HOME)), "/kb");
}

#[test]
fn leading_tilde_expands_to_home() {
    assert_eq!(expand_path("~/runs", "", &None, &s(HOME)), "/home/tester/runs");
}

#[test]
fn tilde_without_home_stays_literal() {
    assert_eq!(expand_path("~/runs", "", &None, &None), "~/runs");
}

#[test]
fn relative_path_resolves_against_base_dir() {
    let base = "/tmp/kebab-cfg";
    assert_eq!(expand_path_with_base("notes", "", base, &None, &s(HOME)), "/tmp/kebab-cfg/notes");
    assert_eq!(expand_path_with_base("./notes", "", base, &None, &s(HOME)), "/tmp/kebab-cfg/./notes");
    assert_eq!(
        expand_path_with_base("../parent/x", "", base, &None, &s(HOME)),
        "/tmp/kebab-cfg/../parent/x"
    );
}

#[test]
fn absolute_path_ignores_base_dir() {
    assert_eq!(expand_path_with_base("/abs/notes", "", "/tmp/ignored-cfg", &None, &s(HOME)), "/abs/notes");
}

#[test]
fn tilde_path_ignores_base_dir() {
    assert_eq!(expand_path_with_base("~/x", "", "/tmp/ignored-cfg", &None, &s(HOME)), "/home/tester/x");
}

#[test]
fn xdg_var_path_ignores_base_dir() {
    assert_eq!(
        expand_path_with_base("${XDG_DATA_HOME}/kb", "", "/tmp/ignored-cfg", &s("/xdg/data"), &s(HOME)),
        "/xdg/data/kb"
    );
}

#[test]
fn data_dir_then_xdg_then_tilde_compose() {
    assert_eq!(expand_path("{data_dir}/runs", "/xdg/data/kebab", &s("/xdg/data"), &s(HOME)), "/xdg/data/kebab/runs");
}
