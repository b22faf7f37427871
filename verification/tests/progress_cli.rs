use kebab::cli::{confirmation_accepted, orphan_prompt, parse_bool_env, sigint_action, SigintAction};
use kebab::progress::{abbreviate_path, slowest_assets, ProgressMode};

#[test]
fn from_flags_json_takes_priority_over_tty() {
    assert_eq!(ProgressMode::from_flags(true, false, false, true), ProgressMode::Json);
    assert_eq!(ProgressMode::from_flags(true, true, true, false), ProgressMode::Json);
}

#[test]
fn from_flags_human_reflects_stderr_tty() {
    match ProgressMode::from_flags(false, false, false, false) {
        ProgressMode::Human { .. } => {}
        other => panic!("expected Human mode, got {other:?}"),
    }
    assert_eq!(
        ProgressMode::from_flags(false, false, false, true),
        ProgressMode::Human { tty: true, quiet: false }
    );
    assert_eq!(
        ProgressMode::from_flags(false, false, false, false),
        ProgressMode::Human { tty: false, quiet: false }
    );
}

#[test]
fn from_flags_quiet_sets_quiet_field() {
    match ProgressMode::from_flags(false, true, false, false) {
        ProgressMode::Human { quiet: true, .. } => {}
        other => panic!("expected Human{{quiet:true}}, got {other:?}"),
    }
}

#[test]
fn from_flags_plain_env_forces_tty_false() {
    match ProgressMode::from_flags(false, false, true, true) {
        ProgressMode::Human { tty: false, .. } => {}
        other => panic!("expected Human{{tty:false}}, got {other:?}"),
    }
}

#[test]
fn abbreviate_path_passes_short_paths_through() {
    assert_eq!(abbreviate_path("notes/foo.md"), "notes/foo.md");
}

#[test]
fn abbreviate_path_keeps_tail_with_ellipsis() {
    let long = "a/very/deeply/nested/directory/structure/that/exceeds/the/budget/file.md";
    let out = abbreviate_path(long);
    assert!(out.starts_with('…'), "should be prefixed with ellipsis: {out}");
    assert!(out.ends_with("file.md"), "should keep the filename tail: {out}");
    assert_eq!(out.chars().count(), 48);
}

#[test]
fn abbreviate_path_boundary_is_48_chars() {
    let exact: String = "x".repeat(48);
    assert_eq!(abbreviate_path(&exact), exact);
    let over: String = format!("y{}", "x".repeat(48));
    assert_eq!(abbreviate_path(&over), format!("…{}", "x".repeat(47)));
}

#[test]
fn slowest_assets_empty_gives_nothing() {
    assert!(slowest_assets(&vec![], 5).is_empty());
}

#[test]
fn slowest_assets_sorts_desc_and_truncates() {
    let timings = vec![
        ("a.md".to_string(), 100),
        ("b.png".to_string(), 5_000),
        ("c.pdf".to_string(), 2_000),
        ("d.md".to_string(), 50),
    ];
    let top = slowest_assets(&timings, 2);
    assert_eq!(top, vec![("b.png".to_string(), 5_000), ("c.pdf".to_string(), 2_000)]);
}

#[test]
fn slowest_assets_tie_breaks_by_path() {
    let timings = vec![("z.md".to_string(), 1_000), ("a.md".to_string(), 1_000)];
    let top = slowest_assets(&timings, 5);
    assert_eq!(top, vec![("a.md".to_string(), 1_000), ("z.md".to_string(), 1_000)]);
}

#[test]
fn slowest_assets_keeps_every_entry_when_n_is_large() {
    let timings = vec![("b".to_string(), 1), ("a".to_string(), 3), ("c".to_string(), 2)];
    let top = slowest_assets(&timings, 10);
    assert_eq!(
        top,
        vec![("a".to_string(), 3), ("c".to_string(), 2), ("b".to_string(), 1)]
    );
}

#[test]
fn cancel_module_compiles() {
    let _ = sigint_action;
}

#[test]
fn first_sigint_cancels_and_later_ones_exit_130() {
    assert_eq!(sigint_action(0), SigintAction::Cancel);
    assert_eq!(sigint_action(1), SigintAction::Exit(130));
    assert_eq!(sigint_action(255), SigintAction::Exit(130));
}

#[test]
fn parse_bool_env_accepts_documented_words() {
    for s in ["1", "true", "YES", "On"] {
        assert_eq!(parse_bool_env(s), Ok(true), "{s}");
    }
    for s in ["0", "False", "no", "OFF"] {
        assert_eq!(parse_bool_env(s), Ok(false), "{s}");
    }
}

#[test]
fn parse_bool_env_rejects_other_words_with_debug_quoted_value() {
    assert_eq!(
        parse_bool_env("Maybe"),
        Err("expected 1/0/true/false/yes/no/on/off, got \"maybe\"".to_string())
    );
}

#[test]
fn prompt_answers_accept_only_y_or_yes() {
    for s in ["y\n", "Y", " yes ", "YES\r\n"] {
        assert!(confirmation_accepted(s), "{s:?}");
    }
    for s in ["", "\n", "n", "yeah", "ye s"] {
        assert!(!confirmation_accepted(s), "{s:?}");
    }
}

#[test]
fn orphan_prompt_shows_count_and_a_sample_of_five() {
    let few: Vec<String> = vec!["a.md".into(), "b.md".into()];
    let (first, second) = orphan_prompt(&few);
    assert_eq!(first, "Purge 2 stored doc(s) outside the current walker scope? (no filesystem paths removed)");
    assert_eq!(second, "  sample: a.md, b.md");
    let many: Vec<String> = (1..=7).map(|i| format!("n{i}.md")).collect();
    let (first, second) = orphan_prompt(&many);
    assert!(first.starts_with("Purge 7 "));
    assert_eq!(second, "  sample: n1.md, n2.md, n3.md, n4.md, n5.md, …");
}
