use kebab::ingest_progress::{IngestCounts, IngestEvent, ProgressAction, ProgressDisplay};

fn counts(scanned: u64, errors: u64) -> IngestCounts {
    IngestCounts { scanned, new: 1, updated: 2, skipped: 0, errors }
}

fn lines(actions: &[ProgressAction]) -> Vec<String> {
    actions
        .iter()
        .filter_map(|a| match a {
            ProgressAction::Line { text } => Some(text.clone()),
            _ => None,
        })
        .collect()
}

fn timings_event(idx: u32, parse: u64, embed: u64, ocr: u64) -> IngestEvent {
    IngestEvent::AssetTimings {
        idx,
        parse_ms: parse,
        chunk_ms: 10,
        embed_ms: embed,
        store_ms: 5,
        ocr_ms: ocr,
        caption_ms: 0,
    }
}

#[test]
fn non_tty_run_prints_one_line_per_event() {
    let mut d = ProgressDisplay::new();
    let a = d.handle_human(&IngestEvent::ScanStarted { root: "/ws".into() }, false, false);
    assert!(matches!(&a[0], ProgressAction::NewBar { message, visible: false, tick_ms: None } if message == "scanning /ws"));
    assert_eq!(lines(&a), vec!["ingest: scanning /ws…".to_string()]);
    assert!(d.bar);

    let a = d.handle_human(&IngestEvent::ScanCompleted { total: 2 }, false, false);
    assert!(matches!(a[0], ProgressAction::CounterLayout { length: 2, tick_ms: None }));
    assert_eq!(lines(&a), vec!["ingest: scan complete (2 assets)".to_string()]);

    let a = d.handle_human(
        &IngestEvent::AssetStarted { idx: 1, total: 2, path: "notes/a.md".into(), media: "markdown".into() },
        false,
        false,
    );
    assert!(matches!(a[0], ProgressAction::StartClock));
    assert!(matches!(a[1], ProgressAction::SetPosition { pos: 0 }));
    assert!(matches!(&a[2], ProgressAction::SetMessage { message } if message == "notes/a.md"));
    assert_eq!(lines(&a), vec!["ingest: 1/2 markdown notes/a.md".to_string()]);
    assert!(d.clock);

    let a = d.handle_human(
        &IngestEvent::AssetPhase { idx: 1, total: 2, phase: "embed".into(), model: Some("e5".into()) },
        false,
        false,
    );
    assert!(matches!(&a[0], ProgressAction::SetMessage { message } if message == "notes/a.md · embed(e5)…"));
    assert_eq!(lines(&a), vec!["ingest: 1/2 · embed(e5)…".to_string()]);

    let a = d.handle_human(&IngestEvent::AssetChunked { idx: 1, total: 2, chunks: 7 }, false, false);
    assert_eq!(lines(&a), vec!["ingest: 1/2 → 7 chunks".to_string()]);

    let a = d.handle_human(&timings_event(1, 100, 2000, 0), false, false);
    assert!(matches!(&a[0], ProgressAction::SetMessage { message } if message.is_empty()));
    assert!(matches!(
        a[1],
        ProgressAction::TimingLine { parse_ms: 100, chunk_ms: 10, ocr_ms: None, caption_ms: None, embed_ms: 2000, store_ms: 5 }
    ));
    assert_eq!(d.timings, vec![("notes/a.md".to_string(), 2115)]);

    let a = d.handle_human(&IngestEvent::AssetFinished, false, false);
    assert!(matches!(a[0], ProgressAction::StopClock));
    assert!(!d.clock);
    assert_eq!(d.current_path, None);

    let a = d.handle_human(&IngestEvent::Completed { counts: counts(2, 0) }, false, false);
    assert!(matches!(a[0], ProgressAction::FinishAndClear));
    assert!(matches!(a[1], ProgressAction::StopClock));
    assert_eq!(lines(&a), vec!["ingest: complete (scanned=2 new=1 updated=2 skipped=0 errors=0)".to_string()]);
    match &a[3] {
        ProgressAction::Slowest { top } => assert_eq!(top, &vec![("notes/a.md".to_string(), 2115)]),
        other => panic!("expected the slowest summary, got {other:?}"),
    }
    assert!(!d.bar);
}

#[test]
fn tty_run_draws_the_bar_and_prints_no_event_lines() {
    let mut d = ProgressDisplay::new();
    let a = d.handle_human(&IngestEvent::ScanStarted { root: "/ws".into() }, true, false);
    assert!(matches!(a[0], ProgressAction::NewBar { visible: true, tick_ms: Some(100), .. }));
    assert!(lines(&a).is_empty());
    let a = d.handle_human(&IngestEvent::ScanCompleted { total: 3 }, true, false);
    assert!(matches!(a[0], ProgressAction::CounterLayout { length: 3, tick_ms: Some(1000) }));
    assert!(lines(&a).is_empty());
}

#[test]
fn quiet_mode_writes_nothing() {
    let mut d = ProgressDisplay::new();
    let events = vec![
        IngestEvent::ScanStarted { root: "/ws".into() },
        IngestEvent::ScanCompleted { total: 1 },
        IngestEvent::AssetStarted { idx: 1, total: 1, path: "a.md".into(), media: "markdown".into() },
        timings_event(1, 1, 1, 1),
        IngestEvent::PdfOcrStarted { page: 1 },
        IngestEvent::Completed { counts: counts(1, 0) },
    ];
    for e in &events {
        let a = d.handle_human(e, true, true);
        for act in &a {
            assert!(
                !matches!(
                    act,
                    ProgressAction::Line { .. } | ProgressAction::TimingLine { .. } | ProgressAction::Slowest { .. }
                ),
                "quiet mode produced {act:?}"
            );
            if let ProgressAction::NewBar { visible, tick_ms, .. } = act {
                assert!(!visible && tick_ms.is_none());
            }
        }
    }
}

#[test]
fn abort_leaves_the_bar_with_progress() {
    let mut d = ProgressDisplay::new();
    d.handle_human(&IngestEvent::ScanStarted { root: "/ws".into() }, false, false);
    let a = d.handle_human(&IngestEvent::Aborted { counts: counts(5, 2) }, false, false);
    assert!(matches!(&a[0], ProgressAction::Abandon { message } if message == "aborted at 3/5"));
    assert_eq!(lines(&a), vec!["ingest: aborted (scanned=5 new=1 updated=2 skipped=0 errors=2)".to_string()]);
    assert!(!d.bar);
}

#[test]
fn pdf_ocr_lines() {
    let mut d = ProgressDisplay::new();
    let a = d.handle_human(&IngestEvent::PdfOcrStarted { page: 4 }, true, false);
    assert_eq!(lines(&a), vec!["  📷 OCR page 4...".to_string()]);
    let a = d.handle_human(
        &IngestEvent::PdfOcrFinished { page: 4, ms: 812, chars: 1200, ocr_engine: "paddle".into(), skipped: false },
        true,
        false,
    );
    assert_eq!(lines(&a), vec!["  ✓ OCR page 4 (1200 chars, 812ms via paddle)".to_string()]);
    let a = d.handle_human(
        &IngestEvent::PdfOcrFinished { page: 5, ms: 3, chars: 0, ocr_engine: "paddle".into(), skipped: true },
        true,
        false,
    );
    assert_eq!(lines(&a), vec!["  ⊘ OCR page 5 skipped (no DCTDecode or engine fail, 3ms)".to_string()]);
}

#[test]
fn events_without_a_bar_skip_bar_operations() {
    let mut d = ProgressDisplay::new();
    let a = d.handle_human(&IngestEvent::ScanCompleted { total: 3 }, true, false);
    assert!(a.is_empty());
    let a = d.handle_human(&IngestEvent::Completed { counts: counts(0, 0) }, true, false);
    assert!(matches!(a[0], ProgressAction::StopClock));
    assert_eq!(a.len(), 2, "no summary without timings: {a:?}");
}

#[test]
fn timings_for_unknown_asset_are_not_recorded_and_ocr_shows_when_it_ran() {
    let mut d = ProgressDisplay::new();
    let a = d.handle_human(&timings_event(9, 1, 1, 40), false, false);
    assert!(d.timings.is_empty());
    assert!(matches!(a[0], ProgressAction::TimingLine { ocr_ms: Some(40), caption_ms: None, .. }));
}
