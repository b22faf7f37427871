//! The human-mode progress display of `kebab ingest` as a state machine.
//!
//! The display consumes ingest events one at a time. For each event it
//! updates its own state (whether a progress bar exists, whether the
//! per-asset heartbeat clock runs, the asset in flight, the paths by
//! asset index and the per-asset timings) and answers with the actions the
//! caller performs on the terminal: progress-bar operations, clock
//! start/stop, and lines on stderr. Durations stay numbers in the actions;
//! the caller renders them.

use vstd::prelude::*;
use std::collections::HashMap;
use crate::hashing::{decimal, push_decimal};
use crate::progress::{abbreviate_path, abbreviate_spec, rank_sort, slowest_assets, timings_view, SLOWEST_TOP_N};
use crate::text::{chars_of, string_from_chars};

verus! {

broadcast use vstd::std_specs::hash::group_hash_axioms;

/// Per-run totals reported when an ingest run ends.
#[derive(Clone, Copy, Debug)]
pub struct IngestCounts {
    pub scanned: u64,
    pub new: u64,
    pub updated: u64,
    pub skipped: u64,
    pub errors: u64,
}

/// An event of an ingest run, in the order the run emits them.
#[derive(Debug)]
pub enum IngestEvent {
    /// The workspace scan began at `root`.
    ScanStarted { root: String },
    /// The scan found `total` assets.
    ScanCompleted { total: u32 },
    /// Asset `idx` of `total` (1-based) started.
    AssetStarted { idx: u32, total: u32, path: String, media: String },
    /// The asset in flight finished.
    AssetFinished,
    /// The asset entered a slow phase (`ocr`, `caption`, `embed`), with the
    /// model doing the work when there is one.
    AssetPhase { idx: u32, total: u32, phase: String, model: Option<String> },
    /// The asset was cut into `chunks` chunks.
    AssetChunked { idx: u32, total: u32, chunks: u64 },
    /// Milliseconds spent in each phase of asset `idx`.
    AssetTimings {
        idx: u32,
        parse_ms: u64,
        chunk_ms: u64,
        embed_ms: u64,
        store_ms: u64,
        ocr_ms: u64,
        caption_ms: u64,
    },
    /// The run completed.
    Completed { counts: IngestCounts },
    /// The run was cancelled.
    Aborted { counts: IngestCounts },
    /// OCR of a scanned PDF page began.
    PdfOcrStarted { page: u32 },
    /// OCR of a scanned PDF page ended (or was skipped).
    PdfOcrFinished { page: u32, ms: u64, chars: u64, ocr_engine: String, skipped: bool },
}

/// What the caller does on the terminal in answer to an event.
#[derive(Debug)]
pub enum ProgressAction {
    /// Replace the progress bar by a spinner showing `message`, drawn on
    /// stderr when `visible` (hidden otherwise), redrawn every `tick_ms`
    /// milliseconds when set.
    NewBar { message: String, visible: bool, tick_ms: Option<u64> },
    /// Turn the bar into an asset counter of `length` at position 0 with an
    /// empty message and the elapsed-time suffix; redraw every `tick_ms`
    /// milliseconds when set, else stop the steady redraw.
    CounterLayout { length: u64, tick_ms: Option<u64> },
    /// Move the bar to `pos`.
    SetPosition { pos: u64 },
    /// Show `message` on the bar.
    SetMessage { message: String },
    /// Finish the bar and clear it from the terminal.
    FinishAndClear,
    /// Leave the bar on the terminal with `message`.
    Abandon { message: String },
    /// (Re)start the per-asset heartbeat clock.
    StartClock,
    /// Stop the per-asset heartbeat clock.
    StopClock,
    /// Write `text` and a newline to stderr.
    Line { text: String },
    /// Write the per-asset phase breakdown to stderr; `ocr_ms` and
    /// `caption_ms` are present only when those phases ran.
    TimingLine {
        parse_ms: u64,
        chunk_ms: u64,
        ocr_ms: Option<u64>,
        caption_ms: Option<u64>,
        embed_ms: u64,
        store_ms: u64,
    },
    /// Write the slowest-assets summary of `top` (already ranked and cut).
    Slowest { top: Vec<(String, u64)> },
}

/// The mathematical form of an action.
pub enum ActionView {
    NewBar { message: Seq<char>, visible: bool, tick_ms: Option<u64> },
    CounterLayout { length: u64, tick_ms: Option<u64> },
    SetPosition { pos: u64 },
    SetMessage { message: Seq<char> },
    FinishAndClear,
    Abandon { message: Seq<char> },
    StartClock,
    StopClock,
    Line { text: Seq<char> },
    TimingLine {
        parse_ms: u64,
        chunk_ms: u64,
        ocr_ms: Option<u64>,
        caption_ms: Option<u64>,
        embed_ms: u64,
        store_ms: u64,
    },
    Slowest { top: Seq<(Seq<char>, u64)> },
}

impl View for ProgressAction {
    type V = ActionView;

    open spec fn view(&self) -> ActionView {
        match self {
            ProgressAction::NewBar { message, visible, tick_ms } => ActionView::NewBar {
                message: message@,
                visible: *visible,
                tick_ms: *tick_ms,
            },
            ProgressAction::CounterLayout { length, tick_ms } => ActionView::CounterLayout {
                length: *length,
                tick_ms: *tick_ms,
            },
            ProgressAction::SetPosition { pos } => ActionView::SetPosition { pos: *pos },
            ProgressAction::SetMessage { message } => ActionView::SetMessage { message: message@ },
            ProgressAction::FinishAndClear => ActionView::FinishAndClear,
            ProgressAction::Abandon { message } => ActionView::Abandon { message: message@ },
            ProgressAction::StartClock => ActionView::StartClock,
            ProgressAction::StopClock => ActionView::StopClock,
            ProgressAction::Line { text } => ActionView::Line { text: text@ },
            ProgressAction::TimingLine { parse_ms, chunk_ms, ocr_ms, caption_ms, embed_ms, store_ms } =>
                ActionView::TimingLine {
                parse_ms: *parse_ms,
                chunk_ms: *chunk_ms,
                ocr_ms: *ocr_ms,
                caption_ms: *caption_ms,
                embed_ms: *embed_ms,
                store_ms: *store_ms,
            },
            ProgressAction::Slowest { top } => ActionView::Slowest { top: timings_view(top@) },
        }
    }
}

/// The actions of a sequence, by their views.
pub open spec fn actions_view(v: Seq<ProgressAction>) -> Seq<ActionView> {
    v.map_values(|a: ProgressAction| a@)
}

/// State of the human-mode display.
pub struct ProgressDisplay {
    /// A progress bar exists.
    pub bar: bool,
    /// The per-asset heartbeat clock runs.
    pub clock: bool,
    /// Path of the asset in flight.
    pub current_path: Option<String>,
    /// Path of each started asset, by index.
    pub asset_paths: HashMap<u32, String>,
    /// `(path, total milliseconds)` of each asset that reported its timings.
    pub timings: Vec<(String, u64)>,
}

/// The mathematical form of the display state.
pub struct DisplayView {
    pub bar: bool,
    pub clock: bool,
    pub current_path: Option<Seq<char>>,
    pub asset_paths: Map<u32, Seq<char>>,
    pub timings: Seq<(Seq<char>, u64)>,
}

pub open spec fn opt_str_view(o: Option<String>) -> Option<Seq<char>> {
    match o {
        Some(s) => Some(s@),
        None => None,
    }
}

impl View for ProgressDisplay {
    type V = DisplayView;

    open spec fn view(&self) -> DisplayView {
        DisplayView {
            bar: self.bar,
            clock: self.clock,
            current_path: opt_str_view(self.current_path),
            asset_paths: self.asset_paths@.map_values(|s: String| s@),
            timings: timings_view(self.timings@),
        }
    }
}

/// The state before the first event.
pub open spec fn initial_view() -> DisplayView {
    DisplayView {
        bar: false,
        clock: false,
        current_path: None,
        asset_paths: Map::empty(),
        timings: seq![],
    }
}

/// Total of an asset's measured phases.
pub open spec fn timings_total(
    parse_ms: u64,
    chunk_ms: u64,
    embed_ms: u64,
    store_ms: u64,
    ocr_ms: u64,
    caption_ms: u64,
) -> int {
    parse_ms + chunk_ms + embed_ms + store_ms + ocr_ms + caption_ms
}

/// The event carries no sum of phase times beyond `u64`.
pub open spec fn event_fits(e: IngestEvent) -> bool {
    match e {
        IngestEvent::AssetTimings { parse_ms, chunk_ms, embed_ms, store_ms, ocr_ms, caption_ms, .. } =>
            timings_total(parse_ms, chunk_ms, embed_ms, store_ms, ocr_ms, caption_ms) <= u64::MAX,
        _ => true,
    }
}

/// `seq![a]` when `c` holds, else nothing.
pub open spec fn emit_if(c: bool, a: ActionView) -> Seq<ActionView> {
    if c {
        seq![a]
    } else {
        seq![]
    }
}

/// `"{idx}/{total}"`.
pub open spec fn of_total(idx: u32, total: u32) -> Seq<char> {
    decimal(idx as nat) + "/"@ + decimal(total as nat)
}

/// The phase label: `phase` or `phase(model)`.
pub open spec fn phase_label(phase: Seq<char>, model: Option<Seq<char>>) -> Seq<char> {
    match model {
        Some(m) => phase + "("@ + m + ")"@,
        None => phase,
    }
}

/// `"scanned=.. new=.. updated=.. skipped=.. errors=.."`.
pub open spec fn counts_text(c: IngestCounts) -> Seq<char> {
    "scanned="@ + decimal(c.scanned as nat) + " new="@ + decimal(c.new as nat) + " updated="@
        + decimal(c.updated as nat) + " skipped="@ + decimal(c.skipped as nat) + " errors="@
        + decimal(c.errors as nat)
}

/// `Some(n)` when `n > 0`.
pub open spec fn if_ran(n: u64) -> Option<u64> {
    if n > 0 {
        Some(n)
    } else {
        None
    }
}

/// The state after `e`.
pub open spec fn next_view(s: DisplayView, e: IngestEvent) -> DisplayView {
    match e {
        IngestEvent::ScanStarted { .. } => DisplayView { bar: true, ..s },
        IngestEvent::AssetStarted { idx, path, .. } => DisplayView {
            clock: true,
            current_path: Some(path@),
            asset_paths: s.asset_paths.insert(idx, path@),
            ..s
        },
        IngestEvent::AssetFinished => DisplayView { clock: false, current_path: None, ..s },
        IngestEvent::AssetTimings { idx, parse_ms, chunk_ms, embed_ms, store_ms, ocr_ms, caption_ms } =>
            if s.asset_paths.contains_key(idx) {
            DisplayView {
                timings: s.timings.push(
                    (
                        s.asset_paths[idx],
                        timings_total(parse_ms, chunk_ms, embed_ms, store_ms, ocr_ms, caption_ms) as u64,
                    ),
                ),
                ..s
            }
        } else {
            s
        },
        IngestEvent::Completed { .. } => DisplayView { bar: false, clock: false, ..s },
        IngestEvent::Aborted { .. } => DisplayView { bar: false, ..s },
        _ => s,
    }
}

/// The actions answering `e` in state `s`; `tty` says stderr is a
/// terminal and `quiet` silences stderr.
pub open spec fn actions_for(s: DisplayView, e: IngestEvent, tty: bool, quiet: bool) -> Seq<ActionView> {
    let live = tty && !quiet;
    let plain = !tty && !quiet;
    match e {
        IngestEvent::ScanStarted { root } => seq![
            ActionView::NewBar {
                message: "scanning "@ + root@,
                visible: live,
                tick_ms: if live { Some(100u64) } else { None },
            },
        ] + emit_if(plain, ActionView::Line { text: "ingest: scanning "@ + root@ + "…"@ }),
        IngestEvent::ScanCompleted { total } => emit_if(
            s.bar,
            ActionView::CounterLayout {
                length: total as u64,
                tick_ms: if live { Some(1000u64) } else { None },
            },
        ) + emit_if(
            plain,
            ActionView::Line { text: "ingest: scan complete ("@ + decimal(total as nat) + " assets)"@ },
        ),
        IngestEvent::AssetStarted { idx, total, path, media } => seq![ActionView::StartClock] + (if s.bar {
            seq![
                ActionView::SetPosition { pos: (if idx > 0 { idx - 1 } else { 0 }) as u64 },
                ActionView::SetMessage { message: abbreviate_spec(path@) },
            ]
        } else {
            seq![]
        }) + emit_if(
            plain,
            ActionView::Line { text: "ingest: "@ + of_total(idx, total) + " "@ + media@ + " "@ + path@ },
        ),
        IngestEvent::AssetFinished => seq![ActionView::StopClock],
        IngestEvent::AssetPhase { idx, total, phase, model } => emit_if(
            s.bar,
            ActionView::SetMessage {
                message: abbreviate_spec(
                    match s.current_path {
                        Some(p) => p,
                        None => seq![],
                    },
                ) + " · "@ + phase_label(phase@, opt_str_view(model)) + "…"@,
            },
        ) + emit_if(
            plain,
            ActionView::Line {
                text: "ingest: "@ + of_total(idx, total) + " · "@ + phase_label(phase@, opt_str_view(model))
                    + "…"@,
            },
        ),
        IngestEvent::AssetChunked { idx, total, chunks } => emit_if(
            s.bar,
            ActionView::SetMessage { message: "→ "@ + decimal(chunks as nat) + " chunks"@ },
        ) + emit_if(
            plain,
            ActionView::Line {
                text: "ingest: "@ + of_total(idx, total) + " → "@ + decimal(chunks as nat) + " chunks"@,
            },
        ),
        IngestEvent::AssetTimings { parse_ms, chunk_ms, embed_ms, store_ms, ocr_ms, caption_ms, .. } =>
            emit_if(s.bar, ActionView::SetMessage { message: seq![] }) + emit_if(
            !quiet,
            ActionView::TimingLine {
                parse_ms,
                chunk_ms,
                ocr_ms: if_ran(ocr_ms),
                caption_ms: if_ran(caption_ms),
                embed_ms,
                store_ms,
            },
        ),
        IngestEvent::Completed { counts } => emit_if(s.bar, ActionView::FinishAndClear) + seq![
            ActionView::StopClock,
        ] + emit_if(!quiet, ActionView::Line { text: "ingest: complete ("@ + counts_text(counts) + ")"@ })
            + emit_if(
            !quiet && s.timings.len() > 0,
            ActionView::Slowest {
                top: rank_sort(s.timings).take(
                    if s.timings.len() < SLOWEST_TOP_N { s.timings.len() as int } else { SLOWEST_TOP_N as int },
                ),
            },
        ),
        IngestEvent::Aborted { counts } => emit_if(
            s.bar,
            ActionView::Abandon {
                message: "aborted at "@ + decimal(
                    (if counts.scanned >= counts.errors { counts.scanned - counts.errors } else { 0 }) as nat,
                ) + "/"@ + decimal(counts.scanned as nat),
            },
        ) + emit_if(plain, ActionView::Line { text: "ingest: aborted ("@ + counts_text(counts) + ")"@ }),
        IngestEvent::PdfOcrStarted { page } => emit_if(
            !quiet,
            ActionView::Line { text: "  📷 OCR page "@ + decimal(page as nat) + "..."@ },
        ),
        IngestEvent::PdfOcrFinished { page, ms, chars, ocr_engine, skipped } => emit_if(
            !quiet,
            ActionView::Line {
                text: if skipped {
                    "  ⊘ OCR page "@ + decimal(page as nat) + " skipped (no DCTDecode or engine fail, "@
                        + decimal(ms as nat) + "ms)"@
                } else {
                    "  ✓ OCR page "@ + decimal(page as nat) + " ("@ + decimal(chars as nat) + " chars, "@
                        + decimal(ms as nat) + "ms via "@ + ocr_engine@ + ")"@
                },
            },
        ),
    }
}

/// The action writes to stderr: a line, the timing breakdown, the slowest
/// summary, or a bar drawn on the terminal.
pub open spec fn writes_stderr(a: ActionView) -> bool {
    match a {
        ActionView::Line { .. } => true,
        ActionView::TimingLine { .. } => true,
        ActionView::Slowest { .. } => true,
        ActionView::NewBar { visible, tick_ms, .. } => visible || tick_ms is Some,
        ActionView::CounterLayout { tick_ms, .. } => tick_ms is Some,
        _ => false,
    }
}

/// The action operates on the progress bar.
pub open spec fn is_bar_op(a: ActionView) -> bool {
    match a {
        ActionView::CounterLayout { .. } => true,
        ActionView::SetPosition { .. } => true,
        ActionView::SetMessage { .. } => true,
        ActionView::FinishAndClear => true,
        ActionView::Abandon { .. } => true,
        _ => false,
    }
}

/// The event is one whose per-event line is printed only without a
/// terminal (the bar shows it otherwise).
pub open spec fn is_plain_only_event(e: IngestEvent) -> bool {
    match e {
        IngestEvent::ScanStarted { .. } => true,
        IngestEvent::ScanCompleted { .. } => true,
        IngestEvent::AssetStarted { .. } => true,
        IngestEvent::AssetPhase { .. } => true,
        IngestEvent::AssetChunked { .. } => true,
        IngestEvent::Aborted { .. } => true,
        _ => false,
    }
}

/// `--quiet` silences stderr: in quiet mode no event makes the display
/// write anything to stderr, and any bar it creates stays hidden.
pub proof fn lemma_quiet_writes_nothing(s: DisplayView, e: IngestEvent, tty: bool)
    ensures
        forall|k: int|
            0 <= k < actions_for(s, e, tty, true).len() ==> !writes_stderr(
                #[trigger] actions_for(s, e, tty, true)[k],
            ),
{
}

/// On a terminal the scan, asset, phase, chunk and abort events print no
/// line: the progress bar shows them instead.
pub proof fn lemma_tty_shows_progress_on_the_bar(s: DisplayView, e: IngestEvent, quiet: bool)
    requires
        is_plain_only_event(e),
    ensures
        forall|k: int|
            0 <= k < actions_for(s, e, true, quiet).len() ==> !(#[trigger] actions_for(s, e, true, quiet)[k] is Line),
{
}

/// Bar operations are issued only while a bar exists; a missing bar is
/// skipped silently.
pub proof fn lemma_bar_ops_need_a_bar(s: DisplayView, e: IngestEvent, tty: bool, quiet: bool)
    requires
        !s.bar,
    ensures
        forall|k: int|
            0 <= k < actions_for(s, e, tty, quiet).len() ==> !is_bar_op(#[trigger] actions_for(s, e, tty, quiet)[k]),
{
}

/// Recorded timings are never lost: each event keeps the earlier entries
/// and adds at most one.
pub proof fn lemma_timings_only_grow(s: DisplayView, e: IngestEvent)
    ensures
        next_view(s, e).timings.len() <= s.timings.len() + 1,
        s.timings.len() <= next_view(s, e).timings.len(),
        next_view(s, e).timings.take(s.timings.len() as int) == s.timings,
{
    assert(next_view(s, e).timings.take(s.timings.len() as int) =~= s.timings);
}

/// Append the characters of `s`.
fn push_text(out: &mut Vec<char>, s: &str)
    ensures
        final(out)@ == old(out)@ + s@,
{
    let mut c = chars_of(s);
    out.append(&mut c);
}

/// A stderr line of the characters `v`.
fn line_of(v: &Vec<char>) -> (res: ProgressAction)
    ensures
        res@ == (ActionView::Line { text: v@ }),
{
    ProgressAction::Line { text: string_from_chars(v) }
}

/// Append `"{idx}/{total}"`.
fn push_of_total(out: &mut Vec<char>, idx: u32, total: u32)
    ensures
        final(out)@ == old(out)@ + of_total(idx, total),
{
    push_decimal(out, idx as u64);
    out.push('/');
    push_decimal(out, total as u64);
    proof {
        reveal_strlit("/");
        assert(out@ =~= old(out)@ + of_total(idx, total));
    }
}

/// Append the phase label.
fn push_phase_label(out: &mut Vec<char>, phase: &String, model: &Option<String>)
    ensures
        final(out)@ == old(out)@ + phase_label(phase@, opt_str_view(*model)),
{
    push_text(out, phase.as_str());
    match model {
        Some(m) => {
            push_text(out, "(");
            push_text(out, m.as_str());
            push_text(out, ")");
            proof {
                assert(final(out)@ =~= old(out)@ + phase_label(phase@, opt_str_view(*model)));
            }
        },
        None => {},
    }
}

/// Append the run totals.
fn push_counts(out: &mut Vec<char>, c: &IngestCounts)
    ensures
        final(out)@ == old(out)@ + counts_text(*c),
{
    push_text(out, "scanned=");
    push_decimal(out, c.scanned);
    push_text(out, " new=");
    push_decimal(out, c.new);
    push_text(out, " updated=");
    push_decimal(out, c.updated);
    push_text(out, " skipped=");
    push_decimal(out, c.skipped);
    push_text(out, " errors=");
    push_decimal(out, c.errors);
    proof {
        assert(final(out)@ =~= old(out)@ + counts_text(*c));
    }
}

fn clone_timings(v: &Vec<(String, u64)>) -> (res: Vec<(String, u64)>)
    ensures
        timings_view(res@) == timings_view(v@),
{
    let mut out: Vec<(String, u64)> = Vec::new();
    let mut i: usize = 0;
    while i < v.len()
        invariant
            i <= v.len(),
            timings_view(out@) == timings_view(v@).take(i as int),
        decreases v.len() - i,
    {
        let e = (v[i].0.clone(), v[i].1);
        let ghost before = out@;
        out.push(e);
        proof {
            assert(out@ == before.push(e));
            assert(e.0@ == v@[i as int].0@);
            assert(timings_view(out@) =~= timings_view(before).push((e.0@, e.1)));
            assert(timings_view(v@).take(i + 1) =~= timings_view(v@).take(i as int).push((e.0@, e.1)));
        }
        i = i + 1;
    }
    proof {
        assert(timings_view(v@).take(v@.len() as int) =~= timings_view(v@));
    }
    out
}

impl ProgressDisplay {
    /// The display before any event: no bar, no clock, nothing recorded.
    pub fn new() -> (res: Self)
        ensures
            res@ == initial_view(),
    {
        let res = ProgressDisplay {
            bar: false,
            clock: false,
            current_path: None,
            asset_paths: HashMap::new(),
            timings: Vec::new(),
        };
        proof {
            assert(res@.asset_paths =~= Map::<u32, Seq<char>>::empty());
            assert(res@.timings =~= Seq::<(Seq<char>, u64)>::empty());
        }
        res
    }

    /// Take in one event in human mode: update the state and return the
    /// actions to perform, in order (see `next_view` and `actions_for`).
    pub fn handle_human(&mut self, event: &IngestEvent, tty: bool, quiet: bool) -> (actions: Vec<ProgressAction>)
        requires
            event_fits(*event),
        ensures
            final(self)@ == next_view(old(self)@, *event),
            actions_view(actions@) == actions_for(old(self)@, *event, tty, quiet),
    {
        let ghost s0 = self@;
        let live = tty && !quiet;
        let plain = !tty && !quiet;
        let mut out: Vec<ProgressAction> = Vec::new();
        match event {
            IngestEvent::ScanStarted { root } => {
                let mut m = chars_of("scanning ");
                push_text(&mut m, root.as_str());
                let tick: Option<u64> = if live {
                    Some(100)
                } else {
                    None
                };
                out.push(ProgressAction::NewBar { message: string_from_chars(&m), visible: live, tick_ms: tick });
                if plain {
                    let mut t = chars_of("ingest: scanning ");
                    push_text(&mut t, root.as_str());
                    push_text(&mut t, "…");
                    out.push(line_of(&t));
                }
                self.bar = true;
                proof {
                    assert(actions_view(out@) =~= actions_for(s0, *event, tty, quiet));
                }
            },
            IngestEvent::ScanCompleted { total } => {
                if self.bar {
                    let tick: Option<u64> = if live {
                        Some(1000)
                    } else {
                        None
                    };
                    out.push(ProgressAction::CounterLayout { length: *total as u64, tick_ms: tick });
                }
                if plain {
                    let mut t = chars_of("ingest: scan complete (");
                    push_decimal(&mut t, *total as u64);
                    push_text(&mut t, " assets)");
                    out.push(line_of(&t));
                }
                proof {
                    assert(actions_view(out@) =~= actions_for(s0, *event, tty, quiet));
                }
            },
            IngestEvent::AssetStarted { idx, total, path, media } => {
                self.current_path = Some(path.clone());
                let ghost old_paths = self.asset_paths@;
                self.asset_paths.insert(*idx, path.clone());
                proof {
                    assert(self.asset_paths@.map_values(|s: String| s@) =~= old_paths.map_values(
                        |s: String| s@,
                    ).insert(*idx, path@));
                }
                self.clock = true;
                out.push(ProgressAction::StartClock);
                if self.bar {
                    let pos: u64 = if *idx > 0 {
                        (*idx - 1) as u64
                    } else {
                        0
                    };
                    out.push(ProgressAction::SetPosition { pos });
                    out.push(ProgressAction::SetMessage { message: abbreviate_path(path.as_str()) });
                }
                if plain {
                    let mut t = chars_of("ingest: ");
                    push_of_total(&mut t, *idx, *total);
                    push_text(&mut t, " ");
                    push_text(&mut t, media.as_str());
                    push_text(&mut t, " ");
                    push_text(&mut t, path.as_str());
                    out.push(line_of(&t));
                }
                proof {
                    assert(actions_view(out@) =~= actions_for(s0, *event, tty, quiet));
                }
            },
            IngestEvent::AssetFinished => {
                self.clock = false;
                self.current_path = None;
                out.push(ProgressAction::StopClock);
                proof {
                    assert(actions_view(out@) =~= actions_for(s0, *event, tty, quiet));
                }
            },
            IngestEvent::AssetPhase { idx, total, phase, model } => {
                if self.bar {
                    let shown = match &self.current_path {
                        Some(p) => abbreviate_path(p.as_str()),
                        None => abbreviate_path(""),
                    };
                    let mut m = chars_of(shown.as_str());
                    push_text(&mut m, " · ");
                    push_phase_label(&mut m, phase, model);
                    push_text(&mut m, "…");
                    proof {
                        reveal_strlit("");
                    }
                    out.push(ProgressAction::SetMessage { message: string_from_chars(&m) });
                }
                if plain {
                    let mut t = chars_of("ingest: ");
                    push_of_total(&mut t, *idx, *total);
                    push_text(&mut t, " · ");
                    push_phase_label(&mut t, phase, model);
                    push_text(&mut t, "…");
                    out.push(line_of(&t));
                }
                proof {
                    assert(actions_view(out@) =~= actions_for(s0, *event, tty, quiet));
                }
            },
            IngestEvent::AssetChunked { idx, total, chunks } => {
                if self.bar {
                    let mut m = chars_of("→ ");
                    push_decimal(&mut m, *chunks);
                    push_text(&mut m, " chunks");
                    out.push(ProgressAction::SetMessage { message: string_from_chars(&m) });
                }
                if plain {
                    let mut t = chars_of("ingest: ");
                    push_of_total(&mut t, *idx, *total);
                    push_text(&mut t, " → ");
                    push_decimal(&mut t, *chunks);
                    push_text(&mut t, " chunks");
                    out.push(line_of(&t));
                }
                proof {
                    assert(actions_view(out@) =~= actions_for(s0, *event, tty, quiet));
                }
            },
            IngestEvent::AssetTimings { idx, parse_ms, chunk_ms, embed_ms, store_ms, ocr_ms, caption_ms } => {
                let total_ms: u64 = *parse_ms + *chunk_ms + *embed_ms + *store_ms + *ocr_ms + *caption_ms;
                let ghost old_t = self.timings@;
                match self.asset_paths.get(idx) {
                    Some(p) => {
                        let e = (p.clone(), total_ms);
                        self.timings.push(e);
                        proof {
                            assert(timings_view(self.timings@) =~= timings_view(old_t).push((p@, total_ms)));
                        }
                    },
                    None => {},
                }
                if self.bar {
                    out.push(ProgressAction::SetMessage { message: String::new() });
                }
                if !quiet {
                    let ocr: Option<u64> = if *ocr_ms > 0 {
                        Some(*ocr_ms)
                    } else {
                        None
                    };
                    let caption: Option<u64> = if *caption_ms > 0 {
                        Some(*caption_ms)
                    } else {
                        None
                    };
                    out.push(
                        ProgressAction::TimingLine {
                            parse_ms: *parse_ms,
                            chunk_ms: *chunk_ms,
                            ocr_ms: ocr,
                            caption_ms: caption,
                            embed_ms: *embed_ms,
                            store_ms: *store_ms,
                        },
                    );
                }
                proof {
                    assert(actions_view(out@) =~= actions_for(s0, *event, tty, quiet));
                }
            },
            IngestEvent::Completed { counts } => {
                if self.bar {
                    out.push(ProgressAction::FinishAndClear);
                }
                self.bar = false;
                self.clock = false;
                out.push(ProgressAction::StopClock);
                if !quiet {
                    let mut t = chars_of("ingest: complete (");
                    push_counts(&mut t, counts);
                    push_text(&mut t, ")");
                    out.push(line_of(&t));
                    if self.timings.len() > 0 {
                        let top = slowest_assets(&self.timings, SLOWEST_TOP_N);
                        out.push(ProgressAction::Slowest { top });
                    }
                }
                proof {
                    assert(actions_view(out@) =~= actions_for(s0, *event, tty, quiet));
                }
            },
            IngestEvent::Aborted { counts } => {
                if self.bar {
                    let done: u64 = if counts.scanned >= counts.errors {
                        counts.scanned - counts.errors
                    } else {
                        0
                    };
                    let mut m = chars_of("aborted at ");
                    push_decimal(&mut m, done);
                    m.push('/');
                    push_decimal(&mut m, counts.scanned);
                    proof {
                        reveal_strlit("/");
                        assert(m@ =~= "aborted at "@ + decimal(done as nat) + "/"@ + decimal(counts.scanned as nat));
                    }
                    out.push(ProgressAction::Abandon { message: string_from_chars(&m) });
                }
                self.bar = false;
                if plain {
                    let mut t = chars_of("ingest: aborted (");
                    push_counts(&mut t, counts);
                    push_text(&mut t, ")");
                    out.push(line_of(&t));
                }
                proof {
                    assert(actions_view(out@) =~= actions_for(s0, *event, tty, quiet));
                }
            },
            IngestEvent::PdfOcrStarted { page } => {
                if !quiet {
                    let mut t = chars_of("  📷 OCR page ");
                    push_decimal(&mut t, *page as u64);
                    push_text(&mut t, "...");
                    out.push(line_of(&t));
                }
                proof {
                    assert(actions_view(out@) =~= actions_for(s0, *event, tty, quiet));
                }
            },
            IngestEvent::PdfOcrFinished { page, ms, chars, ocr_engine, skipped } => {
                if !quiet {
                    if *skipped {
                        let mut t = chars_of("  ⊘ OCR page ");
                        push_decimal(&mut t, *page as u64);
                        push_text(&mut t, " skipped (no DCTDecode or engine fail, ");
                        push_decimal(&mut t, *ms);
                        push_text(&mut t, "ms)");
                        out.push(line_of(&t));
                    } else {
                        let mut t = chars_of("  ✓ OCR page ");
                        push_decimal(&mut t, *page as u64);
                        push_text(&mut t, " (");
                        push_decimal(&mut t, *chars);
                        push_text(&mut t, " chars, ");
                        push_decimal(&mut t, *ms);
                        push_text(&mut t, "ms via ");
                        push_text(&mut t, ocr_engine.as_str());
                        push_text(&mut t, ")");
                        out.push(line_of(&t));
                    }
                }
                proof {
                    assert(actions_view(out@) =~= actions_for(s0, *event, tty, quiet));
                }
            },
        }
        proof {
            assert(self@ == next_view(s0, *event));
        }
        out
    }
}

} // verus!
