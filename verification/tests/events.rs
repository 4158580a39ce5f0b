use pull_diagnostics::debounce::DEBOUNCE_TIMEOUT_MS;
use pull_diagnostics::debounce::Debouncer;
use pull_diagnostics::debounce::PullDiagnosticsEvent;
use pull_diagnostics::debounce::PullDiagnosticsHandler;
use pull_diagnostics::model::DiagnosticServerCapabilities;
use pull_diagnostics::model::Document;
use pull_diagnostics::model::Editor;
use pull_diagnostics::model::EditorView;
use pull_diagnostics::model::LanguageServer;
use pull_diagnostics::model::Mode;
use pull_diagnostics::triggers::on_diagnostics_did_change;
use pull_diagnostics::triggers::on_document_did_change;
use pull_diagnostics::triggers::on_document_did_open;
use pull_diagnostics::triggers::on_mode_switch;
use pull_diagnostics::triggers::on_server_initialized;

fn doc(id: u64, uri: Option<u64>, servers: Vec<u64>) -> Document {
    Document { id, uri, language_servers: servers, previous_diagnostic_id: None }
}

fn server(id: u64, supports: bool, initialized: bool) -> LanguageServer {
    LanguageServer {
        id,
        diagnostic_provider: if supports {
            Some(DiagnosticServerCapabilities::Options { identifier: None })
        } else {
            None
        },
        initialized,
        work_tokens: Vec::new(),
        next_work_token: 0,
    }
}

fn editor_with_views(
    documents: Vec<Document>,
    language_servers: Vec<LanguageServer>,
    views: usize,
) -> Editor {
    Editor {
        mode: Mode::Normal,
        documents,
        language_servers,
        views: vec![EditorView { active: true, refreshes: 0 }; views],
        diagnostics: Vec::new(),
    }
}

#[test]
fn debounce_coalesces_a_burst_into_one_sweep() {
    let mut timer = Debouncer::new();
    let mut fires = 0;
    timer.on_event(0);
    if timer.on_tick(100) {
        fires += 1;
    }
    timer.on_event(50);
    timer.on_event(100);
    if timer.on_tick(224) {
        fires += 1;
    }
    if timer.on_tick(225) {
        fires += 1;
    }
    if timer.on_tick(300) {
        fires += 1;
    }
    assert_eq!(fires, 1);
}

#[test]
fn debounce_fires_again_after_a_quiet_period() {
    let mut timer = Debouncer::new();
    let mut fires = 0;
    timer.on_event(0);
    if timer.on_tick(125) {
        fires += 1;
    }
    timer.on_event(300);
    if timer.on_tick(425) {
        fires += 1;
    }
    assert_eq!(fires, 2);
}

#[test]
fn handle_event_rearms_the_quiet_period() {
    let mut handler = PullDiagnosticsHandler::new();
    let event = PullDiagnosticsEvent { document_id: 1 };
    assert_eq!(handler.handle_event(event, None, 1000), Some(1000 + DEBOUNCE_TIMEOUT_MS));
    // an already-armed deadline is discarded
    assert_eq!(handler.handle_event(event, Some(900), 2000), Some(2000 + DEBOUNCE_TIMEOUT_MS));
}

#[test]
fn finish_debounce_sweeps_open_documents() {
    let mut handler = PullDiagnosticsHandler::new();
    let mut ed = editor_with_views(vec![doc(1, Some(10), vec![7])], vec![server(7, true, true)], 0);
    let requests = handler.finish_debounce(&mut ed);
    assert_eq!(requests.len(), 1);
    assert_eq!(requests[0].document_id, 1);
    assert_eq!(requests[0].server_id, 7);
}

#[test]
fn insert_mode_suppresses_view_refresh() {
    let mut ed = editor_with_views(Vec::new(), Vec::new(), 2);
    on_mode_switch(&mut ed, Mode::Insert);
    assert!(ed.views.iter().all(|v| !v.active));
    on_diagnostics_did_change(&mut ed);
    assert!(ed.views.iter().all(|v| v.refreshes == 0));

    on_mode_switch(&mut ed, Mode::Normal);
    assert!(ed.views.iter().all(|v| v.active));
    on_diagnostics_did_change(&mut ed);
    assert!(ed.views.iter().all(|v| v.refreshes == 1));
}

#[test]
fn document_change_feeds_the_batcher() {
    let with = editor_with_views(vec![doc(1, Some(10), vec![7])], vec![server(7, true, false)], 0);
    assert_eq!(
        on_document_did_change(&with, 1),
        Some(PullDiagnosticsEvent { document_id: 1 })
    );
    let without = editor_with_views(vec![doc(1, Some(10), vec![7])], vec![server(7, false, true)], 0);
    assert_eq!(on_document_did_change(&without, 1), None);
    assert_eq!(on_document_did_change(&with, 2), None);
}

#[test]
fn document_open_pulls_without_waiting() {
    // an attached server that supports the feature is pulled even before it
    // finished initializing
    let mut ed = editor_with_views(
        vec![doc(1, Some(10), vec![7, 8])],
        vec![server(7, true, false), server(8, false, true)],
        0,
    );
    let requests = on_document_did_open(&mut ed, 1);
    assert_eq!(requests.len(), 1);
    assert_eq!(requests[0].document_id, 1);
    assert_eq!(requests[0].server_id, 7);
    assert!(on_document_did_open(&mut ed, 9).is_empty());
}

#[test]
fn server_initialization_catches_up_attached_documents() {
    let mut ed = editor_with_views(
        vec![doc(1, Some(10), vec![7]), doc(2, Some(20), vec![8]), doc(3, Some(30), vec![7])],
        vec![server(7, true, true), server(8, true, true)],
        0,
    );
    let requests = on_server_initialized(&mut ed, 7);
    let mut pairs: Vec<(u64, u64)> =
        requests.iter().map(|r| (r.document_id, r.server_id)).collect();
    pairs.sort();
    assert_eq!(pairs, vec![(1, 7), (3, 7)]);
    assert!(on_server_initialized(&mut ed, 9).is_empty());
}
