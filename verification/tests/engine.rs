use pull_diagnostics::driver::DocumentDiagnosticReport;
use pull_diagnostics::driver::DocumentDiagnosticReportResult;
use pull_diagnostics::driver::PullError;
use pull_diagnostics::driver::PullFailure;
use pull_diagnostics::driver::classify_pull_error;
use pull_diagnostics::driver::complete_pull_success;
use pull_diagnostics::driver::handle_pull_failure;
use pull_diagnostics::driver::pull_diagnostics_for_document;
use pull_diagnostics::driver::pull_diagnostics_for_open_documents;
use pull_diagnostics::driver::retry_after_backoff;
use pull_diagnostics::model::DiagnosticItem;
use pull_diagnostics::model::DiagnosticProvider;
use pull_diagnostics::model::DiagnosticServerCapabilities;
use pull_diagnostics::model::DiagnosticSet;
use pull_diagnostics::model::Document;
use pull_diagnostics::model::Editor;
use pull_diagnostics::model::LanguageServer;
use pull_diagnostics::model::Mode;

fn doc(id: u64, uri: Option<u64>, servers: Vec<u64>, token: Option<u64>) -> Document {
    Document { id, uri, language_servers: servers, previous_diagnostic_id: token }
}

fn server(id: u64, caps: Option<DiagnosticServerCapabilities>, initialized: bool) -> LanguageServer {
    LanguageServer {
        id,
        diagnostic_provider: caps,
        initialized,
        work_tokens: Vec::new(),
        next_work_token: 0,
    }
}

fn flat_caps() -> Option<DiagnosticServerCapabilities> {
    Some(DiagnosticServerCapabilities::Options { identifier: None })
}

fn editor(documents: Vec<Document>, language_servers: Vec<LanguageServer>) -> Editor {
    Editor {
        mode: Mode::Normal,
        documents,
        language_servers,
        views: Vec::new(),
        diagnostics: Vec::new(),
    }
}

fn item(code: u64) -> DiagnosticItem {
    DiagnosticItem { code }
}

#[test]
fn full_report_applies() {
    let mut ed = editor(
        vec![doc(1, Some(10), vec![7], None)],
        vec![server(7, flat_caps(), true)],
    );
    let req = pull_diagnostics_for_document(&mut ed, 1, 7).expect("request should be built");
    assert_eq!(req.document_id, 1);
    assert_eq!(req.server_id, 7);
    assert_eq!(req.uri, 10);
    assert_eq!(req.previous_result_id, None);
    assert_eq!(req.provider, DiagnosticProvider { server_id: 7, identifier: None });
    assert_eq!(ed.language_servers[0].work_tokens, vec![req.token]);

    let result = DocumentDiagnosticReportResult::Report(DocumentDiagnosticReport::Full {
        result_id: Some(1),
        items: vec![item(1), item(2)],
    });
    complete_pull_success(&mut ed, req, result);
    assert_eq!(ed.diagnostics.len(), 1);
    assert_eq!(ed.diagnostics[0].uri, 10);
    assert_eq!(ed.diagnostics[0].provider, req.provider);
    assert_eq!(ed.diagnostics[0].items, vec![item(1), item(2)]);
    assert_eq!(ed.documents[0].previous_diagnostic_id, Some(1));
    assert!(ed.language_servers[0].work_tokens.is_empty());
}

#[test]
fn unchanged_report_keeps_items() {
    let mut ed = editor(
        vec![doc(1, Some(10), vec![7], Some(1))],
        vec![server(7, flat_caps(), true)],
    );
    ed.diagnostics.push(DiagnosticSet {
        uri: 10,
        provider: DiagnosticProvider { server_id: 7, identifier: None },
        items: vec![item(1)],
    });
    let req = pull_diagnostics_for_document(&mut ed, 1, 7).expect("request should be built");
    assert_eq!(req.previous_result_id, Some(1));
    let result = DocumentDiagnosticReportResult::Report(DocumentDiagnosticReport::Unchanged {
        result_id: 2,
    });
    complete_pull_success(&mut ed, req, result);
    assert_eq!(ed.diagnostics.len(), 1);
    assert_eq!(ed.diagnostics[0].items, vec![item(1)]);
    assert_eq!(ed.documents[0].previous_diagnostic_id, Some(2));
    assert!(ed.language_servers[0].work_tokens.is_empty());
}

#[test]
fn partial_report_is_ignored() {
    let mut ed = editor(
        vec![doc(1, Some(10), vec![7], Some(3))],
        vec![server(7, flat_caps(), true)],
    );
    let req = pull_diagnostics_for_document(&mut ed, 1, 7).expect("request should be built");
    complete_pull_success(&mut ed, req, DocumentDiagnosticReportResult::Partial);
    assert!(ed.diagnostics.is_empty());
    assert_eq!(ed.documents[0].previous_diagnostic_id, Some(3));
    assert!(ed.language_servers[0].work_tokens.is_empty());
}

#[test]
fn missing_uri_declines_silently() {
    let mut ed = editor(vec![doc(1, None, vec![7], None)], vec![server(7, flat_caps(), true)]);
    assert!(pull_diagnostics_for_document(&mut ed, 1, 7).is_none());
    assert!(ed.language_servers[0].work_tokens.is_empty());
}

#[test]
fn featureless_server_declines_silently() {
    let mut ed = editor(vec![doc(1, Some(10), vec![7], None)], vec![server(7, None, true)]);
    assert!(pull_diagnostics_for_document(&mut ed, 1, 7).is_none());
}

#[test]
fn registration_options_identifier_is_read() {
    let caps = Some(DiagnosticServerCapabilities::RegistrationOptions { identifier: Some(9) });
    let mut ed = editor(vec![doc(1, Some(10), vec![7], None)], vec![server(7, caps, true)]);
    let req = pull_diagnostics_for_document(&mut ed, 1, 7).expect("request should be built");
    assert_eq!(req.provider, DiagnosticProvider { server_id: 7, identifier: Some(9) });
}

#[test]
fn cancellation_with_retrigger_requests_retry() {
    let mut ed = editor(
        vec![doc(1, Some(10), vec![7], None)],
        vec![server(7, flat_caps(), true)],
    );
    let req = pull_diagnostics_for_document(&mut ed, 1, 7).expect("request should be built");
    let retry = handle_pull_failure(&mut ed, req, PullFailure::Rpc { retrigger: Some(true) });
    assert!(retry);
    assert!(ed.language_servers[0].work_tokens.is_empty());
}

#[test]
fn cancellation_without_retrigger_stops() {
    let mut ed = editor(
        vec![doc(1, Some(10), vec![7], None)],
        vec![server(7, flat_caps(), true)],
    );
    let req = pull_diagnostics_for_document(&mut ed, 1, 7).expect("request should be built");
    assert!(!handle_pull_failure(&mut ed, req, PullFailure::Rpc { retrigger: Some(false) }));
    let req = pull_diagnostics_for_document(&mut ed, 1, 7).expect("request should be built");
    assert!(!handle_pull_failure(&mut ed, req, PullFailure::Rpc { retrigger: None }));
    let req = pull_diagnostics_for_document(&mut ed, 1, 7).expect("request should be built");
    assert!(!handle_pull_failure(&mut ed, req, PullFailure::NotRpc));
    assert!(ed.language_servers[0].work_tokens.is_empty());
}

#[test]
fn retry_reissues_for_surviving_attachment() {
    let mut ed = editor(
        vec![doc(1, Some(10), vec![7], None)],
        vec![server(7, flat_caps(), true)],
    );
    let req = pull_diagnostics_for_document(&mut ed, 1, 7).expect("request should be built");
    assert!(handle_pull_failure(&mut ed, req, PullFailure::Rpc { retrigger: Some(true) }));
    // the retry captures the version token afresh
    ed.documents[0].previous_diagnostic_id = Some(9);
    let again = retry_after_backoff(&mut ed, 1, 7).expect("retry should re-issue");
    assert_eq!(again.document_id, 1);
    assert_eq!(again.server_id, 7);
    assert_ne!(again.token, req.token);
    assert_eq!(again.previous_result_id, Some(9));
    assert_eq!(ed.language_servers[0].work_tokens, vec![again.token]);
}

#[test]
fn retry_abandons_on_closed_document() {
    let mut ed = editor(
        vec![doc(1, Some(10), vec![7], None)],
        vec![server(7, flat_caps(), true)],
    );
    let req = pull_diagnostics_for_document(&mut ed, 1, 7).expect("request should be built");
    assert!(handle_pull_failure(&mut ed, req, PullFailure::Rpc { retrigger: Some(true) }));
    ed.documents.clear();
    assert!(retry_after_backoff(&mut ed, 1, 7).is_none());
    assert!(ed.language_servers[0].work_tokens.is_empty());
}

#[test]
fn retry_abandons_on_detached_server() {
    let mut ed = editor(
        vec![doc(1, Some(10), vec![7], None)],
        vec![server(7, flat_caps(), true)],
    );
    let req = pull_diagnostics_for_document(&mut ed, 1, 7).expect("request should be built");
    assert!(handle_pull_failure(&mut ed, req, PullFailure::Rpc { retrigger: Some(true) }));
    ed.documents[0].language_servers.clear();
    assert!(retry_after_backoff(&mut ed, 1, 7).is_none());
    assert!(ed.language_servers[0].work_tokens.is_empty());
}

#[test]
fn every_settlement_marks_the_token_done_once() {
    let mut ed = editor(
        vec![doc(1, Some(10), vec![7], None)],
        vec![server(7, flat_caps(), true)],
    );
    let req = pull_diagnostics_for_document(&mut ed, 1, 7).expect("request should be built");
    assert_eq!(ed.language_servers[0].work_tokens, vec![req.token]);
    complete_pull_success(&mut ed, req, DocumentDiagnosticReportResult::Partial);
    assert!(ed.language_servers[0].work_tokens.is_empty());
    // settling the same token again changes nothing
    assert!(!handle_pull_failure(&mut ed, req, PullFailure::NotRpc));
    assert!(ed.language_servers[0].work_tokens.is_empty());
    assert_eq!(ed.language_servers[0].next_work_token, 1);
}

#[test]
fn classify_reads_cancellation_payload() {
    let mut map = serde_json::Map::new();
    map.insert("retriggerRequest".to_string(), serde_json::Value::Bool(true));
    let payload = serde_json::Value::Object(map);
    let f = classify_pull_error(&PullError::Rpc { data: Some(payload) });
    assert_eq!(f, PullFailure::Rpc { retrigger: Some(true) });

    let mut map = serde_json::Map::new();
    map.insert("retriggerRequest".to_string(), serde_json::Value::Bool(false));
    let payload = serde_json::Value::Object(map);
    let f = classify_pull_error(&PullError::Rpc { data: Some(payload) });
    assert_eq!(f, PullFailure::Rpc { retrigger: Some(false) });

    let empty = serde_json::Value::Object(serde_json::Map::new());
    let f = classify_pull_error(&PullError::Rpc { data: Some(empty) });
    assert_eq!(f, PullFailure::Rpc { retrigger: None });

    let f = classify_pull_error(&PullError::Rpc { data: None });
    assert_eq!(f, PullFailure::Rpc { retrigger: None });

    let f = classify_pull_error(&PullError::Other);
    assert_eq!(f, PullFailure::NotRpc);
}

#[test]
fn sweep_pulls_every_open_document_from_initialized_servers() {
    let mut ed = editor(
        vec![
            doc(1, Some(10), vec![7, 8], None),
            doc(2, Some(20), vec![7], None),
            doc(3, None, vec![7], None),
        ],
        vec![server(7, flat_caps(), true), server(8, flat_caps(), false)],
    );
    let requests = pull_diagnostics_for_open_documents(&mut ed);
    let mut pairs: Vec<(u64, u64)> =
        requests.iter().map(|r| (r.document_id, r.server_id)).collect();
    pairs.sort();
    // server 8 is not initialized and document 3 has no URI
    assert_eq!(pairs, vec![(1, 7), (2, 7)]);
    assert_ne!(requests[0].token, requests[1].token);
    assert_eq!(ed.language_servers[0].work_tokens.len(), 2);
    assert!(ed.language_servers[1].work_tokens.is_empty());
    // counters advanced by exactly the requests issued
    assert_eq!(ed.language_servers[0].next_work_token, 2);
    assert_eq!(ed.language_servers[1].next_work_token, 0);
}

#[test]
fn stale_response_is_dropped_entirely() {
    let mut ed = editor(
        vec![doc(1, Some(10), vec![7], Some(4))],
        vec![server(7, flat_caps(), true)],
    );
    let req = pull_diagnostics_for_document(&mut ed, 1, 7).expect("request should be built");
    // the document is closed while the request is in flight
    ed.documents.clear();
    let result = DocumentDiagnosticReportResult::Report(DocumentDiagnosticReport::Full {
        result_id: Some(5),
        items: vec![item(9)],
    });
    complete_pull_success(&mut ed, req, result);
    // neither storage nor any token moves; only the progress token settles
    assert!(ed.diagnostics.is_empty());
    assert!(ed.language_servers[0].work_tokens.is_empty());
}
