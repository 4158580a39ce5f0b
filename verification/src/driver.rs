//! The request/response driver: builds one pull request per (document,
//! server) pair, applies the full / unchanged / partial outcome to the
//! editor's diagnostic storage and version-token cache, marks the request's
//! progress token done however the request settles, and decides whether a
//! server-issued cancellation asks for a retry.
//!
//! The surrounding application owns the transport: it sends a `PullRequest`,
//! awaits the outcome, and feeds it back in through `complete_pull_success`
//! or `classify_pull_error` and `handle_pull_failure`.

use vstd::prelude::*;

use crate::model::Document;
use crate::model::DiagnosticItem;
use crate::model::DiagnosticProvider;
use crate::model::DiagnosticSet;
use crate::model::Editor;
use crate::model::LanguageServer;
use crate::model::diagnostics_replaced;
use crate::model::doc_token_updated;
use crate::model::find_document_index;
use crate::model::find_server_index;
use crate::model::replace_diagnostics;
use crate::model::same_but_servers;
use crate::model::server_fields_stable;
use crate::model::servers_same_except;
use crate::model::set_previous_diagnostic_id;
use crate::model::token_marked_done;
use crate::model::token_registered;
use crate::model::vec_entry_mut;
use crate::model::lemma_document_index_unique;
use crate::model::lemma_server_index_unique;

verus! {

/// The fixed backoff, in milliseconds, before a cancelled pull request is
/// re-issued when the server asked for a retry.
pub const RETRY_DELAY_MS: u64 = 500;

/// The by-value snapshot taken when a pull request is issued, so that the
/// asynchronous response can be applied even after the document or server
/// changed or disappeared.
#[derive(Clone, Copy, PartialEq, Eq, Debug)]
pub struct PullRequest {
    pub document_id: u64,
    pub server_id: u64,
    pub uri: u64,
    pub provider: DiagnosticProvider,
    pub previous_result_id: Option<u64>,
    pub token: u64,
}

/// A pull-diagnostics report: either a full replacement of the items for the
/// requested document, or word that nothing changed since the version token
/// the request carried.
#[derive(Clone, PartialEq, Eq, Debug)]
pub enum DocumentDiagnosticReport {
    Full { result_id: Option<u64>, items: Vec<DiagnosticItem> },
    Unchanged { result_id: u64 },
}

/// The top-level outcome of a successful pull request: a report, or a
/// multi-part partial result, which this engine ignores.
#[derive(Clone, PartialEq, Eq, Debug)]
pub enum DocumentDiagnosticReportResult {
    Report(DocumentDiagnosticReport),
    Partial,
}

/// A failed pull request as the transport hands it over: a protocol-level
/// error, whose payload may carry cancellation data, or any other failure.
pub enum PullError {
    Rpc { data: Option<serde_json::Value> },
    Other,
}

/// A failed pull request reduced to what the retry decision needs: whether
/// the failure was a protocol-level error, and if so the `retriggerRequest`
/// flag parsed from its cancellation payload, if any.
#[derive(Clone, Copy, PartialEq, Eq, Debug)]
pub enum PullFailure {
    Rpc { retrigger: Option<bool> },
    NotRpc,
}

/// Declares serde_json::Value so a raw protocol error payload can be
/// carried through `PullError`. The engine treats the value as opaque; only
/// `read_retrigger_flag` looks inside.
#[verifier::external_type_specification]
#[verifier::external_body]
pub struct ExValue(serde_json::Value);

/// Relies on serde_json::Value::get and serde_json::Value::as_bool: reads the
/// `retriggerRequest` field of a protocol cancellation payload, yielding
/// `Some(flag)` exactly when the payload is an object whose field holds a
/// boolean. Nothing is claimed of the result; the retry decision takes it as
/// a plain value.
#[verifier::external_body]
fn read_retrigger_flag(data: &serde_json::Value) -> Option<bool> {
    data.get("retriggerRequest").and_then(serde_json::Value::as_bool)
}

/// Reduces a transport failure to the plain shape the retry decision works
/// on. Only protocol-level errors can carry cancellation data.
pub fn classify_pull_error(error: &PullError) -> (f: PullFailure)
    ensures
        (f is Rpc) <==> (error is Rpc),
        (*error) matches PullError::Rpc { data: None } ==> f == (PullFailure::Rpc {
            retrigger: None,
        }),
{
    match error {
        PullError::Rpc { data } => {
            let retrigger = match data {
                Some(v) => read_retrigger_flag(v),
                None => None,
            };
            PullFailure::Rpc { retrigger }
        },
        PullError::Other => PullFailure::NotRpc,
    }
}

/// The document exists, a request object can be built (the server exists and
/// declares the pull-diagnostics capability), and the document has a URI.
pub open spec fn can_pull(e: Editor, document_id: u64, server_id: u64) -> bool {
    &&& e.has_document(document_id)
    &&& e.has_server(server_id)
    &&& e.server(server_id).spec_supports_pull_diagnostics()
    &&& e.document(document_id).uri is Some
}

/// The provider identifier the server's capabilities declare, if any.
pub open spec fn provider_identifier_of(e: Editor, server_id: u64) -> Option<u64> {
    match e.server(server_id).diagnostic_provider {
        Some(caps) => caps.spec_identifier(),
        None => None,
    }
}

/// The request snapshots the pre-call state: the document's URI and cached
/// version token, and the provider key built from the server's capabilities.
pub open spec fn pull_request_valid(
    pre: Editor,
    req: PullRequest,
    document_id: u64,
    server_id: u64,
) -> bool {
    &&& req.document_id == document_id
    &&& req.server_id == server_id
    &&& pre.document(document_id).uri == Some(req.uri)
    &&& req.previous_result_id == pre.document(document_id).previous_diagnostic_id
    &&& req.provider == (DiagnosticProvider {
        server_id,
        identifier: provider_identifier_of(pre, server_id),
    })
}

/// What issuing a pull for (document, server) does: nothing at all when no
/// request can be built, and otherwise a valid request whose fresh progress
/// token is now outstanding on the server. A server whose token counter is
/// exhausted declines like one that offers no request object.
pub open spec fn pull_issued(
    pre: Editor,
    post: Editor,
    r: Option<PullRequest>,
    document_id: u64,
    server_id: u64,
) -> bool {
    &&& same_but_servers(pre, post)
    &&& servers_same_except(pre, post, server_id)
    &&& !can_pull(pre, document_id, server_id) ==> (r is None && post == pre)
    &&& (can_pull(pre, document_id, server_id) && pre.server(server_id).next_work_token
        == u64::MAX) ==> (r is None && post == pre)
    &&& (can_pull(pre, document_id, server_id) && pre.server(server_id).next_work_token
        < u64::MAX) ==> (r matches Some(req) && {
        &&& pull_request_valid(pre, req, document_id, server_id)
        &&& forall|i: int|
            0 <= i < pre.language_servers@.len() && pre.language_servers@[i].id == server_id
                ==> token_registered(
                    pre.language_servers@[i],
                    post.language_servers@[i],
                    req.token,
                )
    })
}

/// Builds and issues a pull request for one (document, server) pair,
/// snapshotting everything the asynchronous response will need. Declines
/// silently when the server offers no request object for the document or the
/// document has no URI.
pub fn pull_diagnostics_for_document(editor: &mut Editor, document_id: u64, server_id: u64) -> (r:
    Option<PullRequest>)
    requires
        old(editor).wf(),
    ensures
        final(editor).wf(),
        pull_issued(*old(editor), *final(editor), r, document_id, server_id),
{
    let doc_idx = match find_document_index(editor, document_id) {
        Some(i) => i,
        None => {
            return None;
        },
    };
    let srv_idx = match find_server_index(editor, server_id) {
        Some(i) => i,
        None => {
            return None;
        },
    };
    proof {
        lemma_document_index_unique(*editor, document_id, doc_idx as int);
        lemma_server_index_unique(*editor, server_id, srv_idx as int);
    }
    let identifier = match &editor.language_servers[srv_idx].diagnostic_provider {
        Some(caps) => caps.identifier(),
        None => {
            return None;
        },
    };
    let uri = match editor.documents[doc_idx].uri {
        Some(u) => u,
        None => {
            return None;
        },
    };
    if editor.language_servers[srv_idx].next_work_token == u64::MAX {
        return None;
    }
    let previous_result_id = editor.documents[doc_idx].previous_diagnostic_id;
    let ghost pre = *editor;
    let server = vec_entry_mut(&mut editor.language_servers, srv_idx);
    let token = server.register_work_token();
    proof {
        assert(editor.language_servers@ == pre.language_servers@.update(
            srv_idx as int,
            editor.language_servers@[srv_idx as int],
        ));
        assert forall|p: int, q: int|
            0 <= p < q < editor.language_servers@.len() implies editor.language_servers@[p].id
            != editor.language_servers@[q].id by {
            assert(pre.language_servers@[p].id != pre.language_servers@[q].id);
        }
        assert forall|i: int|
            0 <= i < editor.language_servers@.len() implies editor.language_servers@[i].wf() by {
            if i != srv_idx as int {
                assert(editor.language_servers@[i] == pre.language_servers@[i]);
            }
        }
        assert forall|i: int|
            0 <= i < pre.language_servers@.len() && pre.language_servers@[i].id == server_id
                implies token_registered(
            pre.language_servers@[i],
            editor.language_servers@[i],
            token,
        ) by {
            lemma_server_index_unique(pre, server_id, i);
        }
    }
    Some(
        PullRequest {
            document_id,
            server_id,
            uri,
            provider: DiagnosticProvider { server_id, identifier },
            previous_result_id,
            token,
        },
    )
}

/// Some document carries the given id.
pub open spec fn docs_have(docs: Seq<Document>, document_id: u64) -> bool {
    exists|i: int| 0 <= i < docs.len() && docs[i].id == document_id
}

/// What applying a pull outcome does to the documents and the diagnostic
/// storage: a full report replaces the items under the request's (URI,
/// provider) key and adopts the report's version token; an unchanged report
/// leaves storage untouched and adopts the token; a partial report does
/// nothing. A response for a document that no longer exists when the
/// dispatched handling runs is stale and dropped entirely: neither the
/// storage nor any version token moves.
pub open spec fn report_applied(
    pre_docs: Seq<Document>,
    post_docs: Seq<Document>,
    pre_diags: Seq<DiagnosticSet>,
    post_diags: Seq<DiagnosticSet>,
    result: DocumentDiagnosticReportResult,
    provider: DiagnosticProvider,
    uri: u64,
    document_id: u64,
) -> bool {
    if !docs_have(pre_docs, document_id) {
        &&& post_docs == pre_docs
        &&& post_diags == pre_diags
    } else {
        report_effect(pre_docs, post_docs, pre_diags, post_diags, result, provider, uri,
            document_id)
    }
}

/// The storage and version-token effect of each report kind, for a document
/// that still exists.
pub open spec fn report_effect(
    pre_docs: Seq<Document>,
    post_docs: Seq<Document>,
    pre_diags: Seq<DiagnosticSet>,
    post_diags: Seq<DiagnosticSet>,
    result: DocumentDiagnosticReportResult,
    provider: DiagnosticProvider,
    uri: u64,
    document_id: u64,
) -> bool {
    match result {
        DocumentDiagnosticReportResult::Report(report) => match report {
            DocumentDiagnosticReport::Full { result_id, items } => {
                &&& diagnostics_replaced(pre_diags, post_diags, uri, provider, items@)
                &&& doc_token_updated(pre_docs, post_docs, document_id, result_id)
            },
            DocumentDiagnosticReport::Unchanged { result_id } => {
                &&& post_diags == pre_diags
                &&& doc_token_updated(pre_docs, post_docs, document_id, Some(result_id))
            },
        },
        DocumentDiagnosticReportResult::Partial => {
            &&& post_docs == pre_docs
            &&& post_diags == pre_diags
        },
    }
}

/// Applies a pull outcome to the editor: the storage and version-token
/// effect of a full, unchanged or partial report. The document is looked up
/// afresh first; a stale response for a document that was closed while the
/// request was in flight is dropped without a trace.
pub fn handle_pull_diagnostics_response(
    editor: &mut Editor,
    result: DocumentDiagnosticReportResult,
    provider: DiagnosticProvider,
    uri: u64,
    document_id: u64,
)
    requires
        old(editor).wf(),
    ensures
        final(editor).wf(),
        final(editor).mode == old(editor).mode,
        final(editor).views@ == old(editor).views@,
        final(editor).language_servers@ == old(editor).language_servers@,
        report_applied(
            old(editor).documents@,
            final(editor).documents@,
            old(editor).diagnostics@,
            final(editor).diagnostics@,
            result,
            provider,
            uri,
            document_id,
        ),
{
    let found: usize = match find_document_index(editor, document_id) {
        Some(i) => i,
        None => {
            return ;
        },
    };
    proof {
        assert(editor.documents@[found as int].id == document_id);
        assert(docs_have(editor.documents@, document_id));
    }
    match result {
        DocumentDiagnosticReportResult::Report(report) => {
            let result_id: Option<u64> = match report {
                DocumentDiagnosticReport::Full { result_id, items } => {
                    replace_diagnostics(editor, provider, uri, items);
                    result_id
                },
                DocumentDiagnosticReport::Unchanged { result_id } => Some(result_id),
            };
            set_previous_diagnostic_id(editor, document_id, result_id);
        },
        DocumentDiagnosticReportResult::Partial => {},
    }
}

/// The progress token of a settled request was marked done on its server,
/// and no other server was touched. A server that disappeared while the
/// request was in flight has no token left to mark.
pub open spec fn servers_marked_done(
    pre: Seq<LanguageServer>,
    post: Seq<LanguageServer>,
    server_id: u64,
    token: u64,
) -> bool {
    &&& post.len() == pre.len()
    &&& forall|i: int| 0 <= i < pre.len() && pre[i].id != server_id ==> post[i] == pre[i]
    &&& forall|i: int|
        0 <= i < pre.len() && pre[i].id == server_id ==> token_marked_done(pre[i], post[i], token)
}

/// Marks the request's progress token done on its server, if the server
/// still exists.
fn mark_request_done(editor: &mut Editor, server_id: u64, token: u64)
    requires
        old(editor).wf(),
    ensures
        final(editor).wf(),
        same_but_servers(*old(editor), *final(editor)),
        servers_marked_done(
            old(editor).language_servers@,
            final(editor).language_servers@,
            server_id,
            token,
        ),
{
    let srv_idx = match find_server_index(editor, server_id) {
        Some(i) => i,
        None => {
            return ;
        },
    };
    proof {
        lemma_server_index_unique(*editor, server_id, srv_idx as int);
    }
    let ghost pre = *editor;
    let server = vec_entry_mut(&mut editor.language_servers, srv_idx);
    server.mark_work_as_done(token);
    proof {
        assert(editor.language_servers@ == pre.language_servers@.update(
            srv_idx as int,
            editor.language_servers@[srv_idx as int],
        ));
        assert forall|p: int, q: int|
            0 <= p < q < editor.language_servers@.len() implies editor.language_servers@[p].id
            != editor.language_servers@[q].id by {
            assert(pre.language_servers@[p].id != pre.language_servers@[q].id);
        }
        assert forall|i: int|
            0 <= i < editor.language_servers@.len() implies editor.language_servers@[i].wf() by {
            if i != srv_idx as int {
                assert(editor.language_servers@[i] == pre.language_servers@[i]);
            }
        }
        assert forall|i: int|
            0 <= i < pre.language_servers@.len() && pre.language_servers@[i].id == server_id
                implies token_marked_done(
            pre.language_servers@[i],
            editor.language_servers@[i],
            token,
        ) by {
            lemma_server_index_unique(pre, server_id, i);
        }
    }
}

/// Settles a successful pull request: marks its progress token done on the
/// server (which must happen even though the response already arrived), then
/// applies the report.
pub fn complete_pull_success(
    editor: &mut Editor,
    request: PullRequest,
    result: DocumentDiagnosticReportResult,
)
    requires
        old(editor).wf(),
    ensures
        final(editor).wf(),
        final(editor).mode == old(editor).mode,
        final(editor).views@ == old(editor).views@,
        servers_marked_done(
            old(editor).language_servers@,
            final(editor).language_servers@,
            request.server_id,
            request.token,
        ),
        report_applied(
            old(editor).documents@,
            final(editor).documents@,
            old(editor).diagnostics@,
            final(editor).diagnostics@,
            result,
            request.provider,
            request.uri,
            request.document_id,
        ),
{
    mark_request_done(editor, request.server_id, request.token);
    handle_pull_diagnostics_response(
        editor,
        result,
        request.provider,
        request.uri,
        request.document_id,
    );
}

/// Settles a failed pull request: marks its progress token done whatever the
/// failure was, and reports whether the server asked for a retry. Only a
/// protocol-level error whose cancellation payload set `retriggerRequest`
/// does; everything else is absorbed.
pub fn handle_pull_failure(editor: &mut Editor, request: PullRequest, failure: PullFailure) -> (retry:
    bool)
    requires
        old(editor).wf(),
    ensures
        final(editor).wf(),
        failure_settled(*old(editor), *final(editor), request, failure, retry),
{
    mark_request_done(editor, request.server_id, request.token);
    match failure {
        PullFailure::Rpc { retrigger: Some(true) } => true,
        _ => false,
    }
}

/// What settling a failed pull request does: the request's progress token
/// is marked done on its server whatever the failure was, nothing else is
/// touched, and a retry is decided exactly when the cancellation payload
/// asked for one.
pub open spec fn failure_settled(
    pre: Editor,
    post: Editor,
    request: PullRequest,
    failure: PullFailure,
    retry: bool,
) -> bool {
    &&& same_but_servers(pre, post)
    &&& servers_marked_done(
        pre.language_servers@,
        post.language_servers@,
        request.server_id,
        request.token,
    )
    &&& retry == (failure matches PullFailure::Rpc { retrigger: Some(true) })
}

/// Progress-token completion: a pull request's token is registered exactly
/// once when the request is issued and stays outstanding until the request
/// settles; the settlement — a success, a plain cancellation, or an
/// abandoned retry — removes exactly that token and restores the server's
/// outstanding set, and settling the same token a second time changes
/// nothing. Each request therefore sees exactly one effective completion.
pub proof fn lemma_progress_token_completion(
    s0: LanguageServer,
    s1: LanguageServer,
    s2: LanguageServer,
    s3: LanguageServer,
    t: u64,
)
    requires
        token_registered(s0, s1, t),
        token_marked_done(s1, s2, t),
        token_marked_done(s2, s3, t),
    ensures
        !s0.tokens().contains(t),
        s1.tokens().contains(t),
        !s2.tokens().contains(t),
        s2.tokens() == s0.tokens(),
        s3.tokens() == s2.tokens(),
{
    assert(s2.tokens() =~= s0.tokens());
    assert(s3.tokens() =~= s2.tokens());
}

/// Cancellation retry: after a failed pull settles, a re-pull can only
/// follow a cancellation whose `retriggerRequest` flag was set, at most one
/// re-pull is issued, and a retry whose document was closed or detached in
/// the meantime issues nothing and changes nothing.
pub proof fn lemma_cancellation_retry(
    e0: Editor,
    e1: Editor,
    e2: Editor,
    request: PullRequest,
    failure: PullFailure,
    retry: bool,
    r: Option<PullRequest>,
)
    requires
        failure_settled(e0, e1, request, failure, retry),
        retry ==> retry_revalidated(e1, e2, r, request.document_id, request.server_id),
        !retry ==> (e2 == e1 && r is None),
    ensures
        r is Some ==> failure matches PullFailure::Rpc { retrigger: Some(true) },
        (retry && !(e1.has_document(request.document_id) && e1.has_server(request.server_id)
            && e1.document(request.document_id).language_servers@.contains(request.server_id)))
            ==> (r is None && e2 == e1),
{
}

/// After the retry backoff: the retry is abandoned, with nothing issued and
/// nothing changed, unless the document still exists, the server still
/// exists and the document is still attached to it; a surviving attachment
/// is pulled again from scratch.
pub open spec fn retry_revalidated(
    pre: Editor,
    post: Editor,
    r: Option<PullRequest>,
    document_id: u64,
    server_id: u64,
) -> bool {
    if pre.has_document(document_id) && pre.has_server(server_id) && pre.document(
        document_id,
    ).language_servers@.contains(server_id) {
        pull_issued(pre, post, r, document_id, server_id)
    } else {
        r is None && post == pre
    }
}

/// Re-validates a (document, server) pair after the retry backoff and, only
/// if the attachment survived, issues a fresh pull with a freshly captured
/// version token.
pub fn retry_after_backoff(editor: &mut Editor, document_id: u64, server_id: u64) -> (r: Option<
    PullRequest,
>)
    requires
        old(editor).wf(),
    ensures
        final(editor).wf(),
        retry_revalidated(*old(editor), *final(editor), r, document_id, server_id),
{
    let doc_idx = match find_document_index(editor, document_id) {
        Some(i) => i,
        None => {
            return None;
        },
    };
    if find_server_index(editor, server_id).is_none() {
        return None;
    }
    proof {
        lemma_document_index_unique(*editor, document_id, doc_idx as int);
    }
    if !editor.documents[doc_idx].supports_language_server(server_id) {
        return None;
    }
    pull_diagnostics_for_document(editor, document_id, server_id)
}

/// A (document, attached-server) pair the debounce sweep pulls: the document
/// is open, position `m` of its attachment list names a server that exists,
/// supports pull diagnostics and is initialized.
pub open spec fn sweep_eligible(e: Editor, d: int, m: int, need_init: bool, filter: Option<u64>) -> bool {
    &&& 0 <= d < e.documents@.len()
    &&& 0 <= m < e.documents@[d].language_servers@.len()
    &&& e.has_server(e.documents@[d].language_servers@[m])
    &&& e.server(e.documents@[d].language_servers@[m]).spec_supports_pull_diagnostics()
    &&& need_init ==> e.server(e.documents@[d].language_servers@[m]).initialized
    &&& filter matches Some(s) ==> e.documents@[d].language_servers@[m] == s
}

/// The server exists, supports pull diagnostics and is initialized.
pub open spec fn sweep_eligible_ids(e: Editor, server_id: u64, need_init: bool) -> bool {
    &&& e.has_server(server_id)
    &&& e.server(server_id).spec_supports_pull_diagnostics()
    &&& need_init ==> e.server(server_id).initialized
}

/// Servers kept their identity, capabilities and initialization state; their
/// token counters only advanced and their outstanding token sets only grew.
pub open spec fn servers_stable_grown(pre: Seq<LanguageServer>, post: Seq<LanguageServer>) -> bool {
    &&& post.len() == pre.len()
    &&& forall|i: int|
        0 <= i < pre.len() ==> server_fields_stable(pre[i], #[trigger] post[i])
    &&& forall|i: int|
        0 <= i < pre.len() ==> pre[i].next_work_token <= (#[trigger] post[i]).next_work_token
    &&& forall|i: int|
        0 <= i < pre.len() ==> pre[i].tokens().subset_of((#[trigger] post[i]).tokens())
}

/// The request's progress token is outstanding on its server, below the
/// server's fresh-token counter.
pub open spec fn request_token_outstanding(ls: Seq<LanguageServer>, req: PullRequest) -> bool {
    exists|i: int|
        0 <= i < ls.len() && (#[trigger] ls[i]).id == req.server_id && ls[i].tokens().contains(
            req.token,
        ) && req.token < ls[i].next_work_token
}

/// The request came from an eligible sweep pair, snapshots the pre-sweep
/// state, and its progress token is outstanding.
pub open spec fn sweep_request_sound(
    pre: Editor,
    post_servers: Seq<LanguageServer>,
    req: PullRequest,
    need_init: bool,
    filter: Option<u64>,
) -> bool {
    &&& exists|d: int, m: int|
        #[trigger] sweep_eligible(pre, d, m, need_init, filter) && req.document_id
            == pre.documents@[d].id
            && req.server_id == pre.documents@[d].language_servers@[m]
    &&& pull_request_valid(pre, req, req.document_id, req.server_id)
    &&& request_token_outstanding(post_servers, req)
}

/// The sweep served the pair: some request targets it, or its server's token
/// counter was exhausted.
pub open spec fn sweep_pair_served(
    pre: Editor,
    ls: Seq<LanguageServer>,
    requests: Seq<PullRequest>,
    d: int,
    m: int,
) -> bool {
    ||| exists|k: int|
        0 <= k < requests.len() && (#[trigger] requests[k]).document_id == pre.documents@[d].id
            && requests[k].server_id == pre.documents@[d].language_servers@[m]
    ||| exists|i: int|
        0 <= i < ls.len() && (#[trigger] ls[i]).id == pre.documents@[d].language_servers@[m]
            && ls[i].next_work_token == u64::MAX
}

/// Every eligible pair strictly before (`d_bound`, `m_bound`) in sweep order
/// whose document has a URI was served.
pub open spec fn sweep_complete_upto(
    pre: Editor,
    ls: Seq<LanguageServer>,
    requests: Seq<PullRequest>,
    d_lo: int,
    d_bound: int,
    m_bound: int,
    need_init: bool,
    filter: Option<u64>,
) -> bool {
    forall|d: int, m: int|
        d_lo <= d && (d < d_bound || (d == d_bound && m < m_bound)) && #[trigger] sweep_eligible(
            pre,
            d,
            m,
            need_init,
            filter,
        ) && pre.documents@[d].uri is Some ==> sweep_pair_served(pre, ls, requests, d, m)
}

/// The request targets the pair at position (`dd`, `mm`) of the sweep
/// order: the document at index `dd` and the server at position `mm` of its
/// attachment list.
pub open spec fn request_targets_pair(pre: Editor, req: PullRequest, dd: int, mm: int) -> bool {
    &&& req.document_id == pre.documents@[dd].id
    &&& req.server_id == pre.documents@[dd].language_servers@[mm]
}

/// The request targets an eligible pair in [`d_lo`, (`d_bound`,
/// `m_bound`)) of the sweep order.
pub open spec fn request_from_before(
    pre: Editor,
    req: PullRequest,
    d_lo: int,
    d_bound: int,
    m_bound: int,
    need_init: bool,
    filter: Option<u64>,
) -> bool {
    exists|dd: int, mm: int|
        #[trigger] sweep_eligible(pre, dd, mm, need_init, filter) && d_lo <= dd && (dd < d_bound
            || (dd == d_bound && mm < m_bound)) && request_targets_pair(pre, req, dd, mm)
}

/// No two of the requests target the same (document, server) pair.
pub open spec fn requests_pairwise_distinct(requests: Seq<PullRequest>) -> bool {
    forall|k1: int, k2: int|
        0 <= k1 < k2 < requests.len() ==> !((#[trigger] requests[k1]).document_id
            == (#[trigger] requests[k2]).document_id && requests[k1].server_id
            == requests[k2].server_id)
}

/// How many of the requests target the given server.
pub open spec fn count_for(requests: Seq<PullRequest>, server_id: u64) -> nat
    decreases requests.len(),
{
    if requests.len() == 0 {
        0nat
    } else {
        count_for(requests.drop_last(), server_id) + if requests.last().server_id == server_id {
            1nat
        } else {
            0nat
        }
    }
}

/// Appending one request raises the count for its server alone.
proof fn lemma_count_for_push(requests: Seq<PullRequest>, r: PullRequest, server_id: u64)
    ensures
        count_for(requests.push(r), server_id) == count_for(requests, server_id) + if r.server_id
            == server_id {
            1int
        } else {
            0int
        },
{
    assert(requests.push(r).drop_last() =~= requests);
    assert(requests.push(r).last() == r);
}

/// What one (possibly declined) pull attempt did, relative to the state
/// `before` it: nothing, because the server was gone, featureless or not
/// initialized; or a pull with its usual outcome.
pub open spec fn pull_attempted(
    before: Editor,
    after: Editor,
    pulled: Option<PullRequest>,
    document_id: u64,
    server_id: u64,
    need_init: bool,
) -> bool {
    ||| (after == before && pulled is None && !sweep_eligible_ids(before, server_id, need_init))
    ||| (sweep_eligible_ids(before, server_id, need_init) && pull_issued(
        before,
        after,
        pulled,
        document_id,
        server_id,
    ))
}

/// As `pull_attempted`, except that a pair whose server is not the one the
/// trigger filters for is skipped untouched.
pub open spec fn pull_attempt_filtered(
    before: Editor,
    after: Editor,
    pulled: Option<PullRequest>,
    document_id: u64,
    server_id: u64,
    need_init: bool,
    filter: Option<u64>,
) -> bool {
    match filter {
        Some(s) => if server_id == s {
            pull_attempted(before, after, pulled, document_id, server_id, need_init)
        } else {
            after == before && pulled is None
        },
        None => pull_attempted(before, after, pulled, document_id, server_id, need_init),
    }
}

/// Two well-formed editors with the same documents agree on document
/// lookups.
proof fn lemma_document_stable(a: Editor, b: Editor, document_id: u64, i: int)
    requires
        a.wf(),
        b.wf(),
        b.documents@ == a.documents@,
        0 <= i < a.documents@.len(),
        a.documents@[i].id == document_id,
    ensures
        a.has_document(document_id),
        b.has_document(document_id),
        a.document(document_id) == a.documents@[i],
        b.document(document_id) == a.documents@[i],
{
    lemma_document_index_unique(a, document_id, i);
    lemma_document_index_unique(b, document_id, i);
}

/// Two well-formed editors whose servers kept their stable fields agree on
/// server lookups, and the looked-up servers agree on those fields.
proof fn lemma_server_stable(a: Editor, b: Editor, server_id: u64, i: int)
    requires
        a.wf(),
        b.wf(),
        b.language_servers@.len() == a.language_servers@.len(),
        forall|p: int|
            0 <= p < a.language_servers@.len() ==> server_fields_stable(
                a.language_servers@[p],
                #[trigger] b.language_servers@[p],
            ),
        0 <= i < a.language_servers@.len(),
        a.language_servers@[i].id == server_id,
    ensures
        a.has_server(server_id),
        b.has_server(server_id),
        a.server_index(server_id) == i,
        b.server_index(server_id) == i,
        a.server(server_id) == a.language_servers@[i],
        b.server(server_id) == b.language_servers@[i],
        server_fields_stable(a.server(server_id), b.server(server_id)),
{
    assert(server_fields_stable(a.language_servers@[i], b.language_servers@[i]));
    lemma_server_index_unique(a, server_id, i);
    lemma_server_index_unique(b, server_id, i);
}

/// One inner step of the sweep preserves its invariants and serves the pair
/// it just processed.
pub proof fn lemma_sweep_step(
    pre: Editor,
    before: Editor,
    after: Editor,
    old_requests: Seq<PullRequest>,
    new_requests: Seq<PullRequest>,
    pulled: Option<PullRequest>,
    d: int,
    m: int,
    d_lo: int,
    need_init: bool,
    filter: Option<u64>,
)
    requires
        pre.wf(),
        before.wf(),
        after.wf(),
        0 <= d < pre.documents@.len(),
        0 <= m < pre.documents@[d].language_servers@.len(),
        d_lo <= d,
        same_but_servers(pre, before),
        servers_stable_grown(pre.language_servers@, before.language_servers@),
        forall|k: int|
            0 <= k < old_requests.len() ==> sweep_request_sound(
                pre,
                before.language_servers@,
                #[trigger] old_requests[k],
                need_init,
                filter,
            ),
        forall|k1: int, k2: int|
            0 <= k1 < k2 < old_requests.len() && (#[trigger] old_requests[k1]).server_id
                == (#[trigger] old_requests[k2]).server_id ==> old_requests[k1].token
                != old_requests[k2].token,
        sweep_complete_upto(pre, before.language_servers@, old_requests, d_lo, d, m, need_init, filter),
        forall|k: int|
            0 <= k < old_requests.len() ==> request_from_before(
                pre,
                #[trigger] old_requests[k],
                d_lo,
                d,
                m,
                need_init,
                filter,
            ),
        requests_pairwise_distinct(old_requests),
        forall|i: int|
            0 <= i < pre.language_servers@.len()
                ==> (#[trigger] before.language_servers@[i]).next_work_token
                == pre.language_servers@[i].next_work_token + count_for(
                old_requests,
                pre.language_servers@[i].id,
            ),
        pull_attempt_filtered(
            before,
            after,
            pulled,
            pre.documents@[d].id,
            pre.documents@[d].language_servers@[m],
            need_init,
            filter,
        ),
        new_requests == match pulled {
            Some(req) => old_requests.push(req),
            None => old_requests,
        },
    ensures
        same_but_servers(pre, after),
        servers_stable_grown(pre.language_servers@, after.language_servers@),
        forall|k: int|
            0 <= k < new_requests.len() ==> sweep_request_sound(
                pre,
                after.language_servers@,
                #[trigger] new_requests[k],
                need_init,
                filter,
            ),
        forall|k1: int, k2: int|
            0 <= k1 < k2 < new_requests.len() && (#[trigger] new_requests[k1]).server_id
                == (#[trigger] new_requests[k2]).server_id ==> new_requests[k1].token
                != new_requests[k2].token,
        sweep_complete_upto(pre, after.language_servers@, new_requests, d_lo, d, m + 1, need_init, filter),
        forall|k: int|
            0 <= k < new_requests.len() ==> request_from_before(
                pre,
                #[trigger] new_requests[k],
                d_lo,
                d,
                m + 1,
                need_init,
                filter,
            ),
        requests_pairwise_distinct(new_requests),
        forall|i: int|
            0 <= i < pre.language_servers@.len()
                ==> (#[trigger] after.language_servers@[i]).next_work_token
                == pre.language_servers@[i].next_work_token + count_for(
                new_requests,
                pre.language_servers@[i].id,
            ),
{
    let sid = pre.documents@[d].language_servers@[m];
    let did = pre.documents@[d].id;
    let pre_ls = pre.language_servers@;
    let bef_ls = before.language_servers@;
    let aft_ls = after.language_servers@;
    let filter_skip = match filter {
        Some(s) => sid != s,
        None => false,
    };
    if filter_skip {
        // the pair was skipped: it cannot be eligible under this filter
        assert(new_requests == old_requests);
        assert(after == before);
        assert forall|dd: int, mm: int|
            d_lo <= dd && (dd < d || (dd == d && mm < m + 1)) && #[trigger] sweep_eligible(
                pre,
                dd,
                mm,
                need_init,
                filter,
            ) && pre.documents@[dd].uri is Some implies sweep_pair_served(
            pre,
            aft_ls,
            new_requests,
            dd,
            mm,
        ) by {
            if dd == d && mm == m {
                assert(false);
            } else {
                assert(sweep_pair_served(pre, bef_ls, old_requests, dd, mm));
            }
        }
    } else if after == before && pulled is None && !sweep_eligible_ids(before, sid, need_init) {
        // the pair was ineligible; show it was already ineligible at sweep start
        assert(new_requests == old_requests);
        assert forall|dd: int, mm: int|
            d_lo <= dd && (dd < d || (dd == d && mm < m + 1)) && #[trigger] sweep_eligible(
                pre,
                dd,
                mm,
                need_init,
                filter,
            ) && pre.documents@[dd].uri is Some implies sweep_pair_served(
            pre,
            aft_ls,
            new_requests,
            dd,
            mm,
        ) by {
            if dd == d && mm == m {
                // eligibility would have survived into `before`
                let i = pre.server_index(sid);
                assert(0 <= i < pre_ls.len() && pre_ls[i].id == sid);
                lemma_server_stable(pre, before, sid, i);
                assert(false);
            } else {
                assert(sweep_pair_served(pre, bef_ls, old_requests, dd, mm));
            }
        }
    } else {
        assert(sweep_eligible_ids(before, sid, need_init));
        assert(pull_issued(before, after, pulled, did, sid));
        let ib = before.server_index(sid);
        assert(0 <= ib < bef_ls.len() && bef_ls[ib].id == sid);
        assert(pre_ls[ib].id == sid) by {
            assert(server_fields_stable(pre_ls[ib], bef_ls[ib]));
        }
        lemma_server_stable(pre, before, sid, ib);
        lemma_document_stable(pre, before, did, d);
        // the documents are untouched and eligibility held, so the pull could
        // only decline for a missing URI or an exhausted counter
        assert(before.document(did).uri == pre.documents@[d].uri);
        // servers only grew across the attempt
        assert(servers_stable_grown(bef_ls, aft_ls)) by {
            if can_pull(before, did, sid) && before.server(sid).next_work_token < u64::MAX {
                let req = pulled.unwrap();
                assert forall|i: int|
                    0 <= i < bef_ls.len() implies server_fields_stable(
                    bef_ls[i],
                    #[trigger] aft_ls[i],
                ) && bef_ls[i].next_work_token <= aft_ls[i].next_work_token
                    && bef_ls[i].tokens().subset_of(aft_ls[i].tokens()) by {
                    if bef_ls[i].id == sid {
                        assert(token_registered(bef_ls[i], aft_ls[i], req.token));
                        assert forall|x: u64| bef_ls[i].tokens().contains(x)
                            implies aft_ls[i].tokens().contains(x) by {
                            assert(aft_ls[i].tokens() == bef_ls[i].tokens().insert(req.token));
                        }
                    } else {
                        assert(aft_ls[i] == bef_ls[i]);
                    }
                }
            } else {
                assert(after == before);
            }
        }
        assert(servers_stable_grown(pre_ls, aft_ls)) by {
            assert forall|i: int|
                0 <= i < pre_ls.len() implies server_fields_stable(pre_ls[i], #[trigger] aft_ls[i])
                && pre_ls[i].next_work_token <= aft_ls[i].next_work_token
                && pre_ls[i].tokens().subset_of(aft_ls[i].tokens()) by {
                assert(server_fields_stable(pre_ls[i], bef_ls[i]));
                assert(server_fields_stable(bef_ls[i], aft_ls[i]));
                assert(pre_ls[i].tokens().subset_of(bef_ls[i].tokens()));
                assert(bef_ls[i].tokens().subset_of(aft_ls[i].tokens()));
            }
        }
        // prior requests stay sound: their tokens stay outstanding
        assert forall|k: int|
            0 <= k < old_requests.len() implies sweep_request_sound(
            pre,
            aft_ls,
            #[trigger] old_requests[k],
            need_init,
            filter,
        ) by {
            let rk = old_requests[k];
            assert(sweep_request_sound(pre, bef_ls, rk, need_init, filter));
            let i = choose|i: int|
                0 <= i < bef_ls.len() && (#[trigger] bef_ls[i]).id == rk.server_id
                    && bef_ls[i].tokens().contains(rk.token) && rk.token
                    < bef_ls[i].next_work_token;
            assert(bef_ls[i].tokens().subset_of(aft_ls[i].tokens()));
            assert(aft_ls[i].tokens().contains(rk.token));
            assert(server_fields_stable(bef_ls[i], aft_ls[i]));
            assert(rk.token < aft_ls[i].next_work_token);
            assert(request_token_outstanding(aft_ls, rk));
        }
        if pulled is None {
            assert(after == before);
            assert(new_requests == old_requests);
            // a decline despite an eligible server: the pair is served only
            // when its document has a URI, and then only the exhausted
            // counter can explain the decline
            assert forall|dd: int, mm: int|
                d_lo <= dd && (dd < d || (dd == d && mm < m + 1)) && #[trigger] sweep_eligible(
                    pre,
                    dd,
                    mm,
                    need_init,
                    filter,
                ) && pre.documents@[dd].uri is Some implies sweep_pair_served(
                pre,
                aft_ls,
                new_requests,
                dd,
                mm,
            ) by {
                if dd == d && mm == m {
                    assert(can_pull(before, did, sid)) by {
                        assert(before.document(did).uri is Some);
                    }
                    assert(before.server(sid).next_work_token == u64::MAX);
                    assert(aft_ls[ib].id == sid && aft_ls[ib].next_work_token == u64::MAX);
                } else {
                    assert(sweep_pair_served(pre, bef_ls, old_requests, dd, mm));
                }
            }
        } else {
            let req = pulled.unwrap();
            assert(can_pull(before, did, sid) && before.server(sid).next_work_token < u64::MAX)
                by {
                if !can_pull(before, did, sid) || before.server(sid).next_work_token == u64::MAX {
                    assert(pulled is None);
                }
            }
            assert(pull_request_valid(before, req, did, sid));
            assert(token_registered(bef_ls[ib], aft_ls[ib], req.token));
            // the new request snapshots the sweep-start state, which the
            // attempt's own pre-state still showed
            assert(pull_request_valid(pre, req, did, sid)) by {
                assert(pre.document(did) == before.document(did));
                assert(provider_identifier_of(pre, sid) == provider_identifier_of(before, sid));
            }
            assert(sweep_eligible(pre, d, m, need_init, filter));
            assert(request_token_outstanding(aft_ls, req)) by {
                assert(aft_ls[ib].id == sid);
                assert(aft_ls[ib].tokens() == bef_ls[ib].tokens().insert(req.token));
                assert(aft_ls[ib].tokens().contains(req.token));
                assert(req.token < aft_ls[ib].next_work_token);
            }
            assert forall|k: int|
                0 <= k < new_requests.len() implies sweep_request_sound(
                pre,
                aft_ls,
                #[trigger] new_requests[k],
                need_init,
                filter,
            ) by {
                if k < old_requests.len() {
                    assert(new_requests[k] == old_requests[k]);
                } else {
                    assert(new_requests[k] == req);
                    assert(sweep_eligible(pre, d, m, need_init, filter) && req.document_id
                        == pre.documents@[d].id
                        && req.server_id == pre.documents@[d].language_servers@[m]);
                }
            }
            // distinct tokens per server: every earlier token on this server
            // is below the counter value the new token was taken from
            assert forall|k1: int, k2: int|
                0 <= k1 < k2 < new_requests.len() && (#[trigger] new_requests[k1]).server_id
                    == (#[trigger] new_requests[k2]).server_id implies new_requests[k1].token
                != new_requests[k2].token by {
                if k2 == old_requests.len() {
                    let rk = old_requests[k1];
                    assert(new_requests[k1] == rk && new_requests[k2] == req);
                    if rk.server_id == sid {
                        assert(sweep_request_sound(pre, bef_ls, rk, need_init, filter));
                        let i = choose|i: int|
                            0 <= i < bef_ls.len() && (#[trigger] bef_ls[i]).id == rk.server_id
                                && bef_ls[i].tokens().contains(rk.token) && rk.token
                                < bef_ls[i].next_work_token;
                        if i < ib {
                            assert(bef_ls[i].id != bef_ls[ib].id);
                        } else if ib < i {
                            assert(bef_ls[ib].id != bef_ls[i].id);
                        }
                        assert(i == ib);
                        assert(rk.token < bef_ls[ib].next_work_token);
                        assert(req.token == bef_ls[ib].next_work_token);
                    }
                } else {
                    assert(new_requests[k1] == old_requests[k1]);
                    assert(new_requests[k2] == old_requests[k2]);
                }
            }
            assert forall|dd: int, mm: int|
                d_lo <= dd && (dd < d || (dd == d && mm < m + 1)) && #[trigger] sweep_eligible(
                    pre,
                    dd,
                    mm,
                    need_init,
                    filter,
                ) && pre.documents@[dd].uri is Some implies sweep_pair_served(
                pre,
                aft_ls,
                new_requests,
                dd,
                mm,
            ) by {
                if dd == d && mm == m {
                    assert(new_requests[old_requests.len() as int] == req);
                    assert(sweep_pair_served(pre, aft_ls, new_requests, dd, mm));
                } else {
                    assert(sweep_pair_served(pre, bef_ls, old_requests, dd, mm));
                    if exists|k: int|
                        0 <= k < old_requests.len() && (#[trigger] old_requests[k]).document_id
                            == pre.documents@[dd].id && old_requests[k].server_id
                            == pre.documents@[dd].language_servers@[mm] {
                        let k = choose|k: int|
                            0 <= k < old_requests.len() && (#[trigger] old_requests[k]).document_id
                                == pre.documents@[dd].id && old_requests[k].server_id
                                == pre.documents@[dd].language_servers@[mm];
                        assert(new_requests[k] == old_requests[k]);
                    } else {
                        let i = choose|i: int|
                            0 <= i < bef_ls.len() && (#[trigger] bef_ls[i]).id
                                == pre.documents@[dd].language_servers@[mm]
                                && bef_ls[i].next_work_token == u64::MAX;
                        if bef_ls[i].id == sid {
                            if i < ib {
                                assert(bef_ls[i].id != bef_ls[ib].id);
                            } else if ib < i {
                                assert(bef_ls[ib].id != bef_ls[i].id);
                            }
                            assert(i == ib);
                            assert(bef_ls[ib].next_work_token < u64::MAX);
                        } else {
                            assert(aft_ls[i] == bef_ls[i]);
                        }
                    }
                }
            }
        }
    }
    // every request is pinned to a pair already visited, and no pair is
    // served twice
    match pulled {
        None => {
            assert(new_requests == old_requests);
            assert forall|k: int|
                0 <= k < new_requests.len() implies request_from_before(
                pre,
                #[trigger] new_requests[k],
                d_lo,
                d,
                m + 1,
                need_init,
                filter,
            ) by {
                assert(request_from_before(pre, old_requests[k], d_lo, d, m, need_init, filter));
                let (dd, mm) = choose|dd: int, mm: int|
                    #[trigger] sweep_eligible(pre, dd, mm, need_init, filter) && d_lo <= dd && (dd
                        < d || (dd == d && mm < m)) && request_targets_pair(
                        pre,
                        old_requests[k],
                        dd,
                        mm,
                    );
                assert(sweep_eligible(pre, dd, mm, need_init, filter) && d_lo <= dd && (dd < d || (
                dd == d && mm < m + 1)) && request_targets_pair(pre, new_requests[k], dd, mm));
            }
        },
        Some(req) => {
            // the attempt can only have issued for this very pair
            assert(sweep_eligible_ids(before, sid, need_init));
            assert(pull_issued(before, after, pulled, did, sid));
            assert(req.document_id == did && req.server_id == sid);
            let iw = before.server_index(sid);
            assert(0 <= iw < before.language_servers@.len() && before.language_servers@[iw].id
                == sid);
            assert(pre.language_servers@[iw].id == sid) by {
                assert(server_fields_stable(
                    pre.language_servers@[iw],
                    before.language_servers@[iw],
                ));
            }
            lemma_server_stable(pre, before, sid, iw);
            assert(sweep_eligible(pre, d, m, need_init, filter));
            assert(request_targets_pair(pre, req, d, m));
            assert forall|k: int|
                0 <= k < new_requests.len() implies request_from_before(
                pre,
                #[trigger] new_requests[k],
                d_lo,
                d,
                m + 1,
                need_init,
                filter,
            ) by {
                if k < old_requests.len() {
                    assert(new_requests[k] == old_requests[k]);
                    assert(request_from_before(pre, old_requests[k], d_lo, d, m, need_init,
                        filter));
                    let (dd, mm) = choose|dd: int, mm: int|
                        #[trigger] sweep_eligible(pre, dd, mm, need_init, filter) && d_lo <= dd && (
                        dd < d || (dd == d && mm < m)) && request_targets_pair(
                            pre,
                            old_requests[k],
                            dd,
                            mm,
                        );
                    assert(sweep_eligible(pre, dd, mm, need_init, filter) && d_lo <= dd && (dd < d
                        || (dd == d && mm < m + 1)) && request_targets_pair(
                        pre,
                        new_requests[k],
                        dd,
                        mm,
                    ));
                } else {
                    assert(new_requests[k] == req);
                    assert(sweep_eligible(pre, d, m, need_init, filter) && d_lo <= d && (d < d || (
                    d == d && m < m + 1)) && request_targets_pair(pre, new_requests[k], d, m));
                }
            }
            // an earlier request for the same pair would come from an
            // earlier position, against the uniqueness of ids
            assert forall|k: int|
                0 <= k < old_requests.len() implies !((#[trigger] old_requests[k]).document_id
                == did && old_requests[k].server_id == sid) by {
                if old_requests[k].document_id == did && old_requests[k].server_id == sid {
                    let (dd, mm) = choose|dd: int, mm: int|
                        #[trigger] sweep_eligible(pre, dd, mm, need_init, filter) && d_lo <= dd && (
                        dd < d || (dd == d && mm < m)) && request_targets_pair(
                            pre,
                            old_requests[k],
                            dd,
                            mm,
                        );
                    if dd < d {
                        assert(pre.documents@[dd].id != pre.documents@[d].id);
                    } else {
                        assert(dd == d && mm < m);
                        assert(pre.documents@[d].language_servers@[mm]
                            != pre.documents@[d].language_servers@[m]);
                    }
                }
            }
            assert forall|k1: int, k2: int|
                0 <= k1 < k2 < new_requests.len() implies !((#[trigger] new_requests[k1]).document_id
                == (#[trigger] new_requests[k2]).document_id && new_requests[k1].server_id
                == new_requests[k2].server_id) by {
                if k2 == old_requests.len() as int {
                    assert(new_requests[k1] == old_requests[k1]);
                    assert(new_requests[k2] == req);
                } else {
                    assert(new_requests[k1] == old_requests[k1]);
                    assert(new_requests[k2] == old_requests[k2]);
                }
            }
        },
    }
    // counters advance by exactly the requests this step added
    assert forall|i: int|
        0 <= i < pre.language_servers@.len() implies (#[trigger] after.language_servers@[i]).next_work_token
        == pre.language_servers@[i].next_work_token + count_for(
        new_requests,
        pre.language_servers@[i].id,
    ) by {
        match pulled {
            None => {
                assert(after == before);
                assert(new_requests == old_requests);
            },
            Some(req3) => {
                lemma_count_for_push(old_requests, req3, pre.language_servers@[i].id);
                assert(req3.server_id == sid);
                assert(server_fields_stable(pre.language_servers@[i], before.language_servers@[i]));
                if pre.language_servers@[i].id == sid {
                    assert(token_registered(
                        before.language_servers@[i],
                        after.language_servers@[i],
                        req3.token,
                    ));
                } else {
                    assert(after.language_servers@[i] == before.language_servers@[i]);
                }
            },
        }
    }
}

/// The debounce sweep: pulls diagnostics for every currently open document,
/// from each attached server that supports the feature and is initialized.
/// Every such pair whose document has a URI gets a request (unless its
/// server's token counter is exhausted), each request snapshots the
/// pre-sweep state, and requests on one server carry distinct progress
/// tokens.
pub fn pull_diagnostics_for_open_documents(editor: &mut Editor) -> (requests: Vec<PullRequest>)
    requires
        old(editor).wf(),
    ensures
        final(editor).wf(),
        same_but_servers(*old(editor), *final(editor)),
        servers_stable_grown(old(editor).language_servers@, final(editor).language_servers@),
        forall|k: int|
            0 <= k < requests@.len() ==> sweep_request_sound(
                *old(editor),
                final(editor).language_servers@,
                #[trigger] requests@[k],
                true,
                None,
            ),
        forall|k1: int, k2: int|
            0 <= k1 < k2 < requests@.len() && (#[trigger] requests@[k1]).server_id
                == (#[trigger] requests@[k2]).server_id ==> requests@[k1].token
                != requests@[k2].token,
        requests_pairwise_distinct(requests@),
        forall|i: int|
            0 <= i < old(editor).language_servers@.len()
                ==> (#[trigger] final(editor).language_servers@[i]).next_work_token
                == old(editor).language_servers@[i].next_work_token + count_for(
                requests@,
                old(editor).language_servers@[i].id,
            ),
        sweep_complete_upto(
            *old(editor),
            final(editor).language_servers@,
            requests@,
            0,
            old(editor).documents@.len() as int,
            0,
            true,
            None,
        ),
{
    let ghost pre = *old(editor);
    let mut requests: Vec<PullRequest> = Vec::new();
    let ndocs = editor.documents.len();
    let mut d: usize = 0;
    while d < ndocs
        invariant
            pre.wf(),
            editor.wf(),
            d <= ndocs,
            ndocs == pre.documents@.len(),
            same_but_servers(pre, *editor),
            servers_stable_grown(pre.language_servers@, editor.language_servers@),
            forall|k: int|
                0 <= k < requests@.len() ==> sweep_request_sound(
                    pre,
                    editor.language_servers@,
                    #[trigger] requests@[k],
                    true,
                    None,
                ),
            forall|k1: int, k2: int|
                0 <= k1 < k2 < requests@.len() && (#[trigger] requests@[k1]).server_id
                    == (#[trigger] requests@[k2]).server_id ==> requests@[k1].token
                    != requests@[k2].token,
            sweep_complete_upto(pre, editor.language_servers@, requests@, 0, d as int, 0, true, None),
            forall|k: int|
                0 <= k < requests@.len() ==> request_from_before(
                    pre,
                    #[trigger] requests@[k],
                    0,
                    d as int,
                    0,
                    true,
                    None,
                ),
            requests_pairwise_distinct(requests@),
            forall|i: int|
                0 <= i < pre.language_servers@.len()
                    ==> (#[trigger] editor.language_servers@[i]).next_work_token
                    == pre.language_servers@[i].next_work_token + count_for(
                    requests@,
                    pre.language_servers@[i].id,
                ),
        decreases ndocs - d,
    {
        let nsrv = editor.documents[d].language_servers.len();
        let doc_id = editor.documents[d].id;
        let mut m: usize = 0;
        while m < nsrv
            invariant
                pre.wf(),
                editor.wf(),
                d < ndocs,
                m <= nsrv,
                ndocs == pre.documents@.len(),
                nsrv == pre.documents@[d as int].language_servers@.len(),
                doc_id == pre.documents@[d as int].id,
                same_but_servers(pre, *editor),
                servers_stable_grown(pre.language_servers@, editor.language_servers@),
                forall|k: int|
                    0 <= k < requests@.len() ==> sweep_request_sound(
                        pre,
                        editor.language_servers@,
                        #[trigger] requests@[k],
                        true,
                        None,
                    ),
                forall|k1: int, k2: int|
                    0 <= k1 < k2 < requests@.len() && (#[trigger] requests@[k1]).server_id
                        == (#[trigger] requests@[k2]).server_id ==> requests@[k1].token
                        != requests@[k2].token,
                sweep_complete_upto(pre, editor.language_servers@, requests@, 0, d as int, m as int, true, None),
                forall|k: int|
                    0 <= k < requests@.len() ==> request_from_before(
                        pre,
                        #[trigger] requests@[k],
                        0,
                        d as int,
                        m as int,
                        true,
                        None,
                    ),
                requests_pairwise_distinct(requests@),
                forall|i: int|
                    0 <= i < pre.language_servers@.len()
                        ==> (#[trigger] editor.language_servers@[i]).next_work_token
                        == pre.language_servers@[i].next_work_token + count_for(
                        requests@,
                        pre.language_servers@[i].id,
                    ),
            decreases nsrv - m,
        {
            let server_id = editor.documents[d].language_servers[m];
            let ghost before = *editor;
            let ghost before_requests = requests@;
            let mut pulled: Option<PullRequest> = None;
            match find_server_index(editor, server_id) {
                Some(si) => {
                    proof {
                        lemma_server_index_unique(*editor, server_id, si as int);
                    }
                    if editor.language_servers[si].supports_pull_diagnostics()
                        && editor.language_servers[si].initialized {
                        pulled = pull_diagnostics_for_document(editor, doc_id, server_id);
                    }
                },
                None => {},
            }
            match pulled {
                Some(req) => {
                    requests.push(req);
                },
                None => {},
            }
            proof {
                assert(pull_attempt_filtered(before, *editor, pulled, doc_id, server_id, true, None));
                lemma_sweep_step(
                    pre,
                    before,
                    *editor,
                    before_requests,
                    requests@,
                    pulled,
                    d as int,
                    m as int,
                    0,
                    true,
                    None,
                );
            }
            m += 1;
        }
        proof {
            assert forall|dd: int, mm: int|
                0 <= dd && (dd < d + 1 || (dd == d + 1 && mm < 0)) && #[trigger] sweep_eligible(
                    pre,
                    dd,
                    mm,
                    true,
                    None,
                ) && pre.documents@[dd].uri is Some implies sweep_pair_served(
                pre,
                editor.language_servers@,
                requests@,
                dd,
                mm,
            ) by {
                assert(dd < d as int || (dd == d as int && mm < nsrv as int));
            }
            assert forall|k: int|
                0 <= k < requests@.len() implies request_from_before(
                pre,
                #[trigger] requests@[k],
                0,
                d as int + 1,
                0,
                true,
                None,
            ) by {
                assert(request_from_before(pre, requests@[k], 0, d as int, nsrv as int, true,
                    None));
                let (dd, mm) = choose|dd: int, mm: int|
                    #[trigger] sweep_eligible(pre, dd, mm, true, None) && 0 <= dd && (dd < d as int
                        || (dd == d as int && mm < nsrv as int)) && request_targets_pair(
                        pre,
                        requests@[k],
                        dd,
                        mm,
                    );
                assert(sweep_eligible(pre, dd, mm, true, None) && 0 <= dd && (dd < d as int + 1 || (
                dd == d as int + 1 && mm < 0)) && request_targets_pair(pre, requests@[k], dd, mm));
            }
        }
        d += 1;
    }
    requests
}
} // verus!
