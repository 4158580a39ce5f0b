//! The event trigger set: translates the five editor lifecycle signals into
//! the right downstream action. Diagnostics-changed refreshes the views
//! unless the user is mid-edit; a mode switch flips each view's visibility
//! gate; a document change enqueues a debounced pull event; a document open
//! and a server initialization pull immediately.

use vstd::prelude::*;

use crate::debounce::PullDiagnosticsEvent;
use crate::driver::PullRequest;
use crate::driver::pull_attempt_filtered;
use crate::driver::pull_diagnostics_for_document;
use crate::driver::request_from_before;
use crate::driver::request_targets_pair;
use crate::driver::count_for;
use crate::driver::requests_pairwise_distinct;
use crate::driver::servers_stable_grown;
use crate::driver::sweep_complete_upto;
use crate::driver::sweep_eligible;
use crate::driver::sweep_request_sound;
use crate::model::Editor;
use crate::model::EditorView;
use crate::model::Mode;
use crate::model::find_document_index;
use crate::model::find_server_index;
use crate::model::lemma_document_index_unique;
use crate::model::lemma_server_index_unique;
use crate::model::same_but_servers;
use crate::model::vec_entry_mut;

verus! {

/// A refresh counter bumped once more, pinned to the counter's range.
pub open spec fn bumped(n: u64) -> u64 {
    if n < u64::MAX {
        (n + 1) as u64
    } else {
        u64::MAX
    }
}

/// Every view kept its visibility gate and was sent one refresh signal.
pub open spec fn views_refreshed(pre: Seq<EditorView>, post: Seq<EditorView>) -> bool {
    &&& post.len() == pre.len()
    &&& forall|i: int| 0 <= i < pre.len() ==> (#[trigger] post[i]).active == pre[i].active
    &&& forall|i: int| 0 <= i < pre.len() ==> (#[trigger] post[i]).refreshes == bumped(
        pre[i].refreshes,
    )
}

/// Diagnostics were merged into storage from somewhere: refresh every
/// view's rendering, unless the editor is in the edit-heavy mode, in which
/// case nothing happens.
pub fn on_diagnostics_did_change(editor: &mut Editor)
    requires
        old(editor).wf(),
    ensures
        final(editor).wf(),
        final(editor).mode == old(editor).mode,
        final(editor).documents@ == old(editor).documents@,
        final(editor).language_servers@ == old(editor).language_servers@,
        final(editor).diagnostics@ == old(editor).diagnostics@,
        old(editor).mode == Mode::Insert ==> final(editor).views@ == old(editor).views@,
        old(editor).mode != Mode::Insert ==> views_refreshed(
            old(editor).views@,
            final(editor).views@,
        ),
{
    if editor.mode == Mode::Insert {
        return ;
    }
    let n = editor.views.len();
    let mut i: usize = 0;
    while i < n
        invariant
            i <= n,
            n == editor.views@.len(),
            editor.wf(),
            editor.mode == old(editor).mode,
            editor.documents@ == old(editor).documents@,
            editor.language_servers@ == old(editor).language_servers@,
            editor.diagnostics@ == old(editor).diagnostics@,
            editor.views@.len() == old(editor).views@.len(),
            forall|j: int|
                0 <= j < i ==> (#[trigger] editor.views@[j]).active == old(editor).views@[j].active
                    && editor.views@[j].refreshes == bumped(old(editor).views@[j].refreshes),
            forall|j: int| i <= j < n ==> editor.views@[j] == old(editor).views@[j],
        decreases n - i,
    {
        let view = vec_entry_mut(&mut editor.views, i);
        if view.refreshes < u64::MAX {
            view.refreshes = view.refreshes + 1;
        }
        i += 1;
    }
}

/// The editor switched modes: record the new mode, and mark every view's
/// diagnostics handler active unless the new mode is the edit-heavy one.
pub fn on_mode_switch(editor: &mut Editor, new_mode: Mode)
    requires
        old(editor).wf(),
    ensures
        final(editor).wf(),
        final(editor).mode == new_mode,
        final(editor).documents@ == old(editor).documents@,
        final(editor).language_servers@ == old(editor).language_servers@,
        final(editor).diagnostics@ == old(editor).diagnostics@,
        final(editor).views@.len() == old(editor).views@.len(),
        forall|i: int|
            0 <= i < old(editor).views@.len() ==> (#[trigger] final(editor).views@[i]).refreshes
                == old(editor).views@[i].refreshes && final(editor).views@[i].active == (new_mode
                != Mode::Insert),
{
    editor.mode = new_mode;
    let active = new_mode != Mode::Insert;
    let n = editor.views.len();
    let mut i: usize = 0;
    while i < n
        invariant
            i <= n,
            n == editor.views@.len(),
            editor.wf(),
            editor.mode == new_mode,
            editor.documents@ == old(editor).documents@,
            editor.language_servers@ == old(editor).language_servers@,
            editor.diagnostics@ == old(editor).diagnostics@,
            editor.views@.len() == old(editor).views@.len(),
            active == (new_mode != Mode::Insert),
            forall|j: int|
                0 <= j < i ==> (#[trigger] editor.views@[j]).refreshes == old(
                    editor,
                ).views@[j].refreshes && editor.views@[j].active == active,
            forall|j: int| i <= j < n ==> editor.views@[j] == old(editor).views@[j],
        decreases n - i,
    {
        let view = vec_entry_mut(&mut editor.views, i);
        view.active = active;
        i += 1;
    }
}

/// The document is open and some attached server supports pull diagnostics.
pub open spec fn doc_has_pull_server(e: Editor, document_id: u64) -> bool {
    &&& e.has_document(document_id)
    &&& exists|m: int|
        {
            &&& 0 <= m < e.document(document_id).language_servers@.len()
            &&& e.has_server(#[trigger] e.document(document_id).language_servers@[m])
            &&& e.server(
                e.document(document_id).language_servers@[m],
            ).spec_supports_pull_diagnostics()
        }
}

/// The document's text changed: if any attached server supports pull
/// diagnostics, hand back the event to feed into the debounce batcher.
/// Pulling never happens here directly.
pub fn on_document_did_change(editor: &Editor, document_id: u64) -> (r: Option<
    PullDiagnosticsEvent,
>)
    requires
        editor.wf(),
    ensures
        r is Some <==> doc_has_pull_server(*editor, document_id),
        r is Some ==> r == Some(PullDiagnosticsEvent { document_id }),
{
    let d = match find_document_index(editor, document_id) {
        Some(i) => i,
        None => {
            return None;
        },
    };
    proof {
        lemma_document_index_unique(*editor, document_id, d as int);
    }
    let n = editor.documents[d].language_servers.len();
    let mut m: usize = 0;
    while m < n
        invariant
            m <= n,
            editor.wf(),
            d < editor.documents@.len(),
            editor.documents@[d as int].id == document_id,
            editor.document_index(document_id) == d as int,
            n == editor.documents@[d as int].language_servers@.len(),
            forall|j: int|
                0 <= j < m ==> !{
                    &&& editor.has_server(
                        #[trigger] editor.documents@[d as int].language_servers@[j],
                    )
                    &&& editor.server(
                        editor.documents@[d as int].language_servers@[j],
                    ).spec_supports_pull_diagnostics()
                },
        decreases n - m,
    {
        let server_id = editor.documents[d].language_servers[m];
        match find_server_index(editor, server_id) {
            Some(si) => {
                proof {
                    lemma_server_index_unique(*editor, server_id, si as int);
                }
                if editor.language_servers[si].supports_pull_diagnostics() {
                    return Some(PullDiagnosticsEvent { document_id });
                }
            },
            None => {},
        }
        m += 1;
    }
    proof {
        assert forall|mm: int|
            0 <= mm < editor.document(document_id).language_servers@.len() implies !{
            &&& editor.has_server(#[trigger] editor.document(document_id).language_servers@[mm])
            &&& editor.server(
                editor.document(document_id).language_servers@[mm],
            ).spec_supports_pull_diagnostics()
        } by {
            assert(editor.document(document_id) == editor.documents@[d as int]);
        }
    }
    None
}

/// A document was opened: immediately pull its diagnostics from every
/// attached server that supports the feature, without waiting for the
/// debounce batcher, so the first paint does not lag.
pub fn on_document_did_open(editor: &mut Editor, document_id: u64) -> (requests: Vec<PullRequest>)
    requires
        old(editor).wf(),
    ensures
        final(editor).wf(),
        same_but_servers(*old(editor), *final(editor)),
        servers_stable_grown(old(editor).language_servers@, final(editor).language_servers@),
        !old(editor).has_document(document_id) ==> (*final(editor) == *old(editor)
            && requests@.len() == 0),
        requests_pairwise_distinct(requests@),
        forall|k: int| 0 <= k < requests@.len() ==> (#[trigger] requests@[k]).document_id
            == document_id,
        forall|i: int|
            0 <= i < old(editor).language_servers@.len()
                ==> (#[trigger] final(editor).language_servers@[i]).next_work_token
                == old(editor).language_servers@[i].next_work_token + count_for(
                requests@,
                old(editor).language_servers@[i].id,
            ),
        old(editor).has_document(document_id) ==> {
            &&& forall|k: int|
                0 <= k < requests@.len() ==> sweep_request_sound(
                    *old(editor),
                    final(editor).language_servers@,
                    #[trigger] requests@[k],
                    false,
                    None,
                )
            &&& forall|k1: int, k2: int|
                0 <= k1 < k2 < requests@.len() && (#[trigger] requests@[k1]).server_id
                    == (#[trigger] requests@[k2]).server_id ==> requests@[k1].token
                    != requests@[k2].token
            &&& sweep_complete_upto(
                *old(editor),
                final(editor).language_servers@,
                requests@,
                old(editor).document_index(document_id),
                old(editor).document_index(document_id),
                old(editor).document(document_id).language_servers@.len() as int,
                false,
                None,
            )
        },
{
    let d = match find_document_index(editor, document_id) {
        Some(i) => i,
        None => {
            return Vec::new();
        },
    };
    let ghost pre = *editor;
    proof {
        lemma_document_index_unique(pre, document_id, d as int);
    }
    let mut requests: Vec<PullRequest> = Vec::new();
    let nsrv = editor.documents[d].language_servers.len();
    let doc_id = editor.documents[d].id;
    let mut m: usize = 0;
    while m < nsrv
        invariant
            pre.wf(),
            editor.wf(),
            m <= nsrv,
            d < pre.documents@.len(),
            nsrv == pre.documents@[d as int].language_servers@.len(),
            doc_id == pre.documents@[d as int].id,
            same_but_servers(pre, *editor),
            servers_stable_grown(pre.language_servers@, editor.language_servers@),
            forall|k: int|
                0 <= k < requests@.len() ==> sweep_request_sound(
                    pre,
                    editor.language_servers@,
                    #[trigger] requests@[k],
                    false,
                    None,
                ),
            forall|k1: int, k2: int|
                0 <= k1 < k2 < requests@.len() && (#[trigger] requests@[k1]).server_id
                    == (#[trigger] requests@[k2]).server_id ==> requests@[k1].token
                    != requests@[k2].token,
            sweep_complete_upto(
                pre,
                editor.language_servers@,
                requests@,
                d as int,
                d as int,
                m as int,
                false,
                None,
            ),
            forall|k: int|
                0 <= k < requests@.len() ==> request_from_before(
                    pre,
                    #[trigger] requests@[k],
                    d as int,
                    d as int,
                    m as int,
                    false,
                    None,
                ),
            requests_pairwise_distinct(requests@),
            forall|i: int|
                0 <= i < pre.language_servers@.len()
                    ==> (#[trigger] editor.language_servers@[i]).next_work_token
                    == pre.language_servers@[i].next_work_token + count_for(
                    requests@,
                    pre.language_servers@[i].id,
                ),
        decreases nsrv - m,
    {
        let server_id = editor.documents[d].language_servers[m];
        let ghost before = *editor;
        let ghost before_requests = requests@;
        let mut pulled: Option<PullRequest> = None;
        match find_server_index(editor, server_id) {
            Some(si) => {
                proof {
                    lemma_server_index_unique(*editor, server_id, si as int);
                }
                if editor.language_servers[si].supports_pull_diagnostics() {
                    pulled = pull_diagnostics_for_document(editor, doc_id, server_id);
                }
            },
            None => {},
        }
        match pulled {
            Some(req) => {
                requests.push(req);
            },
            None => {},
        }
        proof {
            assert(pull_attempt_filtered(before, *editor, pulled, doc_id, server_id, false, None));
            crate::driver::lemma_sweep_step(
                pre,
                before,
                *editor,
                before_requests,
                requests@,
                pulled,
                d as int,
                m as int,
                d as int,
                false,
                None,
            );
        }
        m += 1;
    }
    proof {
        assert forall|k: int|
            0 <= k < requests@.len() implies (#[trigger] requests@[k]).document_id
            == document_id by {
            assert(request_from_before(pre, requests@[k], d as int, d as int, nsrv as int, false,
                None));
            let (dd, mm) = choose|dd: int, mm: int|
                #[trigger] crate::driver::sweep_eligible(pre, dd, mm, false, None) && d as int
                    <= dd && (dd < d as int || (dd == d as int && mm < nsrv as int))
                    && request_targets_pair(pre, requests@[k], dd, mm);
            assert(dd == d as int);
            assert(requests@[k].document_id == pre.documents@[d as int].id);
        }
    }
    requests
}

/// A language server finished initializing: if it supports pull
/// diagnostics, immediately pull every open document attached to it, to
/// catch up documents opened before the server became ready.
pub fn on_server_initialized(editor: &mut Editor, server_id: u64) -> (requests: Vec<PullRequest>)
    requires
        old(editor).wf(),
    ensures
        final(editor).wf(),
        same_but_servers(*old(editor), *final(editor)),
        servers_stable_grown(old(editor).language_servers@, final(editor).language_servers@),
        requests_pairwise_distinct(requests@),
        forall|i: int|
            0 <= i < old(editor).language_servers@.len()
                ==> (#[trigger] final(editor).language_servers@[i]).next_work_token
                == old(editor).language_servers@[i].next_work_token + count_for(
                requests@,
                old(editor).language_servers@[i].id,
            ),
        !(old(editor).has_server(server_id) && old(editor).server(
            server_id,
        ).spec_supports_pull_diagnostics()) ==> (*final(editor) == *old(editor) && requests@.len()
            == 0),
        (old(editor).has_server(server_id) && old(editor).server(
            server_id,
        ).spec_supports_pull_diagnostics()) ==> {
            &&& forall|k: int|
                0 <= k < requests@.len() ==> sweep_request_sound(
                    *old(editor),
                    final(editor).language_servers@,
                    #[trigger] requests@[k],
                    false,
                    Some(server_id),
                )
            &&& forall|k1: int, k2: int|
                0 <= k1 < k2 < requests@.len() && (#[trigger] requests@[k1]).server_id
                    == (#[trigger] requests@[k2]).server_id ==> requests@[k1].token
                    != requests@[k2].token
            &&& sweep_complete_upto(
                *old(editor),
                final(editor).language_servers@,
                requests@,
                0,
                old(editor).documents@.len() as int,
                0,
                false,
                Some(server_id),
            )
        },
{
    let si = match find_server_index(editor, server_id) {
        Some(i) => i,
        None => {
            return Vec::new();
        },
    };
    proof {
        lemma_server_index_unique(*editor, server_id, si as int);
    }
    if !editor.language_servers[si].supports_pull_diagnostics() {
        return Vec::new();
    }
    let ghost pre = *editor;
    let mut requests: Vec<PullRequest> = Vec::new();
    let ndocs = editor.documents.len();
    let mut d: usize = 0;
    while d < ndocs
        invariant
            pre.wf(),
            editor.wf(),
            d <= ndocs,
            ndocs == pre.documents@.len(),
            same_but_servers(pre, *editor),
            servers_stable_grown(pre.language_servers@, editor.language_servers@),
            forall|k: int|
                0 <= k < requests@.len() ==> sweep_request_sound(
                    pre,
                    editor.language_servers@,
                    #[trigger] requests@[k],
                    false,
                    Some(server_id),
                ),
            forall|k1: int, k2: int|
                0 <= k1 < k2 < requests@.len() && (#[trigger] requests@[k1]).server_id
                    == (#[trigger] requests@[k2]).server_id ==> requests@[k1].token
                    != requests@[k2].token,
            sweep_complete_upto(
                pre,
                editor.language_servers@,
                requests@,
                0,
                d as int,
                0,
                false,
                Some(server_id),
            ),
            forall|k: int|
                0 <= k < requests@.len() ==> request_from_before(
                    pre,
                    #[trigger] requests@[k],
                    0,
                    d as int,
                    0,
                    false,
                    Some(server_id),
                ),
            requests_pairwise_distinct(requests@),
            forall|i: int|
                0 <= i < pre.language_servers@.len()
                    ==> (#[trigger] editor.language_servers@[i]).next_work_token
                    == pre.language_servers@[i].next_work_token + count_for(
                    requests@,
                    pre.language_servers@[i].id,
                ),
        decreases ndocs - d,
    {
        let nsrv = editor.documents[d].language_servers.len();
        let doc_id = editor.documents[d].id;
        let mut m: usize = 0;
        while m < nsrv
            invariant
                pre.wf(),
                editor.wf(),
                d < ndocs,
                m <= nsrv,
                ndocs == pre.documents@.len(),
                nsrv == pre.documents@[d as int].language_servers@.len(),
                doc_id == pre.documents@[d as int].id,
                same_but_servers(pre, *editor),
                servers_stable_grown(pre.language_servers@, editor.language_servers@),
                forall|k: int|
                    0 <= k < requests@.len() ==> sweep_request_sound(
                        pre,
                        editor.language_servers@,
                        #[trigger] requests@[k],
                        false,
                        Some(server_id),
                    ),
                forall|k1: int, k2: int|
                    0 <= k1 < k2 < requests@.len() && (#[trigger] requests@[k1]).server_id
                        == (#[trigger] requests@[k2]).server_id ==> requests@[k1].token
                        != requests@[k2].token,
                sweep_complete_upto(
                    pre,
                    editor.language_servers@,
                    requests@,
                    0,
                    d as int,
                    m as int,
                    false,
                    Some(server_id),
                ),
                forall|k: int|
                    0 <= k < requests@.len() ==> request_from_before(
                        pre,
                        #[trigger] requests@[k],
                        0,
                        d as int,
                        m as int,
                        false,
                        Some(server_id),
                    ),
                requests_pairwise_distinct(requests@),
                forall|i: int|
                    0 <= i < pre.language_servers@.len()
                        ==> (#[trigger] editor.language_servers@[i]).next_work_token
                        == pre.language_servers@[i].next_work_token + count_for(
                        requests@,
                        pre.language_servers@[i].id,
                    ),
            decreases nsrv - m,
        {
            let sid = editor.documents[d].language_servers[m];
            let ghost before = *editor;
            let ghost before_requests = requests@;
            let mut pulled: Option<PullRequest> = None;
            if sid == server_id {
                match find_server_index(editor, sid) {
                    Some(sj) => {
                        proof {
                            lemma_server_index_unique(*editor, sid, sj as int);
                        }
                        if editor.language_servers[sj].supports_pull_diagnostics() {
                            pulled = pull_diagnostics_for_document(editor, doc_id, sid);
                        }
                    },
                    None => {},
                }
            }
            match pulled {
                Some(req) => {
                    requests.push(req);
                },
                None => {},
            }
            proof {
                assert(pull_attempt_filtered(
                    before,
                    *editor,
                    pulled,
                    doc_id,
                    sid,
                    false,
                    Some(server_id),
                ));
                crate::driver::lemma_sweep_step(
                    pre,
                    before,
                    *editor,
                    before_requests,
                    requests@,
                    pulled,
                    d as int,
                    m as int,
                    0,
                    false,
                    Some(server_id),
                );
            }
            m += 1;
        }
        proof {
            assert forall|dd: int, mm: int|
                0 <= dd && (dd < d + 1 || (dd == d + 1 && mm < 0)) && #[trigger] sweep_eligible(
                    pre,
                    dd,
                    mm,
                    false,
                    Some(server_id),
                ) && pre.documents@[dd].uri is Some implies crate::driver::sweep_pair_served(
                pre,
                editor.language_servers@,
                requests@,
                dd,
                mm,
            ) by {
                assert(dd < d as int || (dd == d as int && mm < nsrv as int));
            }
            assert forall|k: int|
                0 <= k < requests@.len() implies request_from_before(
                pre,
                #[trigger] requests@[k],
                0,
                d as int + 1,
                0,
                false,
                Some(server_id),
            ) by {
                assert(request_from_before(pre, requests@[k], 0, d as int, nsrv as int, false,
                    Some(server_id)));
                let (dd, mm) = choose|dd: int, mm: int|
                    #[trigger] sweep_eligible(pre, dd, mm, false, Some(server_id)) && 0 <= dd && (
                    dd < d as int || (dd == d as int && mm < nsrv as int)) && request_targets_pair(
                        pre,
                        requests@[k],
                        dd,
                        mm,
                    );
                assert(sweep_eligible(pre, dd, mm, false, Some(server_id)) && 0 <= dd && (dd < d
                    as int + 1 || (dd == d as int + 1 && mm < 0)) && request_targets_pair(
                    pre,
                    requests@[k],
                    dd,
                    mm,
                ));
            }
        }
        d += 1;
    }
    requests
}

} // verus!
