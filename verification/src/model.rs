//! The editor-side state that the pull-diagnostics engine reads and updates:
//! documents with their cached diagnostic version token, language servers with
//! their capability metadata and outstanding progress tokens, per-view
//! visibility flags, and the diagnostic storage the engine writes into.

use vstd::prelude::*;

verus! {

/// The editor's interaction modes; `Insert` is the edit-heavy mode during
/// which diagnostic refreshes are suppressed.
#[derive(Clone, Copy, PartialEq, Eq, Structural, Debug)]
pub enum Mode {
    Normal,
    Select,
    Insert,
}

/// One diagnostic as the engine carries it. The engine never inspects a
/// diagnostic: it only moves whole lists between a report and the storage,
/// so a single opaque code stands for the payload.
#[derive(Clone, Copy, PartialEq, Eq, Structural, Debug)]
pub struct DiagnosticItem {
    pub code: u64,
}

/// The source of a diagnostic set: the server's id plus the optional
/// identifier its capabilities declare. Used as the namespacing key when
/// diagnostics are merged into storage; constructed fresh per request.
#[derive(Clone, Copy, PartialEq, Eq, Debug)]
pub struct DiagnosticProvider {
    pub server_id: u64,
    pub identifier: Option<u64>,
}

/// The capability descriptor a server exposes for pull diagnostics: either a
/// flat options object or a registration-options object, both carrying the
/// optional provider identifier, which must be read polymorphically.
#[derive(Clone, Copy, PartialEq, Eq, Debug)]
pub enum DiagnosticServerCapabilities {
    Options { identifier: Option<u64> },
    RegistrationOptions { identifier: Option<u64> },
}

impl DiagnosticServerCapabilities {
    /// The provider identifier, whichever shape the capability came in.
    pub open spec fn spec_identifier(self) -> Option<u64> {
        match self {
            DiagnosticServerCapabilities::Options { identifier } => identifier,
            DiagnosticServerCapabilities::RegistrationOptions { identifier } => identifier,
        }
    }

    /// Reads the identifier from either capability shape.
    pub fn identifier(&self) -> (r: Option<u64>)
        ensures
            r == self.spec_identifier(),
    {
        match self {
            DiagnosticServerCapabilities::Options { identifier } => *identifier,
            DiagnosticServerCapabilities::RegistrationOptions { identifier } => *identifier,
        }
    }
}

/// A document as the engine sees it: a stable id, an optional URI (absent for
/// scratch buffers, which are excluded from pulling), the ids of its attached
/// language servers, and the cached diagnostic version token. The URI and the
/// token are opaque to the engine, so plain values stand for them.
#[derive(Clone, PartialEq, Eq, Debug)]
pub struct Document {
    pub id: u64,
    pub uri: Option<u64>,
    pub language_servers: Vec<u64>,
    pub previous_diagnostic_id: Option<u64>,
}

impl Document {
    /// Whether this document is attached to the given language server.
    pub fn supports_language_server(&self, server_id: u64) -> (r: bool)
        ensures
            r == self.language_servers@.contains(server_id),
    {
        let n = self.language_servers.len();
        let mut i: usize = 0;
        while i < n
            invariant
                i <= n,
                n == self.language_servers@.len(),
                forall|j: int| 0 <= j < i ==> self.language_servers@[j] != server_id,
            decreases n - i,
        {
            if self.language_servers[i] == server_id {
                return true;
            }
            i += 1;
        }
        false
    }
}

/// A language server as the engine sees it: capability metadata, the
/// initialization flag, and the outstanding progress tokens that must be
/// marked done when their pull request settles.
#[derive(Clone, PartialEq, Eq, Debug)]
pub struct LanguageServer {
    pub id: u64,
    pub diagnostic_provider: Option<DiagnosticServerCapabilities>,
    pub initialized: bool,
    pub work_tokens: Vec<u64>,
    pub next_work_token: u64,
}

impl LanguageServer {
    /// The outstanding progress tokens, as a set.
    pub open spec fn tokens(self) -> Set<u64> {
        Set::new(|t: u64| self.work_tokens@.contains(t))
    }

    /// A server supports pull diagnostics exactly when its capabilities
    /// declare a diagnostic provider.
    pub open spec fn spec_supports_pull_diagnostics(self) -> bool {
        self.diagnostic_provider is Some
    }

    /// Whether this server supports the pull-diagnostics feature.
    pub fn supports_pull_diagnostics(&self) -> (r: bool)
        ensures
            r == self.spec_supports_pull_diagnostics(),
    {
        self.diagnostic_provider.is_some()
    }

    /// Outstanding tokens are pairwise distinct and below the fresh-token
    /// counter, so a newly allocated token is never already outstanding.
    pub open spec fn wf(self) -> bool {
        &&& forall|i: int, j: int|
            0 <= i < j < self.work_tokens@.len() ==> self.work_tokens@[i] != self.work_tokens@[j]
        &&& forall|i: int|
            0 <= i < self.work_tokens@.len() ==> self.work_tokens@[i] < self.next_work_token
    }
}

/// One view's diagnostics-handler state: the visibility flag flipped on mode
/// switches, and a count of the refresh signals sent to the view.
#[derive(Clone, Copy, PartialEq, Eq, Structural, Debug)]
pub struct EditorView {
    pub active: bool,
    pub refreshes: u64,
}

/// One entry of the diagnostic storage: the items most recently reported for
/// a (URI, provider) key.
#[derive(Clone, PartialEq, Eq, Debug)]
pub struct DiagnosticSet {
    pub uri: u64,
    pub provider: DiagnosticProvider,
    pub items: Vec<DiagnosticItem>,
}

/// The slice of editor state the engine works against.
#[derive(Clone, PartialEq, Eq, Debug)]
pub struct Editor {
    pub mode: Mode,
    pub documents: Vec<Document>,
    pub language_servers: Vec<LanguageServer>,
    pub views: Vec<EditorView>,
    pub diagnostics: Vec<DiagnosticSet>,
}

impl Editor {
    /// Document ids are unique, server ids are unique, every server's token
    /// state is well formed, and storage holds one entry per (URI, provider).
    pub open spec fn wf(self) -> bool {
        &&& forall|i: int, j: int|
            0 <= i < j < self.documents@.len() ==> self.documents@[i].id != self.documents@[j].id
        &&& forall|d: int, i: int, j: int|
            0 <= d < self.documents@.len() && 0 <= i < j
                < self.documents@[d].language_servers@.len()
                ==> #[trigger] self.documents@[d].language_servers@[i]
                != #[trigger] self.documents@[d].language_servers@[j]
        &&& forall|i: int, j: int|
            0 <= i < j < self.language_servers@.len()
                ==> self.language_servers@[i].id != self.language_servers@[j].id
        &&& forall|i: int| 0 <= i < self.language_servers@.len() ==> self.language_servers@[i].wf()
        &&& forall|i: int, j: int|
            0 <= i < j < self.diagnostics@.len()
                ==> !(self.diagnostics@[i].uri == self.diagnostics@[j].uri
                    && self.diagnostics@[i].provider == self.diagnostics@[j].provider)
    }

    pub open spec fn has_document(self, document_id: u64) -> bool {
        exists|i: int| 0 <= i < self.documents@.len() && self.documents@[i].id == document_id
    }

    pub open spec fn document_index(self, document_id: u64) -> int {
        choose|i: int| 0 <= i < self.documents@.len() && self.documents@[i].id == document_id
    }

    pub open spec fn document(self, document_id: u64) -> Document {
        self.documents@[self.document_index(document_id)]
    }

    pub open spec fn has_server(self, server_id: u64) -> bool {
        exists|i: int|
            0 <= i < self.language_servers@.len() && self.language_servers@[i].id == server_id
    }

    pub open spec fn server_index(self, server_id: u64) -> int {
        choose|i: int|
            0 <= i < self.language_servers@.len() && self.language_servers@[i].id == server_id
    }

    pub open spec fn server(self, server_id: u64) -> LanguageServer {
        self.language_servers@[self.server_index(server_id)]
    }
}

/// In a well-formed editor the index found for a document id is the one the
/// lookup spec functions denote.
pub proof fn lemma_document_index_unique(e: Editor, document_id: u64, i: int)
    requires
        e.wf(),
        0 <= i < e.documents@.len(),
        e.documents@[i].id == document_id,
    ensures
        e.has_document(document_id),
        e.document_index(document_id) == i,
        e.document(document_id) == e.documents@[i],
{
    assert(e.has_document(document_id));
    let j = e.document_index(document_id);
    assert(0 <= j < e.documents@.len() && e.documents@[j].id == document_id);
    if i < j {
        assert(e.documents@[i].id != e.documents@[j].id);
    } else if j < i {
        assert(e.documents@[j].id != e.documents@[i].id);
    }
}

/// In a well-formed editor the index found for a server id is the one the
/// lookup spec functions denote.
pub proof fn lemma_server_index_unique(e: Editor, server_id: u64, i: int)
    requires
        e.wf(),
        0 <= i < e.language_servers@.len(),
        e.language_servers@[i].id == server_id,
    ensures
        e.has_server(server_id),
        e.server_index(server_id) == i,
        e.server(server_id) == e.language_servers@[i],
{
    assert(e.has_server(server_id));
    let j = e.server_index(server_id);
    assert(0 <= j < e.language_servers@.len() && e.language_servers@[j].id == server_id);
    if i < j {
        assert(e.language_servers@[i].id != e.language_servers@[j].id);
    } else if j < i {
        assert(e.language_servers@[j].id != e.language_servers@[i].id);
    }
}

/// Mutable access to one element of a vector.
pub(crate) fn vec_entry_mut<T>(v: &mut Vec<T>, i: usize) -> (entry: &mut T)
    requires
        i < old(v).len(),
    ensures
        *entry == old(v)@[i as int],
        final(v)@ == old(v)@.update(i as int, *final(entry)),
{
    &mut v[i]
}

/// Index of the document with the given id, if any.
pub(crate) fn find_document_index(editor: &Editor, document_id: u64) -> (r: Option<usize>)
    ensures
        match r {
            Some(i) => i < editor.documents@.len() && editor.documents@[i as int].id
                == document_id,
            None => forall|i: int|
                0 <= i < editor.documents@.len() ==> editor.documents@[i].id != document_id,
        },
{
    let n = editor.documents.len();
    let mut i: usize = 0;
    while i < n
        invariant
            i <= n,
            n == editor.documents@.len(),
            forall|j: int| 0 <= j < i ==> editor.documents@[j].id != document_id,
        decreases n - i,
    {
        if editor.documents[i].id == document_id {
            return Some(i);
        }
        i += 1;
    }
    None
}

/// Index of the language server with the given id, if any.
pub(crate) fn find_server_index(editor: &Editor, server_id: u64) -> (r: Option<usize>)
    ensures
        match r {
            Some(i) => i < editor.language_servers@.len() && editor.language_servers@[i as int].id
                == server_id,
            None => forall|i: int|
                0 <= i < editor.language_servers@.len() ==> editor.language_servers@[i].id
                    != server_id,
        },
{
    let n = editor.language_servers.len();
    let mut i: usize = 0;
    while i < n
        invariant
            i <= n,
            n == editor.language_servers@.len(),
            forall|j: int| 0 <= j < i ==> editor.language_servers@[j].id != server_id,
        decreases n - i,
    {
        if editor.language_servers[i].id == server_id {
            return Some(i);
        }
        i += 1;
    }
    None
}

/// Whether two providers are the same namespacing key.
pub fn provider_eq(a: &DiagnosticProvider, b: &DiagnosticProvider) -> (r: bool)
    ensures
        r == (a.server_id == b.server_id && a.identifier == b.identifier),
{
    let id_eq = match (a.identifier, b.identifier) {
        (None, None) => true,
        (Some(x), Some(y)) => x == y,
        _ => false,
    };
    a.server_id == b.server_id && id_eq
}

/// The server kept its identity, capabilities and initialization state.
pub open spec fn server_fields_stable(pre: LanguageServer, post: LanguageServer) -> bool {
    &&& post.id == pre.id
    &&& post.diagnostic_provider == pre.diagnostic_provider
    &&& post.initialized == pre.initialized
}

/// A fresh progress token `t` was registered as outstanding on the server.
pub open spec fn token_registered(pre: LanguageServer, post: LanguageServer, t: u64) -> bool {
    &&& server_fields_stable(pre, post)
    &&& t == pre.next_work_token
    &&& post.next_work_token == pre.next_work_token + 1
    &&& post.work_tokens@ == pre.work_tokens@.push(t)
    &&& !pre.tokens().contains(t)
    &&& post.tokens() == pre.tokens().insert(t)
}

/// Progress token `t` was marked done: it is no longer outstanding and
/// nothing else about the server changed.
pub open spec fn token_marked_done(pre: LanguageServer, post: LanguageServer, t: u64) -> bool {
    &&& server_fields_stable(pre, post)
    &&& post.next_work_token == pre.next_work_token
    &&& post.tokens() == pre.tokens().remove(t)
}

/// Everything in the editor but the language servers is untouched.
pub open spec fn same_but_servers(pre: Editor, post: Editor) -> bool {
    &&& post.mode == pre.mode
    &&& post.documents@ == pre.documents@
    &&& post.views@ == pre.views@
    &&& post.diagnostics@ == pre.diagnostics@
}

/// Every language server other than `server_id` is untouched.
pub open spec fn servers_same_except(pre: Editor, post: Editor, server_id: u64) -> bool {
    &&& post.language_servers@.len() == pre.language_servers@.len()
    &&& forall|i: int|
        0 <= i < pre.language_servers@.len() && pre.language_servers@[i].id != server_id
            ==> post.language_servers@[i] == pre.language_servers@[i]
}

impl LanguageServer {
    /// Allocates a fresh progress token for a new pull request and records it
    /// as outstanding.
    pub fn register_work_token(&mut self) -> (t: u64)
        requires
            old(self).wf(),
            old(self).next_work_token < u64::MAX,
        ensures
            final(self).wf(),
            token_registered(*old(self), *final(self), t),
    {
        let t = self.next_work_token;
        self.work_tokens.push(t);
        self.next_work_token = self.next_work_token + 1;
        proof {
            assert(!old(self).tokens().contains(t)) by {
                if old(self).work_tokens@.contains(t) {
                    let k = choose|k: int|
                        0 <= k < old(self).work_tokens@.len() && old(self).work_tokens@[k] == t;
                    assert(old(self).work_tokens@[k] < t);
                }
            }
            assert forall|x: u64| self.work_tokens@.contains(x)
                <==> (old(self).work_tokens@.contains(x) || x == t) by {
                if self.work_tokens@.contains(x) {
                    let k = choose|k: int|
                        0 <= k < self.work_tokens@.len() && self.work_tokens@[k] == x;
                    if k < old(self).work_tokens@.len() {
                        assert(old(self).work_tokens@[k] == x);
                    }
                }
                if old(self).work_tokens@.contains(x) {
                    let k = choose|k: int|
                        0 <= k < old(self).work_tokens@.len() && old(self).work_tokens@[k] == x;
                    assert(self.work_tokens@[k] == x);
                }
                if x == t {
                    assert(self.work_tokens@[old(self).work_tokens@.len() as int] == t);
                }
            }
            assert(self.tokens() =~= old(self).tokens().insert(t));
        }
        t
    }

    /// Marks an outstanding progress token done, removing it from the set.
    /// Marking a token that is not outstanding changes nothing.
    pub fn mark_work_as_done(&mut self, token: u64)
        requires
            old(self).wf(),
        ensures
            final(self).wf(),
            token_marked_done(*old(self), *final(self), token),
    {
        match find_token_index(&self.work_tokens, token) {
            Some(j) => {
                let ghost pre = self.work_tokens@;
                let ghost jj = j as int;
                self.work_tokens.remove(j);
                proof {
                    let post = self.work_tokens@;
                    pre.remove_ensures(jj);
                    assert(post == pre.remove(jj));
                    assert(post.len() == pre.len() - 1);
                    assert forall|k: int| 0 <= k < post.len() implies (pre.contains(post[k])
                        && post[k] != token) by {
                        if k < jj {
                            assert(post[k] == pre[k]);
                            assert(pre[k] != pre[jj]);
                        } else {
                            assert(post[k] == pre[k + 1]);
                            assert(pre[jj] != pre[k + 1]);
                        }
                    }
                    assert forall|x: u64| post.contains(x) implies (pre.contains(x) && x
                        != token) by {
                        let k = choose|k: int| 0 <= k < post.len() && post[k] == x;
                        assert(pre.contains(post[k]) && post[k] != token);
                    }
                    assert forall|x: u64| pre.contains(x) && x != token implies post.contains(
                        x,
                    ) by {
                        let m = choose|m: int| 0 <= m < pre.len() && pre[m] == x;
                        assert(m != jj);
                        if m < jj {
                            assert(post[m] == pre[m]);
                        } else {
                            assert(post[m - 1] == pre[m]);
                        }
                    }
                    assert(self.tokens() =~= old(self).tokens().remove(token));
                    assert forall|p: int, q: int| 0 <= p < q < post.len() implies post[p]
                        != post[q] by {
                        if q < jj {
                            assert(post[p] == pre[p] && post[q] == pre[q]);
                            assert(pre[p] != pre[q]);
                        } else if p < jj {
                            assert(post[p] == pre[p] && post[q] == pre[q + 1]);
                            assert(pre[p] != pre[q + 1]);
                        } else {
                            assert(post[p] == pre[p + 1] && post[q] == pre[q + 1]);
                            assert(pre[p + 1] != pre[q + 1]);
                        }
                    }
                    assert forall|p: int| 0 <= p < post.len() implies post[p]
                        < self.next_work_token by {
                        if p < jj {
                            assert(post[p] == pre[p]);
                        } else {
                            assert(post[p] == pre[p + 1]);
                        }
                    }
                }
            },
            None => {
                proof {
                    assert(!old(self).tokens().contains(token));
                    assert(self.tokens() =~= old(self).tokens().remove(token));
                }
            },
        }
    }
}

/// Position of a progress token in the outstanding list, if present.
fn find_token_index(v: &Vec<u64>, token: u64) -> (r: Option<usize>)
    ensures
        match r {
            Some(i) => i < v@.len() && v@[i as int] == token,
            None => !v@.contains(token),
        },
{
    let n = v.len();
    let mut i: usize = 0;
    while i < n
        invariant
            i <= n,
            n == v@.len(),
            forall|j: int| 0 <= j < i ==> v@[j] != token,
        decreases n - i,
    {
        if v[i] == token {
            return Some(i);
        }
        i += 1;
    }
    None
}

/// Everything in the editor but the diagnostic storage is untouched.
pub open spec fn same_but_diagnostics(pre: Editor, post: Editor) -> bool {
    &&& post.mode == pre.mode
    &&& post.documents@ == pre.documents@
    &&& post.language_servers@ == pre.language_servers@
    &&& post.views@ == pre.views@
}

/// Storage holds an entry under the (URI, provider) key.
pub open spec fn has_diag_key(sets: Seq<DiagnosticSet>, uri: u64, provider: DiagnosticProvider) -> bool {
    exists|i: int| 0 <= i < sets.len() && sets[i].uri == uri && sets[i].provider == provider
}

/// The storage went from `pre` to `post` by replacing the items under the
/// (URI, provider) key with `items`, leaving every other entry untouched and
/// adding the entry if the key was new.
pub open spec fn diagnostics_replaced(
    pre: Seq<DiagnosticSet>,
    post: Seq<DiagnosticSet>,
    uri: u64,
    provider: DiagnosticProvider,
    items: Seq<DiagnosticItem>,
) -> bool {
    if has_diag_key(pre, uri, provider) {
        exists|i: int|
            {
                &&& 0 <= i < pre.len()
                &&& pre[i].uri == uri
                &&& pre[i].provider == provider
                &&& post.len() == pre.len()
                &&& post[i].uri == uri
                &&& post[i].provider == provider
                &&& post[i].items@ == items
                &&& forall|j: int| 0 <= j < pre.len() && j != i ==> post[j] == pre[j]
            }
    } else {
        &&& post.len() == pre.len() + 1
        &&& post[pre.len() as int].uri == uri
        &&& post[pre.len() as int].provider == provider
        &&& post[pre.len() as int].items@ == items
        &&& forall|j: int| 0 <= j < pre.len() ==> post[j] == pre[j]
    }
}

/// Index of the storage entry under the (URI, provider) key, if any.
pub(crate) fn find_diagnostic_set_index(
    editor: &Editor,
    uri: u64,
    provider: &DiagnosticProvider,
) -> (r: Option<usize>)
    ensures
        match r {
            Some(i) => i < editor.diagnostics@.len() && editor.diagnostics@[i as int].uri == uri
                && editor.diagnostics@[i as int].provider == *provider,
            None => forall|i: int|
                0 <= i < editor.diagnostics@.len()
                    ==> !(editor.diagnostics@[i].uri == uri && editor.diagnostics@[i].provider
                    == *provider),
        },
{
    let n = editor.diagnostics.len();
    let mut i: usize = 0;
    while i < n
        invariant
            i <= n,
            n == editor.diagnostics@.len(),
            forall|j: int|
                0 <= j < i
                    ==> !(editor.diagnostics@[j].uri == uri && editor.diagnostics@[j].provider
                    == *provider),
        decreases n - i,
    {
        if editor.diagnostics[i].uri == uri && provider_eq(&editor.diagnostics[i].provider,
            provider) {
            return Some(i);
        }
        i += 1;
    }
    None
}

/// Replaces the stored diagnostics for the (URI, provider) key with `items`:
/// the storage-side effect of applying a full report.
pub fn replace_diagnostics(
    editor: &mut Editor,
    provider: DiagnosticProvider,
    uri: u64,
    items: Vec<DiagnosticItem>,
)
    requires
        old(editor).wf(),
    ensures
        final(editor).wf(),
        same_but_diagnostics(*old(editor), *final(editor)),
        diagnostics_replaced(old(editor).diagnostics@, final(editor).diagnostics@, uri, provider,
            items@),
{
    let idx = find_diagnostic_set_index(editor, uri, &provider);
    match idx {
        Some(i) => {
            let entry = vec_entry_mut(&mut editor.diagnostics, i);
            entry.items = items;
        },
        None => {
            editor.diagnostics.push(DiagnosticSet { uri, provider, items });
        },
    }
}

/// Every document other than `document_id` is untouched, and the document
/// with that id (if present) kept everything but its version token, which is
/// now `result_id`.
pub open spec fn doc_token_updated(
    pre: Seq<Document>,
    post: Seq<Document>,
    document_id: u64,
    result_id: Option<u64>,
) -> bool {
    &&& post.len() == pre.len()
    &&& forall|i: int| 0 <= i < pre.len() && pre[i].id != document_id ==> post[i] == pre[i]
    &&& forall|i: int|
        0 <= i < pre.len() && pre[i].id == document_id ==> {
            &&& post[i].id == pre[i].id
            &&& post[i].uri == pre[i].uri
            &&& post[i].language_servers@ == pre[i].language_servers@
            &&& post[i].previous_diagnostic_id == result_id
        }
}

/// Everything in the editor but the documents is untouched.
pub open spec fn same_but_documents(pre: Editor, post: Editor) -> bool {
    &&& post.mode == pre.mode
    &&& post.language_servers@ == pre.language_servers@
    &&& post.views@ == pre.views@
    &&& post.diagnostics@ == pre.diagnostics@
}

/// Adopts `result_id` as the document's cached diagnostic version token. A
/// document that no longer exists is silently skipped.
pub fn set_previous_diagnostic_id(
    editor: &mut Editor,
    document_id: u64,
    result_id: Option<u64>,
)
    requires
        old(editor).wf(),
    ensures
        final(editor).wf(),
        same_but_documents(*old(editor), *final(editor)),
        doc_token_updated(old(editor).documents@, final(editor).documents@, document_id,
            result_id),
{
    let idx = find_document_index(editor, document_id);
    match idx {
        Some(i) => {
            let entry = vec_entry_mut(&mut editor.documents, i);
            entry.previous_diagnostic_id = result_id;
        },
        None => {},
    }
}

} // verus!
