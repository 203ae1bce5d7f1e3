//! What the library reads of the editor.
use vstd::prelude::*;
use crate::protocol::{Position, TextDocumentIdentifier};
use crate::views::viewed;

verus! {

/// A document of the editor.
#[derive(Clone, Copy, Debug, PartialEq, Eq, Structural)]
pub struct DocumentId(pub usize);

/// A view of the editor.
#[derive(Clone, Copy, Debug, PartialEq, Eq, Structural)]
pub struct ViewId(pub u64);

/// A language server that the editor runs.
#[derive(Clone, Copy, Debug, PartialEq, Eq, Structural)]
pub struct LanguageServerId(pub u64);

/// A language server of a document.
#[derive(Debug)]
pub struct LanguageServer {
    pub id: LanguageServerId,
    pub name: String,
    /// Where the cursor of the focused view stands, counted as this server counts.
    pub cursor: Position,
}

/// An open document.
#[derive(Debug)]
pub struct Document {
    pub id: DocumentId,
    pub has_path: bool,
    pub language_name: Option<String>,
    pub url: Option<String>,
    pub language_servers: Vec<LanguageServer>,
}

/// A view and the document that it shows.
#[derive(Clone, Copy, Debug, PartialEq, Eq, Structural)]
pub struct Pane {
    pub id: ViewId,
    pub doc: DocumentId,
}

/// The editor at one moment.
#[derive(Debug)]
pub struct Editor {
    pub documents: Vec<Document>,
    pub panes: Vec<Pane>,
    pub focus: ViewId,
    pub running: Vec<LanguageServerId>,
}

/// The place in a Lean document that the infoview is about.
#[derive(Debug, PartialEq, Eq)]
pub struct SourceContext {
    pub doc_id: Option<DocumentId>,
    pub view_id: Option<ViewId>,
    pub server_id: LanguageServerId,
    pub uri: String,
    pub position: Position,
    pub text_document: TextDocumentIdentifier,
}

impl Clone for SourceContext {
    fn clone(&self) -> (copy: Self)
        ensures
            copy == *self,
    {
        SourceContext {
            doc_id: self.doc_id,
            view_id: self.view_id,
            server_id: self.server_id,
            uri: self.uri.clone(),
            position: self.position,
            text_document: self.text_document.clone(),
        }
    }
}

/// The first pane of the view `id`.
pub open spec fn find_pane(panes: Seq<Pane>, id: ViewId) -> Option<Pane>
    decreases panes.len(),
{
    if panes.len() == 0 {
        None
    } else if panes[0].id == id {
        Some(panes[0])
    } else {
        find_pane(panes.drop_first(), id)
    }
}

/// The first document named `id`.
pub open spec fn find_document(documents: Seq<Document>, id: DocumentId) -> Option<Document>
    decreases documents.len(),
{
    if documents.len() == 0 {
        None
    } else if documents[0].id == id {
        Some(documents[0])
    } else {
        find_document(documents.drop_first(), id)
    }
}

/// The first server named `name`.
pub open spec fn find_server(servers: Seq<LanguageServer>, name: Seq<char>) -> Option<LanguageServer>
    decreases servers.len(),
{
    if servers.len() == 0 {
        None
    } else if servers[0].name@ == name {
        Some(servers[0])
    } else {
        find_server(servers.drop_first(), name)
    }
}

impl Document {
    /// Whether this is a Lean document that has a path.
    pub open spec fn is_lean_source(self) -> bool {
        self.has_path && viewed(self.language_name) == Some("lean"@)
    }

    /// The server to ask about this document: the one named `lean`, or else the first.
    pub open spec fn lean_server(self) -> Option<LanguageServer> {
        match find_server(self.language_servers@, "lean"@) {
            Some(server) => Some(server),
            None => if self.language_servers@.len() > 0 {
                Some(self.language_servers@[0])
            } else {
                None
            },
        }
    }
}

impl Editor {
    /// The pane of a view.
    pub open spec fn pane(self, id: ViewId) -> Option<Pane> {
        find_pane(self.panes@, id)
    }

    /// An open document.
    pub open spec fn document(self, id: DocumentId) -> Option<Document> {
        find_document(self.documents@, id)
    }

    /// Whether the focused view is one of the views.
    pub open spec fn has_focus(self) -> bool {
        self.pane(self.focus) is Some
    }

    /// The focused view and its document.
    pub open spec fn focused(self) -> Pane {
        self.pane(self.focus)->0
    }

    /// The focused view is one of the views, and its document is open.
    pub open spec fn wf(self) -> bool {
        self.has_focus() && self.document(self.focused().doc) is Some
    }

    /// Whether a language server runs.
    pub open spec fn runs(self, id: LanguageServerId) -> bool {
        self.running@.contains(id)
    }

    /// The pane of a view.
    pub fn try_get(&self, id: ViewId) -> (found: Option<Pane>)
        ensures
            found == self.pane(id),
            found is Some ==> found->0.id == id,
    {
        let mut i: usize = 0;
        assert(self.panes@.skip(0) =~= self.panes@);
        while i < self.panes.len()
            invariant
                i <= self.panes@.len(),
                self.pane(id) == find_pane(self.panes@.skip(i as int), id),
            decreases self.panes@.len() - i,
        {
            assert(self.panes@.skip(i as int).drop_first() =~= self.panes@.skip(i + 1));
            if self.panes[i].id == id {
                return Some(self.panes[i]);
            }
            i += 1;
        }
        None
    }

    /// An open document.
    pub fn get_document(&self, id: DocumentId) -> (found: Option<&Document>)
        ensures
            match found {
                Some(document) => self.document(id) == Some(*document) && document.id == id,
                None => self.document(id) is None,
            },
    {
        let mut i: usize = 0;
        assert(self.documents@.skip(0) =~= self.documents@);
        while i < self.documents.len()
            invariant
                i <= self.documents@.len(),
                self.document(id) == find_document(self.documents@.skip(i as int), id),
            decreases self.documents@.len() - i,
        {
            assert(self.documents@.skip(i as int).drop_first() =~= self.documents@.skip(i + 1));
            if self.documents[i].id == id {
                return Some(&self.documents[i]);
            }
            i += 1;
        }
        None
    }

    /// The focused view and its document.
    pub fn focused_pane(&self) -> (pane: Pane)
        requires
            self.has_focus(),
        ensures
            pane == self.focused(),
            pane.id == self.focus,
    {
        self.try_get(self.focus).unwrap()
    }

    /// Whether a language server runs.
    pub fn is_running(&self, id: LanguageServerId) -> (yes: bool)
        ensures
            yes == self.runs(id),
    {
        let mut i: usize = 0;
        while i < self.running.len()
            invariant
                i <= self.running@.len(),
                forall|k: int| 0 <= k < i ==> self.running@[k] != id,
            decreases self.running@.len() - i,
        {
            if self.running[i] == id {
                return true;
            }
            i += 1;
        }
        false
    }
}

/// Whether `maybe` is `doc`.
pub(crate) fn is_doc(maybe: Option<DocumentId>, doc: DocumentId) -> (yes: bool)
    ensures
        yes == (maybe == Some(doc)),
{
    match maybe {
        Some(id) => id == doc,
        None => false,
    }
}

/// Whether `doc` is a Lean document that has a path.
pub fn is_lean_source(doc: &Document) -> (yes: bool)
    ensures
        yes == doc.is_lean_source(),
{
    match &doc.language_name {
        Some(name) => {
            let lean = "lean".to_string();
            doc.has_path && *name == lean
        },
        None => false,
    }
}

/// The server to ask about a document.
pub fn find_lean_language_server(doc: &Document) -> (found: Option<&LanguageServer>)
    ensures
        match found {
            Some(server) => doc.lean_server() == Some(*server),
            None => doc.lean_server() is None,
        },
{
    let servers = &doc.language_servers;
    let lean = "lean".to_string();
    let mut i: usize = 0;
    assert(servers@.skip(0) =~= servers@);
    while i < servers.len()
        invariant
            i <= servers@.len(),
            lean@ == "lean"@,
            servers == &doc.language_servers,
            find_server(servers@, "lean"@) == find_server(servers@.skip(i as int), "lean"@),
        decreases servers@.len() - i,
    {
        assert(servers@.skip(i as int).drop_first() =~= servers@.skip(i + 1));
        if servers[i].name == lean {
            return Some(&servers[i]);
        }
        i += 1;
    }
    if servers.len() > 0 {
        Some(&servers[0])
    } else {
        None
    }
}

/// A view, and a document, is found where there is one of that id, and the first of several.
pub proof fn law_first_of_an_id_is_found(editor: Editor, view: ViewId, doc: DocumentId)
    ensures
        match editor.pane(view) {
            Some(pane) => exists|i: int|
                0 <= i < editor.panes@.len() && #[trigger] editor.panes@[i] == pane && pane.id == view
                    && forall|k: int| 0 <= k < i ==> (#[trigger] editor.panes@[k]).id != view,
            None => forall|k: int|
                0 <= k < editor.panes@.len() ==> (#[trigger] editor.panes@[k]).id != view,
        },
        match editor.document(doc) {
            Some(document) => exists|i: int|
                0 <= i < editor.documents@.len() && #[trigger] editor.documents@[i] == document
                    && document.id == doc && forall|k: int|
                    0 <= k < i ==> (#[trigger] editor.documents@[k]).id != doc,
            None => forall|k: int|
                0 <= k < editor.documents@.len() ==> (#[trigger] editor.documents@[k]).id != doc,
        },
        editor.has_focus() ==> editor.pane(editor.focus) == Some(editor.focused()),
        forall|server: LanguageServerId| #[trigger]
            editor.runs(server) <==> editor.running@.contains(server),
{
    lemma_find_pane(editor.panes@, view);
    lemma_find_document(editor.documents@, doc);
}

proof fn lemma_find_pane(panes: Seq<Pane>, id: ViewId)
    ensures
        match find_pane(panes, id) {
            Some(pane) => exists|i: int|
                0 <= i < panes.len() && #[trigger] panes[i] == pane && pane.id == id && forall|k: int|
                    0 <= k < i ==> (#[trigger] panes[k]).id != id,
            None => forall|k: int| 0 <= k < panes.len() ==> (#[trigger] panes[k]).id != id,
        },
    decreases panes.len(),
{
    if panes.len() > 0 {
        let rest = panes.drop_first();
        lemma_find_pane(rest, id);
        if panes[0].id == id {
            assert(panes[0] == find_pane(panes, id)->0);
        } else if find_pane(rest, id) is Some {
            let i = choose|i: int|
                0 <= i < rest.len() && #[trigger] rest[i] == find_pane(rest, id)->0 && rest[i].id
                    == id && forall|k: int| 0 <= k < i ==> (#[trigger] rest[k]).id != id;
            assert(panes[i + 1] == rest[i]);
            assert forall|k: int| 0 <= k < i + 1 implies (#[trigger] panes[k]).id != id by {
                if k > 0 {
                    assert(rest[k - 1] == panes[k]);
                }
            }
        } else {
            assert forall|k: int| 0 <= k < panes.len() implies (#[trigger] panes[k]).id != id by {
                if k > 0 {
                    assert(rest[k - 1] == panes[k]);
                }
            }
        }
    }
}

proof fn lemma_find_document(documents: Seq<Document>, id: DocumentId)
    ensures
        match find_document(documents, id) {
            Some(document) => exists|i: int|
                0 <= i < documents.len() && #[trigger] documents[i] == document && document.id == id
                    && forall|k: int| 0 <= k < i ==> (#[trigger] documents[k]).id != id,
            None => forall|k: int| 0 <= k < documents.len() ==> (#[trigger] documents[k]).id != id,
        },
    decreases documents.len(),
{
    if documents.len() > 0 {
        let rest = documents.drop_first();
        lemma_find_document(rest, id);
        if documents[0].id == id {
            assert(documents[0] == find_document(documents, id)->0);
        } else if find_document(rest, id) is Some {
            let i = choose|i: int|
                0 <= i < rest.len() && #[trigger] rest[i] == find_document(rest, id)->0
                    && rest[i].id == id && forall|k: int|
                    0 <= k < i ==> (#[trigger] rest[k]).id != id;
            assert(documents[i + 1] == rest[i]);
            assert forall|k: int| 0 <= k < i + 1 implies (#[trigger] documents[k]).id != id by {
                if k > 0 {
                    assert(rest[k - 1] == documents[k]);
                }
            }
        } else {
            assert forall|k: int| 0 <= k < documents.len() implies (#[trigger] documents[k]).id
                != id by {
                if k > 0 {
                    assert(rest[k - 1] == documents[k]);
                }
            }
        }
    }
}

/// The first server named `lean` is asked about a document, and where none is, the first of all. A
/// Lean source is a document of that language with a path.
pub proof fn law_lean_server_goes_first(document: Document, i: int)
    ensures
        0 <= i < document.language_servers@.len() && document.language_servers@[i].name@ == "lean"@
            && (forall|k: int|
            0 <= k < i ==> (#[trigger] document.language_servers@[k]).name@ != "lean"@)
            ==> document.lean_server() == Some(document.language_servers@[i]),
        document.language_servers@.len() > 0 && (forall|k: int|
            0 <= k < document.language_servers@.len() ==> (
            #[trigger] document.language_servers@[k]).name@ != "lean"@) ==> document.lean_server()
            == Some(document.language_servers@[0]),
        document.language_servers@.len() == 0 ==> document.lean_server() is None,
        document.is_lean_source() <==> document.has_path && document.language_name is Some
            && document.language_name->0@ == "lean"@,
{
    let servers = document.language_servers@;
    if 0 <= i < servers.len() && servers[i].name@ == "lean"@ && (forall|k: int|
        0 <= k < i ==> (#[trigger] servers[k]).name@ != "lean"@) {
        lemma_server_is_found(servers, "lean"@, i);
    }
    if forall|k: int| 0 <= k < servers.len() ==> (#[trigger] servers[k]).name@ != "lean"@ {
        lemma_no_server_is_found(servers, "lean"@);
    }
}

proof fn lemma_server_is_found(servers: Seq<LanguageServer>, name: Seq<char>, i: int)
    requires
        0 <= i < servers.len(),
        servers[i].name@ == name,
        forall|k: int| 0 <= k < i ==> (#[trigger] servers[k]).name@ != name,
    ensures
        find_server(servers, name) == Some(servers[i]),
    decreases servers.len(),
{
    if i > 0 {
        assert(servers[0].name@ != name);
        let rest = servers.drop_first();
        assert forall|k: int| 0 <= k < i - 1 implies (#[trigger] rest[k]).name@ != name by {
            assert(rest[k] == servers[k + 1]);
        }
        lemma_server_is_found(rest, name, i - 1);
    }
}

proof fn lemma_no_server_is_found(servers: Seq<LanguageServer>, name: Seq<char>)
    requires
        forall|k: int| 0 <= k < servers.len() ==> (#[trigger] servers[k]).name@ != name,
    ensures
        find_server(servers, name) is None,
    decreases servers.len(),
{
    if servers.len() > 0 {
        assert(servers[0].name@ != name);
        let rest = servers.drop_first();
        assert forall|k: int| 0 <= k < rest.len() implies (#[trigger] rest[k]).name@ != name by {
            assert(rest[k] == servers[k + 1]);
        }
        lemma_no_server_is_found(rest, name);
    }
}

} // verus!
