//! What the server holds, what it is told, and what it answers.

use crate::lsp::infer::Types;
use crate::lsp::actions::{actions_v, annotate, fixes, get_code_actions, CodeAction, CodeActionV};
use crate::lsp::codelens::{all_lenses, get_code_lenses, lenses_v, CodeLens, CodeLensV};
use crate::lsp::completion;
use crate::lsp::diagnostics::{diagnostics_v, errors_of, get_diagnostics, Diagnostic};
use crate::lsp::document::{all_changed, apply_changes, changes_v, renewed, Change, DocumentState};
use crate::lsp::folding::{all_folds, folds_v, get_folding_ranges, FoldingRange, FoldingRangeV};
use crate::lsp::format::{format_document, layout_edits};
use crate::lsp::hints::{get_inlay_hints, inlay_hints, inlays_v, InlayHint, InlayHintV};
use crate::lsp::hover::{self, CallHelp, CallHelpV, Hover, HoverV};
use crate::lsp::item::{items_v, CompletionItem, ItemV};
use crate::lsp::navigate::{
    all_references, definition, document_edits_v, edits_v, get_definition, get_document_highlights,
    get_references, get_workspace_symbols, infos_v, locations_v, references, rename_symbol,
    renames, workspace, Document, DocumentEdit, DocumentEditV, Location, LocationV,
    SymbolInformation, SymbolInformationV, TextEdit, TextEditV,
};
use crate::lsp::outline::{
    get_hierarchical_document_symbols, nodes_v, tree, DocumentSymbol, DocumentSymbolV,
};
use crate::lsp::position::{Position, Range};
use crate::lsp::selection::{get_selection_ranges, ranges_v, selections};
use crate::lsp::semantic::{get_semantic_tokens, tokens, SemanticToken};
use crate::text::same;
use vstd::prelude::*;

verus! {

// -- the documents -----------------------------------------------------------------------------------------------------

/// The documents that are open, each under a name of its own.
#[derive(Debug)]
pub struct Workspace {
    pub documents: Vec<Document>,
}

/// Where a document stands among others, from `i` on.
pub open spec fn index_of(docs: Seq<Document>, uri: Seq<char>, i: int) -> Option<int>
    decreases docs.len() - i,
{
    if i < 0 || i >= docs.len() {
        None
    } else if docs[i].uri@ == uri {
        Some(i)
    } else {
        index_of(docs, uri, i + 1)
    }
}

/// The documents without the one of a name.
pub open spec fn without(docs: Seq<Document>, uri: Seq<char>) -> Seq<Document> {
    match index_of(docs, uri, 0) {
        Some(i) => docs.remove(i),
        None => docs,
    }
}

/// Whether no two documents have one name.
pub open spec fn distinct(docs: Seq<Document>) -> bool {
    forall|i: int, j: int| 0 <= i < j < docs.len() ==> (#[trigger] docs[i]).uri@ != (#[trigger] docs[j]).uri@
}

/// The document of a name.
pub open spec fn document(docs: Seq<Document>, uri: Seq<char>) -> Option<DocumentState> {
    match index_of(docs, uri, 0) {
        Some(i) => Some(docs[i].state),
        None => None,
    }
}

/// The text of a document: empty where it is not open.
pub open spec fn text_of(docs: Seq<Document>, uri: Seq<char>) -> Seq<char> {
    match document(docs, uri) {
        Some(state) => state.text@,
        None => Seq::empty(),
    }
}

/// What was known of a document.
pub open spec fn known_of(docs: Seq<Document>, uri: Seq<char>) -> Option<Types> {
    match document(docs, uri) {
        Some(state) => state.types,
        None => None,
    }
}

/// Whether every document but one is as it was.
pub open spec fn others_kept(before: Seq<Document>, after: Seq<Document>, uri: Seq<char>) -> bool {
    forall|other: Seq<char>| other != uri ==> document(after, other) == document(before, other)
}

proof fn lemma_index_of(docs: Seq<Document>, uri: Seq<char>, i: int)
    requires
        0 <= i <= docs.len(),
    ensures
        match index_of(docs, uri, i) {
            Some(k) => i <= k < docs.len() && docs[k].uri@ == uri && forall|j: int|
                i <= j < k ==> (#[trigger] docs[j]).uri@ != uri,
            None => forall|j: int| i <= j < docs.len() ==> (#[trigger] docs[j]).uri@ != uri,
        },
    decreases docs.len() - i,
{
    if i < docs.len() && docs[i].uri@ != uri {
        lemma_index_of(docs, uri, i + 1);
    }
}

/// A document that is found is the only one of its name.
pub(crate) proof fn lemma_found(docs: Seq<Document>, uri: Seq<char>, k: int)
    requires
        0 <= k < docs.len(),
        docs[k].uri@ == uri,
        distinct(docs),
    ensures
        index_of(docs, uri, 0) == Some(k),
{
    lemma_index_of(docs, uri, 0);
    let found = index_of(docs, uri, 0);
    match found {
        Some(i) => {
            if i < k {
                assert(docs[i].uri@ != docs[k].uri@);
            } else if k < i {
                assert(docs[k].uri@ != docs[i].uri@);
            }
        },
        None => {},
    }
}

impl Workspace {
    pub open spec fn wf(&self) -> bool {
        distinct(self.documents@)
    }

    /// Where no document is open.
    pub fn new() -> (r: Workspace)
        ensures
            r.wf(),
            r.documents@.len() == 0,
    {
        Workspace { documents: Vec::new() }
    }

    fn find(&self, uri: &str) -> (r: Option<usize>)
        ensures
            match r {
                Some(i) => i < self.documents@.len() && index_of(self.documents@, uri@, 0) == Some(i as int),
                None => index_of(self.documents@, uri@, 0) is None,
            },
    {
        let mut i: usize = 0;
        while i < self.documents.len()
            invariant
                i <= self.documents@.len(),
                index_of(self.documents@, uri@, 0) == index_of(self.documents@, uri@, i as int),
            decreases self.documents@.len() - i,
        {
            if same(self.documents[i].uri.as_str(), uri) {
                return Some(i);
            }
            i += 1;
        }
        None
    }

    /// The document of a name.
    pub fn get(&self, uri: &str) -> (r: Option<&DocumentState>)
        ensures
            match r {
                Some(state) => document(self.documents@, uri@) == Some(*state),
                None => document(self.documents@, uri@) is None,
            },
    {
        match self.find(uri) {
            Some(i) => Some(&self.documents[i].state),
            None => None,
        }
    }

    /// Takes a document away.
    pub fn close(&mut self, uri: &str) -> (r: Option<DocumentState>)
        requires
            old(self).wf(),
        ensures
            final(self).wf(),
            r == document(old(self).documents@, uri@),
            document(final(self).documents@, uri@) is None,
            final(self).documents@ == without(old(self).documents@, uri@),
            others_kept(old(self).documents@, final(self).documents@, uri@),
    {
        let ghost before = self.documents@;
        match self.find(uri) {
            None => None,
            Some(k) => {
                let gone = self.documents.remove(k);
                proof {
                    let after = self.documents@;
                    assert(after == before.remove(k as int));
                    lemma_index_of(before, uri@, 0);
                    assert forall|i: int, j: int| 0 <= i < j < after.len() implies (#[trigger] after[i]).uri@ != (
                    #[trigger] after[j]).uri@ by {
                        let a = if i < k { i } else { i + 1 };
                        let b = if j < k { j } else { j + 1 };
                        assert(after[i] == before[a] && after[j] == before[b]);
                        assert(before[a].uri@ != before[b].uri@);
                    }
                    lemma_index_of(after, uri@, 0);
                    if let Some(i) = index_of(after, uri@, 0) {
                        let a = if i < k { i } else { i + 1 };
                        assert(after[i] == before[a]);
                        if a < k {
                            assert(before[a].uri@ != before[k as int].uri@);
                        } else {
                            assert(before[k as int].uri@ != before[a].uri@);
                        }
                    }
                    assert forall|other: Seq<char>| other != uri@ implies document(after, other) == document(
                        before,
                        other,
                    ) by {
                        lemma_index_of(before, other, 0);
                        lemma_index_of(after, other, 0);
                        match index_of(before, other, 0) {
                            Some(b) => {
                                let i = if b < k { b } else { b - 1 };
                                assert(after[i] == before[b]);
                                lemma_found(after, other, i);
                            },
                            None => {
                                if let Some(i) = index_of(after, other, 0) {
                                    let a = if i < k { i } else { i + 1 };
                                    assert(after[i] == before[a]);
                                }
                            },
                        }
                    }
                }
                Some(gone.state)
            },
        }
    }

    /// Gives a document a text, whether it was open or not.
    pub fn open(&mut self, uri: &str, text: String)
        requires
            old(self).wf(),
        ensures
            final(self).wf(),
            document(final(self).documents@, uri@) is Some,
            renewed(
                document(final(self).documents@, uri@)->0,
                text@,
                known_of(old(self).documents@, uri@),
                without(old(self).documents@, uri@),
                Some(uri@),
            ),
            others_kept(old(self).documents@, final(self).documents@, uri@),
    {
        let ghost start = self.documents@;
        let previous = self.close(uri);
        let state = DocumentState::new_with_documents(text, Some(uri), &self.documents, previous);
        let ghost before = self.documents@;
        let ghost made = state;
        self.documents.push(Document { uri: uri.to_owned(), state });
        proof {
            let after = self.documents@;
            let last = before.len() as int;
            lemma_index_of(before, uri@, 0);
            assert forall|i: int, j: int| 0 <= i < j < after.len() implies (#[trigger] after[i]).uri@ != (
            #[trigger] after[j]).uri@ by {
                assert(after[i] == before[i]);
                if j < last {
                    assert(after[j] == before[j]);
                    assert(before[i].uri@ != before[j].uri@);
                } else {
                    assert(before[i].uri@ != uri@);
                }
            }
            assert(after[last].uri@ == uri@);
            lemma_found(after, uri@, last);
            assert forall|other: Seq<char>| other != uri@ implies document(after, other) == document(start, other) by {
                assert(document(before, other) == document(start, other));
                lemma_index_of(before, other, 0);
                lemma_index_of(after, other, 0);
                match index_of(before, other, 0) {
                    Some(b) => {
                        assert(after[b] == before[b]);
                        lemma_found(after, other, b);
                    },
                    None => {
                        if let Some(i) = index_of(after, other, 0) {
                            if i < last {
                                assert(after[i] == before[i]);
                            }
                        }
                    },
                }
            }
        }
    }
}

// -- what the server is told --------------------------------------------------------------------------------------------

/// What the editor tells the server.
#[derive(Debug)]
pub enum Notice {
    Opened { uri: String, text: String },
    Changed { uri: String, changes: Vec<Change> },
    Closed { uri: String },
}

impl Notice {
    /// The document that a notice is about.
    pub open spec fn about(self) -> Seq<char> {
        match self {
            Notice::Opened { uri, text } => uri@,
            Notice::Changed { uri, changes } => uri@,
            Notice::Closed { uri } => uri@,
        }
    }

    /// The text that a document has after a notice: none where it is closed.
    pub open spec fn leaves(self, before: Seq<char>) -> Option<Seq<char>> {
        match self {
            Notice::Opened { uri, text } => Some(text@),
            Notice::Changed { uri, changes } => Some(
                all_changed(before, changes_v(changes@), changes@.len() as int),
            ),
            Notice::Closed { uri } => None,
        }
    }
}

/// Takes a notice in, and gives the errors to be drawn in the document it is about.
pub fn handle_notification(workspace: &mut Workspace, notice: Notice) -> (r: Vec<Diagnostic>)
    requires
        old(workspace).wf(),
    ensures
        final(workspace).wf(),
        others_kept(old(workspace).documents@, final(workspace).documents@, notice.about()),
        ({
            let uri = notice.about();
            let before = old(workspace).documents@;
            let after = document(final(workspace).documents@, uri);
            match notice.leaves(text_of(before, uri)) {
                Some(text) => {
                    &&& after is Some
                    &&& renewed(after->0, text, known_of(before, uri), without(before, uri), Some(uri))
                    &&& diagnostics_v(r@) == errors_of(text)
                },
                None => after is None && r@.len() == 0,
            }
        }),
{
    match notice {
        Notice::Opened { uri, text } => {
            let errors = get_diagnostics(text.as_str());
            workspace.open(uri.as_str(), text);
            errors
        },
        Notice::Changed { uri, changes } => {
            let current = match workspace.get(uri.as_str()) {
                Some(state) => state.text.as_str().to_owned(),
                None => String::new(),
            };
            assert(current@ =~= text_of(old(workspace).documents@, uri@));
            let text = apply_changes(current.as_str(), &changes);
            let errors = get_diagnostics(text.as_str());
            workspace.open(uri.as_str(), text);
            errors
        },
        Notice::Closed { uri } => {
            let _ = workspace.close(uri.as_str());
            Vec::new()
        },
    }
}

// -- what the server is asked ---------------------------------------------------------------------------------------------

/// What the editor asks the server.
#[derive(Debug)]
pub enum Request {
    Completion { uri: String, pos: Position },
    InlayHint { uri: String, range: Range },
    Hover { uri: String, pos: Position },
    SignatureHelp { uri: String, pos: Position },
    Definition { uri: String, pos: Position },
    References { uri: String, pos: Position },
    Rename { uri: String, pos: Position, new_name: String },
    WorkspaceSymbol { query: String },
    CodeAction { uri: String, diagnostics: Vec<Diagnostic>, range: Range },
    Formatting { uri: String },
    DocumentSymbol { uri: String },
    FoldingRange { uri: String },
    SelectionRange { uri: String, positions: Vec<Position> },
    DocumentHighlight { uri: String, pos: Position },
    CodeLens { uri: String },
    SemanticTokens { uri: String },
    /// A method the server does not know.
    Unknown,
}

/// What the server answers.
#[derive(Debug)]
pub enum Reply {
    Items(Vec<CompletionItem>),
    Hints(Vec<InlayHint>),
    Hover(Option<Hover>),
    Help(Option<CallHelp>),
    Location(Option<Location>),
    References(Vec<Location>),
    Edits(Option<Vec<DocumentEdit>>),
    Symbols(Vec<SymbolInformation>),
    Actions(Vec<CodeAction>),
    Format(Vec<TextEdit>),
    Outline(Vec<DocumentSymbol>),
    Folds(Vec<FoldingRange>),
    Selections(Vec<Vec<Range>>),
    Highlights(Vec<Range>),
    Lenses(Vec<CodeLens>),
    Tokens(Vec<SemanticToken>),
    Nothing,
}

/// The model of a [`Reply`].
pub enum ReplyV {
    Items(Seq<ItemV>),
    Hints(Seq<InlayHintV>),
    Hover(Option<HoverV>),
    Help(Option<CallHelpV>),
    Location(Option<LocationV>),
    References(Seq<LocationV>),
    Edits(Option<Seq<DocumentEditV>>),
    Symbols(Seq<SymbolInformationV>),
    Actions(Seq<CodeActionV>),
    Format(Seq<TextEditV>),
    Outline(Seq<DocumentSymbolV>),
    Folds(Seq<FoldingRangeV>),
    Selections(Seq<Seq<Range>>),
    Highlights(Seq<Range>),
    Lenses(Seq<CodeLensV>),
    Tokens(Seq<SemanticToken>),
    Nothing,
}

impl View for Reply {
    type V = ReplyV;

    open spec fn view(&self) -> ReplyV {
        match *self {
            Reply::Items(s) => ReplyV::Items(items_v(s@)),
            Reply::Hints(s) => ReplyV::Hints(inlays_v(s@)),
            Reply::Hover(h) => ReplyV::Hover(match h { Some(h) => Some(h@), None => None }),
            Reply::Help(h) => ReplyV::Help(match h { Some(h) => Some(h@), None => None }),
            Reply::Location(l) => ReplyV::Location(match l { Some(l) => Some(l@), None => None }),
            Reply::References(s) => ReplyV::References(locations_v(s@)),
            Reply::Edits(e) => ReplyV::Edits(match e { Some(e) => Some(document_edits_v(e@)), None => None }),
            Reply::Symbols(s) => ReplyV::Symbols(infos_v(s@)),
            Reply::Actions(s) => ReplyV::Actions(actions_v(s@)),
            Reply::Format(s) => ReplyV::Format(edits_v(s@)),
            Reply::Outline(s) => ReplyV::Outline(nodes_v(s@)),
            Reply::Folds(s) => ReplyV::Folds(folds_v(s@)),
            Reply::Selections(s) => ReplyV::Selections(ranges_v(s@)),
            Reply::Highlights(s) => ReplyV::Highlights(s@),
            Reply::Lenses(s) => ReplyV::Lenses(lenses_v(s@)),
            Reply::Tokens(s) => ReplyV::Tokens(s@),
            Reply::Nothing => ReplyV::Nothing,
        }
    }
}

/// The answer about a document that is open.
pub open spec fn answer(docs: Seq<Document>, state: DocumentState, request: Request) -> ReplyV {
    match request {
        Request::Completion { uri, pos } => ReplyV::Items(completion::completions(state, pos)),
        Request::InlayHint { uri, range } => ReplyV::Hints(inlay_hints(state, range)),
        Request::Hover { uri, pos } => ReplyV::Hover(hover::hover_at(state, pos)),
        Request::SignatureHelp { uri, pos } => ReplyV::Help(hover::help_at(state, pos)),
        Request::Definition { uri, pos } => ReplyV::Location(definition(uri@, state, docs, pos)),
        Request::References { uri, pos } => ReplyV::References(all_references(uri@, state, docs, pos)),
        Request::Rename { uri, pos, new_name } => {
            let refs = all_references(uri@, state, docs, pos);
            ReplyV::Edits(
                if refs.len() > 0 {
                    Some(renames(refs, new_name@))
                } else {
                    None
                },
            )
        },
        Request::CodeAction { uri, diagnostics, range } => ReplyV::Actions(
            fixes(state.text@, diagnostics_v(diagnostics@), diagnostics@.len() as int) + annotate(state, range.start),
        ),
        Request::Formatting { uri } => ReplyV::Format(layout_edits(state.text@)),
        Request::DocumentSymbol { uri } => ReplyV::Outline(tree(state)),
        Request::FoldingRange { uri } => ReplyV::Folds(all_folds(state)),
        Request::SelectionRange { uri, positions } => ReplyV::Selections(selections(state, positions@)),
        Request::DocumentHighlight { uri, pos } => ReplyV::Highlights(references(state.text@, pos)),
        Request::CodeLens { uri } => ReplyV::Lenses(all_lenses(uri@, state, docs)),
        Request::SemanticTokens { uri } => ReplyV::Tokens(tokens(state)),
        Request::WorkspaceSymbol { query } => ReplyV::Nothing,
        Request::Unknown => ReplyV::Nothing,
    }
}

/// The answer about a document that is not open.
pub open spec fn no_answer(request: Request) -> ReplyV {
    match request {
        Request::Completion { .. } => ReplyV::Items(Seq::empty()),
        Request::InlayHint { .. } => ReplyV::Hints(Seq::empty()),
        Request::Hover { .. } => ReplyV::Hover(None),
        Request::SignatureHelp { .. } => ReplyV::Help(None),
        Request::Definition { .. } => ReplyV::Location(None),
        Request::References { .. } => ReplyV::References(Seq::empty()),
        Request::Rename { .. } => ReplyV::Edits(None),
        Request::CodeAction { .. } => ReplyV::Actions(Seq::empty()),
        Request::Formatting { .. } => ReplyV::Format(Seq::empty()),
        Request::DocumentSymbol { .. } => ReplyV::Outline(Seq::empty()),
        Request::FoldingRange { .. } => ReplyV::Folds(Seq::empty()),
        Request::SelectionRange { .. } => ReplyV::Selections(Seq::empty()),
        Request::DocumentHighlight { .. } => ReplyV::Highlights(Seq::empty()),
        Request::CodeLens { .. } => ReplyV::Lenses(Seq::empty()),
        Request::SemanticTokens { .. } => ReplyV::Tokens(Seq::empty()),
        Request::WorkspaceSymbol { .. } => ReplyV::Nothing,
        Request::Unknown => ReplyV::Nothing,
    }
}

/// The document that a request is about.
pub open spec fn asked_of(request: Request) -> Option<Seq<char>> {
    match request {
        Request::Completion { uri, pos } => Some(uri@),
        Request::InlayHint { uri, range } => Some(uri@),
        Request::Hover { uri, pos } => Some(uri@),
        Request::SignatureHelp { uri, pos } => Some(uri@),
        Request::Definition { uri, pos } => Some(uri@),
        Request::References { uri, pos } => Some(uri@),
        Request::Rename { uri, pos, new_name } => Some(uri@),
        Request::CodeAction { uri, diagnostics, range } => Some(uri@),
        Request::Formatting { uri } => Some(uri@),
        Request::DocumentSymbol { uri } => Some(uri@),
        Request::FoldingRange { uri } => Some(uri@),
        Request::SelectionRange { uri, positions } => Some(uri@),
        Request::DocumentHighlight { uri, pos } => Some(uri@),
        Request::CodeLens { uri } => Some(uri@),
        Request::SemanticTokens { uri } => Some(uri@),
        Request::WorkspaceSymbol { query } => None,
        Request::Unknown => None,
    }
}

/// The answer to a request.
pub open spec fn reply(docs: Seq<Document>, request: Request) -> ReplyV {
    match request {
        Request::WorkspaceSymbol { query } => ReplyV::Symbols(workspace(docs, query@, docs.len() as int)),
        _ => match asked_of(request) {
            Some(uri) => match document(docs, uri) {
                Some(state) => answer(docs, state, request),
                None => no_answer(request),
            },
            None => ReplyV::Nothing,
        },
    }
}

/// Answers a request.
pub fn handle_request(held: &Workspace, request: &Request) -> (r: Reply)
    ensures
        r@ == reply(held.documents@, *request),
{
    match request {
        Request::Completion { uri, pos } => Reply::Items(completion::get_completions(held.get(uri.as_str()), *pos)),
        Request::InlayHint { uri, range } => Reply::Hints(get_inlay_hints(held.get(uri.as_str()), *range)),
        Request::Hover { uri, pos } => Reply::Hover(hover::get_hover(held.get(uri.as_str()), *pos)),
        Request::SignatureHelp { uri, pos } => Reply::Help(hover::get_signature_help(held.get(uri.as_str()), *pos)),
        Request::Definition { uri, pos } => Reply::Location(
            get_definition(uri.as_str(), held.get(uri.as_str()), &held.documents, *pos),
        ),
        Request::References { uri, pos } => Reply::References(
            get_references(uri.as_str(), held.get(uri.as_str()), &held.documents, *pos),
        ),
        Request::Rename { uri, pos, new_name } => Reply::Edits(
            rename_symbol(uri.as_str(), held.get(uri.as_str()), &held.documents, *pos, new_name.as_str()),
        ),
        Request::WorkspaceSymbol { query } => Reply::Symbols(get_workspace_symbols(&held.documents, query.as_str())),
        Request::CodeAction { uri, diagnostics, range } => Reply::Actions(
            get_code_actions(held.get(uri.as_str()), diagnostics, *range),
        ),
        Request::Formatting { uri } => Reply::Format(format_document(held.get(uri.as_str()))),
        Request::DocumentSymbol { uri } => Reply::Outline(get_hierarchical_document_symbols(held.get(uri.as_str()))),
        Request::FoldingRange { uri } => Reply::Folds(get_folding_ranges(held.get(uri.as_str()))),
        Request::SelectionRange { uri, positions } => Reply::Selections(
            get_selection_ranges(held.get(uri.as_str()), positions),
        ),
        Request::DocumentHighlight { uri, pos } => Reply::Highlights(
            get_document_highlights(held.get(uri.as_str()), *pos),
        ),
        Request::CodeLens { uri } => Reply::Lenses(
            get_code_lenses(uri.as_str(), held.get(uri.as_str()), &held.documents),
        ),
        Request::SemanticTokens { uri } => Reply::Tokens(get_semantic_tokens(held.get(uri.as_str()))),
        Request::Unknown => Reply::Nothing,
    }
}

} // verus!
