//! What an editor offers to change.

use crate::lsp::diagnostics::{diagnostics_v, Diagnostic, DiagnosticV};
use crate::lsp::document::{known, type_before, DocumentState};
use crate::lsp::hover::byte_at;
use crate::lsp::navigate::{TextEdit, TextEditV};
use crate::lsp::position::{
    capped, get_word_at_position, position_to_offset, wide, width_of_text, word_at, Position,
    Range,
};
use crate::lsp::symbols::modules;
use crate::text::{cat2, cat3, contains, contains_text};
use crate::runtime::value::shipped_modules;
use vstd::prelude::*;

verus! {

/// A change an editor offers, and which of the errors it was asked about it mends.
#[derive(Debug)]
pub struct CodeAction {
    pub title: String,
    pub diagnostic: Option<usize>,
    pub edit: TextEdit,
    pub is_preferred: bool,
}

/// The model of a [`CodeAction`].
pub struct CodeActionV {
    pub title: Seq<char>,
    pub diagnostic: Option<usize>,
    pub edit: TextEditV,
    pub is_preferred: bool,
}

impl View for CodeAction {
    type V = CodeActionV;

    open spec fn view(&self) -> CodeActionV {
        CodeActionV {
            title: self.title@,
            diagnostic: self.diagnostic,
            edit: self.edit@,
            is_preferred: self.is_preferred,
        }
    }
}

pub open spec fn actions_v(s: Seq<CodeAction>) -> Seq<CodeActionV> {
    Seq::new(s.len(), |i: int| s[i]@)
}

/// A text put in at a place.
pub open spec fn inserting(at: Position, text: Seq<char>) -> TextEditV {
    TextEditV { range: Range { start: at, end: at }, new_text: text }
}

fn insert(at: Position, text: String) -> (r: TextEdit)
    ensures
        r@ == inserting(at, text@),
{
    TextEdit { range: Range { start: at, end: at }, new_text: text }
}

/// What makes a type nullable, where an error asks for that.
pub open spec fn nullable_fix(i: int, d: DiagnosticV) -> Seq<CodeActionV> {
    if contains(d.message, "write"@) && contains(d.message, "if it may be absent"@) {
        seq![
            CodeActionV {
                title: "Make type nullable with '?'"@,
                diagnostic: Some(i as usize),
                edit: inserting(d.range.end, "?"@),
                is_preferred: true,
            },
        ]
    } else {
        Seq::empty()
    }
}

/// What imports a module at the head of a document.
pub open spec fn import_fix(i: int, module: Seq<char>) -> CodeActionV {
    CodeActionV {
        title: "Import module '"@ + module + "'"@,
        diagnostic: Some(i as usize),
        edit: inserting(Position { line: 0, character: 0 }, "import "@ + module + "\n"@),
        is_preferred: true,
    }
}

/// What imports those of the first `n` modules that an error names and a text does not
/// import.
pub open spec fn import_fixes(text: Seq<char>, i: int, d: DiagnosticV, n: int) -> Seq<CodeActionV>
    decreases n,
{
    if 0 < n <= shipped_modules().len() {
        let before = import_fixes(text, i, d, n - 1);
        let module = shipped_modules()[n - 1];
        if contains(d.message, module) && !contains(text, "import "@ + module) {
            before.push(import_fix(i, module))
        } else {
            before
        }
    } else {
        Seq::empty()
    }
}

/// What mends the first `n` of some errors.
pub open spec fn fixes(text: Seq<char>, ds: Seq<DiagnosticV>, n: int) -> Seq<CodeActionV>
    decreases n,
{
    if 0 < n <= ds.len() {
        fixes(text, ds, n - 1) + nullable_fix(n - 1, ds[n - 1]) + import_fixes(
            text,
            n - 1,
            ds[n - 1],
            shipped_modules().len() as int,
        )
    } else {
        Seq::empty()
    }
}

/// What writes the type of the name at a place behind it, where it is known.
pub open spec fn annotate(state: DocumentState, at: Position) -> Seq<CodeActionV> {
    let cs = state.text@;
    match word_at(cs, at) {
        None => Seq::empty(),
        Some(word) => {
            let ty = type_before(known(state.types), word, byte_at(cs, at));
            if ty.known() {
                seq![
                    CodeActionV {
                        title: "Add type annotation ': "@ + ty.spelled() + "'"@,
                        diagnostic: None,
                        edit: inserting(
                            Position {
                                line: at.line,
                                character: capped((at.character + capped(wide(word))) as nat),
                            },
                            ": "@ + ty.spelled(),
                        ),
                        is_preferred: false,
                    },
                ]
            } else {
                Seq::empty()
            }
        },
    }
}

fn push(out: &mut Vec<CodeAction>, action: CodeAction)
    ensures
        actions_v(final(out)@) == actions_v(old(out)@).push(action@),
{
    let ghost before = actions_v(out@);
    out.push(action);
    assert(actions_v(out@) =~= before.push(action@));
}

fn push_nullable(i: usize, d: &Diagnostic, out: &mut Vec<CodeAction>)
    ensures
        actions_v(final(out)@) == actions_v(old(out)@) + nullable_fix(i as int, d@),
{
    let ghost before = actions_v(out@);
    if contains_text(d.message.as_str(), "write") && contains_text(d.message.as_str(), "if it may be absent") {
        push(
            out,
            CodeAction {
                title: "Make type nullable with '?'".to_owned(),
                diagnostic: Some(i),
                edit: insert(d.range.end, "?".to_owned()),
                is_preferred: true,
            },
        );
    }
    assert(actions_v(out@) =~= before + nullable_fix(i as int, d@));
}

fn push_imports(text: &str, i: usize, d: &Diagnostic, out: &mut Vec<CodeAction>)
    ensures
        actions_v(final(out)@) == actions_v(old(out)@) + import_fixes(
            text@,
            i as int,
            d@,
            shipped_modules().len() as int,
        ),
{
    let all = modules();
    let ghost names = Seq::new(all@.len(), |k: int| all@[k]@);
    let ghost before = actions_v(out@);
    let mut k: usize = 0;
    assert(before + Seq::<CodeActionV>::empty() =~= before);
    while k < all.len()
        invariant
            k <= all@.len(),
            names == Seq::new(all@.len(), |k: int| all@[k]@),
            names == shipped_modules(),
            before == actions_v(old(out)@),
            actions_v(out@) == before + import_fixes(text@, i as int, d@, k as int),
        decreases all@.len() - k,
    {
        let module = all[k];
        assert(names[k as int] == module@);
        let wanted = cat2("import ", module);
        if contains_text(d.message.as_str(), module) && !contains_text(text, wanted.as_str()) {
            push(
                out,
                CodeAction {
                    title: cat3("Import module '", module, "'"),
                    diagnostic: Some(i),
                    edit: insert(Position { line: 0, character: 0 }, cat3("import ", module, "\n")),
                    is_preferred: true,
                },
            );
        }
        k += 1;
        assert(actions_v(out@) =~= before + import_fixes(text@, i as int, d@, k as int));
    }
}

fn push_annotation(state: &DocumentState, at: Position, out: &mut Vec<CodeAction>)
    ensures
        actions_v(final(out)@) == actions_v(old(out)@) + annotate(*state, at),
{
    let ghost before = actions_v(out@);
    if let Some(word) = get_word_at_position(state.text.as_str(), at) {
        let byte = position_to_offset(state.text.as_str(), at);
        let ty = state.type_of(word.as_str(), byte);
        if ty.is_known() {
            let name = ty.show();
            let width: usize = width_of_text(word.as_str());
            let character: usize = if width <= usize::MAX - at.character {
                at.character + width
            } else {
                usize::MAX
            };
            push(
                out,
                CodeAction {
                    title: cat3("Add type annotation ': ", name.as_str(), "'"),
                    diagnostic: None,
                    edit: insert(Position { line: at.line, character }, cat2(": ", name.as_str())),
                    is_preferred: false,
                },
            );
        }
    }
    assert(actions_v(out@) =~= before + annotate(*state, at));
}

/// What an editor offers to change at a range of a document, and about some of its errors.
pub fn get_code_actions(state: Option<&DocumentState>, diagnostics: &Vec<Diagnostic>, range: Range) -> (r: Vec<CodeAction>)
    ensures
        actions_v(r@) == match state {
            Some(state) => fixes(state.text@, diagnostics_v(diagnostics@), diagnostics@.len() as int) + annotate(
                *state,
                range.start,
            ),
            None => Seq::empty(),
        },
{
    let mut out: Vec<CodeAction> = Vec::new();
    assert(actions_v(out@) =~= Seq::empty());
    let state = match state {
        Some(state) => state,
        None => return out,
    };
    let ghost all = diagnostics_v(diagnostics@);
    let mut i: usize = 0;
    while i < diagnostics.len()
        invariant
            i <= diagnostics@.len(),
            all == diagnostics_v(diagnostics@),
            actions_v(out@) == fixes(state.text@, all, i as int),
        decreases diagnostics@.len() - i,
    {
        assert(all[i as int] == diagnostics@[i as int]@);
        push_nullable(i, &diagnostics[i], &mut out);
        push_imports(state.text.as_str(), i, &diagnostics[i], &mut out);
        i += 1;
    }
    push_annotation(state, range.start, &mut out);
    out
}

} // verus!
