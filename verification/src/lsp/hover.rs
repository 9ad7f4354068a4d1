//! What an editor shows of the name at a place, and of the call around it.

use crate::lsp::cursor::{before_last_dot, before_last_dot_of, before_word, text_before_word};
use crate::lsp::document::{after_text, known, known_text, DocumentState};
use crate::lsp::docs::{find_doc, find_note, note_on, opt_doc, said_of};
use crate::lsp::infer::{symbol_seen, symbols_of};
use crate::lsp::position::{
    char_of, char_of_position, get_word_at_position, opt_text, position_to_offset, word_at,
    Position,
};
use crate::lsp::rows::{part, text};
use crate::lsp::scope::members;
use crate::lsp::signature::{open_call, open_call_in};
use crate::lsp::symbols::{
    copy_texts, global_symbols, globals, named, opt_symbol, rendered, rendered_doc, take_named,
    Doc, DocV, Kind, Symbol, SymbolV,
};
use crate::syntax::ast::Stmt;
use crate::syntax::token::{keyword_doc, keyword_of, TokenKind};
use crate::text::{cat4, chars_of, join, joined, offset, same, strs};
use vstd::prelude::*;

verus! {

// -- the name at a place ----------------------------------------------------------------------------------------------

/// Where a place stands, in bytes.
pub open spec fn byte_at(cs: Seq<char>, pos: Position) -> int {
    offset(cs, char_of(cs, pos)) as int
}

/// What is known of a name that stands alone at a place, and what the program says of it.
pub open spec fn lone_symbol(cs: Seq<char>, program: Option<Seq<Stmt>>, word: Seq<char>, at: int) -> Option<SymbolV> {
    let declared = match program {
        Some(p) => match symbol_seen(cs, p, word, at) {
            Some(symbol) => Some(
                SymbolV {
                    doc: if symbol.doc is Some {
                        symbol.doc
                    } else {
                        said_of(cs, p, word, at)
                    },
                    ..symbol
                },
            ),
            None => None,
        },
        None => None,
    };
    if declared is Some {
        declared
    } else {
        named(global_symbols(), word, 0)
    }
}

/// What is known of a name at a place: the member behind a point before anything else.
pub open spec fn symbol_there(state: DocumentState, word: Seq<char>, pos: Position) -> Option<SymbolV> {
    let cs = state.text@;
    let at = byte_at(cs, pos);
    let of_member = match before_word(cs, pos) {
        Some(before) => named(after_text(known_text(state.types), known(state.types), before, at), word, 0),
        None => None,
    };
    if of_member is Some {
        of_member
    } else {
        lone_symbol(known_text(state.types), known(state.types), word, at)
    }
}

fn lone_symbol_of(state: &DocumentState, word: &str, at: usize) -> (r: Option<Symbol>)
    ensures
        opt_symbol(r) == lone_symbol(known_text(state.types), known(state.types), word@, at as int),
{
    if let Some(types) = &state.types {
        if let Some(symbol) = types.symbol(word, at) {
            let mut symbol = symbol;
            if symbol.doc.is_none() {
                symbol.doc = find_doc(types.text.as_str(), &types.program, word, at);
            }
            return Some(symbol);
        }
    }
    let all = globals();
    take_named(all, word)
}

/// What is known of a name at a place of a document.
pub fn symbol_at(state: &DocumentState, word: &str, pos: Position) -> (r: Option<Symbol>)
    ensures
        opt_symbol(r) == symbol_there(*state, word@, pos),
{
    let at = position_to_offset(state.text.as_str(), pos);
    if let Some(before) = text_before_word(state.text.as_str(), pos) {
        let all = state.members_before(before.as_str(), at);
        let found = take_named(all, word);
        if found.is_some() {
            return found;
        }
    }
    lone_symbol_of(state, word, at)
}

/// What is shown of a name: how it is declared, and what is said of it.
#[derive(Debug)]
pub struct Hover {
    pub value: String,
    pub doc: Option<String>,
}

/// The model of a [`Hover`].
pub struct HoverV {
    pub value: Seq<char>,
    pub doc: Option<Seq<char>>,
}

impl View for Hover {
    type V = HoverV;

    open spec fn view(&self) -> HoverV {
        HoverV { value: self.value@, doc: opt_text(self.doc) }
    }
}

/// What a keyword is for.
pub open spec fn word_doc(word: Seq<char>) -> Option<Seq<char>> {
    match keyword_of(word) {
        Some(kind) => keyword_doc(kind),
        None => None,
    }
}

/// What is shown of a symbol: nothing where no more is known than its name.
pub open spec fn shown(symbol: SymbolV, word: Seq<char>) -> Option<HoverV> {
    if symbol.doc is None && symbol.signature() == word {
        None
    } else {
        Some(
            HoverV {
                value: symbol.signature(),
                doc: match symbol.doc {
                    Some(doc) => Some(rendered(doc)),
                    None => None,
                },
            },
        )
    }
}

/// What is shown at a place.
pub open spec fn hover_at(state: DocumentState, pos: Position) -> Option<HoverV> {
    match word_at(state.text@, pos) {
        None => None,
        Some(word) => match word_doc(word) {
            Some(doc) => Some(HoverV { value: word, doc: Some(doc) }),
            None => match symbol_there(state, word, pos) {
                Some(symbol) => shown(symbol, word),
                None => None,
            },
        },
    }
}

/// What is shown of the name at a place of a document.
pub fn get_hover(state: Option<&DocumentState>, pos: Position) -> (r: Option<Hover>)
    ensures
        (match r { Some(r) => Some(r@), None => None }) == match state {
            Some(state) => hover_at(*state, pos),
            None => None,
        },
{
    let state = match state {
        Some(state) => state,
        None => return None,
    };
    let word = match get_word_at_position(state.text.as_str(), pos) {
        Some(word) => word,
        None => return None,
    };
    if let Some(kind) = TokenKind::keyword(word.as_str()) {
        if let Some(doc) = kind.doc() {
            return Some(Hover { value: word, doc: Some(doc.to_owned()) });
        }
    }
    match symbol_at(state, word.as_str(), pos) {
        None => None,
        Some(symbol) => {
            let signature = symbol.signature();
            match &symbol.doc {
                None => if same(signature.as_str(), word.as_str()) {
                    None
                } else {
                    Some(Hover { value: signature, doc: None })
                },
                Some(doc) => Some(Hover { value: signature, doc: Some(rendered_doc(doc)) }),
            }
        },
    }
}

// -- the call around a place --------------------------------------------------------------------------------------------

/// A call around a place: what it calls, the text of the receiver, and which argument is
/// being written.
#[derive(Debug)]
pub struct Called {
    pub callee: String,
    pub receiver: Option<String>,
    pub active: usize,
}

/// The model of a [`Called`].
pub struct CalledV {
    pub callee: Seq<char>,
    pub receiver: Option<Seq<char>>,
    pub active: nat,
}

impl View for Called {
    type V = CalledV;

    open spec fn view(&self) -> CalledV {
        CalledV { callee: self.callee@, receiver: opt_text(self.receiver), active: self.active as nat }
    }
}

/// The call around a place of a text.
pub open spec fn call_around(cs: Seq<char>, pos: Position) -> Option<CalledV> {
    match open_call(cs.take(char_of(cs, pos))) {
        Some(call) => Some(
            CalledV { callee: call.callee, receiver: before_last_dot(call.before), active: call.active },
        ),
        None => None,
    }
}

/// The call around a place of a text.
pub fn find_call_context(source: &str, pos: Position) -> (r: Option<Called>)
    ensures
        match r {
            Some(call) => call_around(source@, pos) == Some(call@),
            None => call_around(source@, pos) is None,
        },
{
    let cs = chars_of(source);
    let n = char_of_position(&cs, pos);
    let before = part(&cs, 0, n);
    assert(before@ =~= cs@.take(n as int));
    match open_call_in(&before) {
        Some(call) => {
            let receiver = match before_last_dot_of(&call.before) {
                Some(front) => Some(text(&front)),
                None => None,
            };
            Some(Called { callee: text(&call.callee), receiver, active: call.active })
        },
        None => None,
    }
}

/// What is known of what a call calls.
pub open spec fn called_symbol(cs: Seq<char>, program: Option<Seq<Stmt>>, call: CalledV, at: int) -> Option<SymbolV> {
    match call.receiver {
        Some(before) => named(after_text(cs, program, before, at), call.callee, 0),
        None => lone_symbol(cs, program, call.callee, at),
    }
}

/// The names of what a call takes: those of its constructor where a class is called.
pub open spec fn called_params(cs: Seq<char>, program: Option<Seq<Stmt>>, symbol: SymbolV) -> Seq<Seq<char>> {
    match program {
        Some(p) => if symbol.kind == Kind::Class {
            let ds = members(p, symbol.name, p.len());
            match named(symbols_of(cs, p, ds, ds.len() as int), "init"@, 0) {
                Some(init) => init.params,
                None => symbol.params,
            }
        } else {
            symbol.params
        },
        None => symbol.params,
    }
}

/// A parameter as it is shown.
#[derive(Debug)]
pub struct ParameterInformation {
    pub label: String,
    pub documentation: Option<String>,
}

/// The model of a [`ParameterInformation`].
pub struct ParameterV {
    pub label: Seq<char>,
    pub documentation: Option<Seq<char>>,
}

impl View for ParameterInformation {
    type V = ParameterV;

    open spec fn view(&self) -> ParameterV {
        ParameterV { label: self.label@, documentation: opt_text(self.documentation) }
    }
}

pub open spec fn parameters_v(s: Seq<ParameterInformation>) -> Seq<ParameterV> {
    Seq::new(s.len(), |i: int| s[i]@)
}

/// What is shown while a call is written.
#[derive(Debug)]
pub struct CallHelp {
    pub label: String,
    pub documentation: Option<String>,
    pub parameters: Vec<ParameterInformation>,
    pub active_parameter: usize,
}

/// The model of a [`CallHelp`].
pub struct CallHelpV {
    pub label: Seq<char>,
    pub documentation: Option<Seq<char>>,
    pub parameters: Seq<ParameterV>,
    pub active_parameter: nat,
}

impl View for CallHelp {
    type V = CallHelpV;

    open spec fn view(&self) -> CallHelpV {
        CallHelpV {
            label: self.label@,
            documentation: opt_text(self.documentation),
            parameters: parameters_v(self.parameters@),
            active_parameter: self.active_parameter as nat,
        }
    }
}

/// A parameter with what its function says of it.
pub open spec fn shown_param(name: Seq<char>, doc: Option<DocV>) -> ParameterV {
    ParameterV {
        label: name,
        documentation: match doc {
            Some(doc) => note_on(doc.params, name, 0),
            None => None,
        },
    }
}

/// What is shown while a call of a symbol is written.
pub open spec fn call_help(cs: Seq<char>, program: Option<Seq<Stmt>>, symbol: SymbolV, active: nat) -> CallHelpV {
    let params = called_params(cs, program, symbol);
    CallHelpV {
        label: if symbol.kind == Kind::Class {
            symbol.name + "("@ + joined(params, ", "@) + ")"@
        } else {
            symbol.signature()
        },
        documentation: match symbol.doc {
            Some(doc) => Some(doc.summary),
            None => None,
        },
        parameters: Seq::new(params.len(), |i: int| shown_param(params[i], symbol.doc)),
        active_parameter: active,
    }
}

/// What is shown while a call is written at a place.
pub open spec fn help_at(state: DocumentState, pos: Position) -> Option<CallHelpV> {
    let cs = state.text@;
    match call_around(cs, pos) {
        None => None,
        Some(call) => match called_symbol(known_text(state.types), known(state.types), call, byte_at(cs, pos)) {
            Some(symbol) => Some(call_help(known_text(state.types), known(state.types), symbol, call.active)),
            None => None,
        },
    }
}

fn called_params_of(state: &DocumentState, symbol: &Symbol) -> (r: Vec<String>)
    ensures
        strs(r@) == called_params(known_text(state.types), known(state.types), symbol@),
{
    if symbol.kind == Kind::Class {
        if let Some(types) = &state.types {
            let all = types.members_of(symbol.name.as_str());
            if let Some(init) = take_named(all, "init") {
                return init.params;
            }
        }
    }
    copy_texts(&symbol.params)
}

fn shown_params(names: &Vec<String>, doc: &Option<Doc>) -> (r: Vec<ParameterInformation>)
    ensures
        parameters_v(r@) == Seq::new(
            names@.len(),
            |i: int| shown_param(strs(names@)[i], opt_doc(*doc)),
        ),
{
    let ghost model = opt_doc(*doc);
    let ghost goal = Seq::new(names@.len(), |i: int| shown_param(strs(names@)[i], model));
    let mut out: Vec<ParameterInformation> = Vec::new();
    let mut i: usize = 0;
    while i < names.len()
        invariant
            i <= names@.len(),
            model == opt_doc(*doc),
            goal == Seq::new(names@.len(), |i: int| shown_param(strs(names@)[i], model)),
            parameters_v(out@) =~= goal.take(i as int),
        decreases names@.len() - i,
    {
        let ghost before = parameters_v(out@);
        let name = names[i].as_str();
        let documentation = match doc {
            Some(doc) => find_note(&doc.params, name),
            None => None,
        };
        out.push(ParameterInformation { label: name.to_owned(), documentation });
        assert(parameters_v(out@) =~= before.push(goal[i as int]));
        i += 1;
    }
    assert(parameters_v(out@) =~= goal);
    out
}

fn call_help_of(state: &DocumentState, symbol: &Symbol, active: usize) -> (r: CallHelp)
    ensures
        r@ == call_help(known_text(state.types), known(state.types), symbol@, active as nat),
{
    let params = called_params_of(state, symbol);
    let label = match symbol.kind {
        Kind::Class => {
            let inside = join(&params, ", ");
            cat4(symbol.name.as_str(), "(", inside.as_str(), ")")
        },
        _ => symbol.signature(),
    };
    let documentation = match &symbol.doc {
        Some(doc) => Some(doc.summary.as_str().to_owned()),
        None => None,
    };
    assert(strs(params@).len() == params@.len());
    let parameters = shown_params(&params, &symbol.doc);
    assert(parameters_v(parameters@) =~= call_help(known_text(state.types), known(state.types), symbol@, active as nat).parameters);
    CallHelp { label, documentation, parameters, active_parameter: active }
}

/// What is shown while a call is written at a place of a document.
pub fn get_signature_help(state: Option<&DocumentState>, pos: Position) -> (r: Option<CallHelp>)
    ensures
        (match r { Some(r) => Some(r@), None => None }) == match state {
            Some(state) => help_at(*state, pos),
            None => None,
        },
{
    let state = match state {
        Some(state) => state,
        None => return None,
    };
    let call = match find_call_context(state.text.as_str(), pos) {
        Some(call) => call,
        None => return None,
    };
    let at = position_to_offset(state.text.as_str(), pos);
    let symbol = match &call.receiver {
        Some(before) => {
            let all = state.members_before(before.as_str(), at);
            take_named(all, call.callee.as_str())
        },
        None => lone_symbol_of(state, call.callee.as_str(), at),
    };
    match symbol {
        Some(symbol) => Some(call_help_of(state, &symbol, call.active)),
        None => None,
    }
}

} // verus!
