//! What may be written at a place of a document, as far as the program is understood.

use crate::lsp::cursor::{
    before_dot, import_at, import_site, is_type_position, text_before_dot, type_position,
    ImportSite, ImportSiteV,
};
use crate::lsp::document::{after_text, importable, known, known_text, DocumentState};
use crate::lsp::infer::symbols_of;
use crate::lsp::item::{item, items_v, push, CompletionItem, ItemKind, ItemV};
use crate::lsp::position::{char_of, position_to_offset, Position};
use crate::lsp::receiver::{after_dot, is_preceded_by_dot, row_before, row_before_of};
use crate::lsp::rows::text;
use crate::lsp::scope::scope;
use crate::lsp::symbols::{
    global_symbols, globals, module_members, module_symbols, modules, rendered, rendered_doc,
    symbols_v, Kind, Symbol, SymbolV,
};
use crate::syntax::token::{all_keywords, keyword_doc, keyword_of, keywords, TokenKind};
use crate::text::{cat3, chars_of, join, joined, lemma_strs_push, offset, strs};
use crate::runtime::value::shipped_modules;
use vstd::prelude::*;

verus! {

/// How a kind of symbol is offered.
pub open spec fn offered_as(kind: Kind) -> ItemKind {
    match kind {
        Kind::Class => ItemKind::Class,
        Kind::Function => ItemKind::Function,
        Kind::Method => ItemKind::Method,
        Kind::Field => ItemKind::Field,
        Kind::Variable => ItemKind::Variable,
        Kind::Parameter => ItemKind::Variable,
        Kind::Module => ItemKind::Module,
    }
}

/// A symbol as it is offered.
pub open spec fn offered_item(s: SymbolV) -> ItemV {
    ItemV {
        documentation: match s.doc {
            Some(doc) => Some(rendered(doc)),
            None => None,
        },
        ..item(s.name, offered_as(s.kind), s.signature())
    }
}

pub open spec fn offered_items(s: Seq<SymbolV>) -> Seq<ItemV> {
    Seq::new(s.len(), |i: int| offered_item(s[i]))
}

/// How a kind of symbol is offered.
pub fn kind_of(kind: Kind) -> (r: ItemKind)
    ensures
        r == offered_as(kind),
{
    match kind {
        Kind::Class => ItemKind::Class,
        Kind::Function => ItemKind::Function,
        Kind::Method => ItemKind::Method,
        Kind::Field => ItemKind::Field,
        Kind::Variable => ItemKind::Variable,
        Kind::Parameter => ItemKind::Variable,
        Kind::Module => ItemKind::Module,
    }
}

/// A symbol as it is offered.
pub fn item_of(symbol: &Symbol) -> (r: CompletionItem)
    ensures
        r@ == offered_item(symbol@),
{
    CompletionItem {
        label: symbol.name.as_str().to_owned(),
        kind: kind_of(symbol.kind),
        detail: Some(symbol.signature()),
        documentation: match &symbol.doc {
            Some(doc) => Some(rendered_doc(doc)),
            None => None,
        },
    }
}

fn push_items(symbols: &Vec<Symbol>, out: &mut Vec<CompletionItem>)
    ensures
        items_v(final(out)@) == items_v(old(out)@) + offered_items(symbols_v(symbols@)),
{
    let ghost before = items_v(out@);
    let ghost all = offered_items(symbols_v(symbols@));
    let mut i: usize = 0;
    assert(before + all.take(0) =~= before);
    while i < symbols.len()
        invariant
            i <= symbols@.len(),
            before == items_v(old(out)@),
            all == offered_items(symbols_v(symbols@)),
            items_v(out@) == before + all.take(i as int),
        decreases symbols@.len() - i,
    {
        let ghost so_far = items_v(out@);
        out.push(item_of(&symbols[i]));
        assert(symbols_v(symbols@)[i as int] == symbols@[i as int]@);
        assert(items_v(out@) =~= so_far.push(all[i as int]));
        i += 1;
        assert(items_v(out@) =~= before + all.take(i as int));
    }
    assert(all.take(i as int) =~= all);
}

/// The names of some symbols.
pub open spec fn names_of(s: Seq<SymbolV>) -> Seq<Seq<char>> {
    Seq::new(s.len(), |i: int| s[i].name)
}

/// A module as it is offered to an import: with the names of what it holds.
pub open spec fn module_item(name: Seq<char>) -> ItemV {
    item(name, ItemKind::Module, name + " — "@ + joined(names_of(module_members(name)), ", "@))
}

/// A keyword as it is offered: with what it is for.
pub open spec fn keyword_item(word: Seq<char>) -> ItemV {
    ItemV {
        label: word,
        kind: ItemKind::Keyword,
        detail: match keyword_of(word) {
            Some(kind) => keyword_doc(kind),
            None => None,
        },
        documentation: None,
    }
}

fn module_items() -> (r: Vec<CompletionItem>)
    ensures
        items_v(r@) == Seq::new(shipped_modules().len(), |i: int| module_item(shipped_modules()[i])),
{
    broadcast use lemma_strs_push;

    let all = modules();
    let ghost names = Seq::new(all@.len(), |i: int| all@[i]@);
    let ghost goal = Seq::new(shipped_modules().len(), |i: int| module_item(shipped_modules()[i]));
    let mut out: Vec<CompletionItem> = Vec::new();
    let mut i: usize = 0;
    while i < all.len()
        invariant
            i <= all@.len(),
            names == Seq::new(all@.len(), |i: int| all@[i]@),
            names == shipped_modules(),
            goal == Seq::new(shipped_modules().len(), |i: int| module_item(shipped_modules()[i])),
            items_v(out@) =~= goal.take(i as int),
        decreases all@.len() - i,
    {
        assert(names[i as int] == all@[i as int]@);
        let members = module_symbols(all[i]);
        let ghost held = names_of(module_members(all@[i as int]@));
        let mut member_names: Vec<String> = Vec::new();
        let mut k: usize = 0;
        while k < members.len()
            invariant
                k <= members@.len(),
                held == names_of(symbols_v(members@)),
                strs(member_names@) =~= held.take(k as int),
            decreases members@.len() - k,
        {
            let ghost so_far = strs(member_names@);
            member_names.push(members[k].name.as_str().to_owned());
            assert(symbols_v(members@)[k as int] == members@[k as int]@);
            assert(strs(member_names@) == so_far.push(held[k as int]));
            k += 1;
        }
        assert(strs(member_names@) =~= held);
        let inside = join(&member_names, ", ");
        let ghost before = items_v(out@);
        out.push(
            CompletionItem {
                label: all[i].to_owned(),
                kind: ItemKind::Module,
                detail: Some(cat3(all[i], " — ", inside.as_str())),
                documentation: None,
            },
        );
        assert(items_v(out@) =~= before.push(goal[i as int]));
        i += 1;
    }
    assert(items_v(out@) =~= goal);
    out
}

fn keyword_items() -> (r: Vec<CompletionItem>)
    ensures
        items_v(r@) == Seq::new(all_keywords().len(), |i: int| keyword_item(all_keywords()[i])),
{
    let all = keywords();
    let ghost names = Seq::new(all@.len(), |i: int| all@[i]@);
    let ghost goal = Seq::new(all_keywords().len(), |i: int| keyword_item(all_keywords()[i]));
    let mut out: Vec<CompletionItem> = Vec::new();
    let mut i: usize = 0;
    while i < all.len()
        invariant
            i <= all@.len(),
            names == Seq::new(all@.len(), |i: int| all@[i]@),
            names == all_keywords(),
            goal == Seq::new(all_keywords().len(), |i: int| keyword_item(all_keywords()[i])),
            items_v(out@) =~= goal.take(i as int),
        decreases all@.len() - i,
    {
        assert(names[i as int] == all@[i as int]@);
        let ghost before = items_v(out@);
        let detail = match TokenKind::keyword(all[i]) {
            Some(kind) => match kind.doc() {
                Some(doc) => Some(doc.to_owned()),
                None => None,
            },
            None => None,
        };
        out.push(CompletionItem { label: all[i].to_owned(), kind: ItemKind::Keyword, detail, documentation: None });
        assert(items_v(out@) =~= before.push(goal[i as int]));
        i += 1;
    }
    assert(items_v(out@) =~= goal);
    out
}

/// What may be written at a place where no point and no import stands before it.
pub open spec fn anything(state: DocumentState, at: int) -> Seq<ItemV> {
    Seq::new(all_keywords().len(), |i: int| keyword_item(all_keywords()[i])) + offered_items(global_symbols()) + match known(
        state.types,
    ) {
        Some(p) => {
            let ds = scope(p, at, p.len() as int);
            offered_items(symbols_of(known_text(state.types), p, ds, ds.len() as int))
        },
        None => Seq::empty(),
    }
}

/// Those of the first `n` symbols that name a class.
pub open spec fn classes_among(s: Seq<SymbolV>, n: int) -> Seq<SymbolV>
    decreases n,
{
    if 0 < n <= s.len() {
        let before = classes_among(s, n - 1);
        if s[n - 1].kind == Kind::Class {
            before.push(s[n - 1])
        } else {
            before
        }
    } else {
        Seq::empty()
    }
}

/// What may be written where a type is: `any`, and every class that is seen.
pub open spec fn types_at(state: DocumentState, at: int) -> Seq<ItemV> {
    seq![item("any"@, ItemKind::Class, "any value"@)] + offered_items(
        classes_among(global_symbols(), global_symbols().len() as int),
    ) + match known(state.types) {
        Some(p) => {
            let ds = scope(p, at, p.len() as int);
            let all = symbols_of(known_text(state.types), p, ds, ds.len() as int);
            offered_items(classes_among(all, all.len() as int))
        },
        None => Seq::empty(),
    }
}

/// Whether a type is written at a place.
pub open spec fn at_type(cs: Seq<char>, pos: Position) -> bool {
    match row_before(cs, pos) {
        Some(row) => type_position(row),
        None => false,
    }
}

fn push_classes(symbols: &Vec<Symbol>, out: &mut Vec<CompletionItem>)
    ensures
        items_v(final(out)@) == items_v(old(out)@) + offered_items(
            classes_among(symbols_v(symbols@), symbols_v(symbols@).len() as int),
        ),
{
    let ghost before = items_v(out@);
    let ghost all = symbols_v(symbols@);
    let mut i: usize = 0;
    assert(before + offered_items(classes_among(all, 0)) =~= before);
    while i < symbols.len()
        invariant
            i <= symbols@.len(),
            before == items_v(old(out)@),
            all == symbols_v(symbols@),
            items_v(out@) == before + offered_items(classes_among(all, i as int)),
        decreases symbols@.len() - i,
    {
        let ghost so_far = items_v(out@);
        let ghost classes = classes_among(all, i as int);
        assert(all[i as int] == symbols@[i as int]@);
        if symbols[i].kind == Kind::Class {
            out.push(item_of(&symbols[i]));
            assert(items_v(out@) =~= so_far.push(offered_item(all[i as int])));
            assert(offered_items(classes.push(all[i as int])) =~= offered_items(classes).push(
                offered_item(all[i as int]),
            ));
            assert(items_v(out@) =~= before + offered_items(classes.push(all[i as int])));
        }
        i += 1;
    }
    assert(all.len() == symbols@.len());
}

fn type_items(state: &DocumentState, at: usize) -> (r: Vec<CompletionItem>)
    ensures
        items_v(r@) == types_at(*state, at as int),
{
    let mut out: Vec<CompletionItem> = Vec::new();
    assert(items_v(out@) =~= Seq::empty());
    push(&mut out, "any", ItemKind::Class, "any value".to_owned());
    push_classes(&globals(), &mut out);
    if let Some(types) = &state.types {
        push_classes(&types.in_scope(at), &mut out);
    }
    assert(items_v(out@) =~= types_at(*state, at as int));
    out
}

/// What may be written at a place of a document.
pub open spec fn completions(state: DocumentState, pos: Position) -> Seq<ItemV> {
    let cs = state.text@;
    let at = offset(cs, char_of(cs, pos)) as int;
    if after_dot(cs, pos) {
        match before_dot(cs, pos) {
            Some(before) => offered_items(after_text(known_text(state.types), known(state.types), before, at)),
            None => Seq::empty(),
        }
    } else if at_type(cs, pos) {
        types_at(state, at)
    } else {
        let site = match row_before(cs, pos) {
            Some(row) => import_at(row),
            None => None,
        };
        match site {
            Some(ImportSiteV::Module) => Seq::new(shipped_modules().len(), |i: int| module_item(shipped_modules()[i])),
            Some(ImportSiteV::Member(m)) => offered_items(importable(state, m)),
            None => anything(state, at),
        }
    }
}

/// What may be written at a place of a document.
pub fn get_completions(state: Option<&DocumentState>, pos: Position) -> (r: Vec<CompletionItem>)
    ensures
        items_v(r@) == match state {
            Some(state) => completions(*state, pos),
            None => Seq::empty(),
        },
{
    let mut items: Vec<CompletionItem> = Vec::new();
    assert(items_v(items@) =~= Seq::empty());
    let state = match state {
        Some(state) => state,
        None => return items,
    };
    let source = state.text.as_str();
    let at = position_to_offset(source, pos);
    if is_preceded_by_dot(source, pos) {
        if let Some(before) = text_before_dot(source, pos) {
            let symbols = state.members_before(before.as_str(), at);
            push_items(&symbols, &mut items);
            assert(items_v(items@) =~= offered_items(symbols_v(symbols@)));
        }
        return items;
    }
    let cs = chars_of(source);
    if let Some(row) = row_before_of(&cs, pos) {
        if is_type_position(&row) {
            return type_items(state, at);
        }
        match import_site(text(&row).as_str()) {
            Some(ImportSite::Module) => return module_items(),
            Some(ImportSite::Member(module)) => {
                let symbols = state.importable(module.as_str());
                push_items(&symbols, &mut items);
                assert(items_v(items@) =~= offered_items(symbols_v(symbols@)));
                return items;
            },
            None => {},
        }
    }
    let mut out = keyword_items();
    push_items(&globals(), &mut out);
    if let Some(types) = &state.types {
        push_items(&types.in_scope(at), &mut out);
    }
    assert(items_v(out@) =~= anything(*state, at as int));
    out
}

} // verus!
