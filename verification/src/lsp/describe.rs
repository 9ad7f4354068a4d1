//! A few words on the name at a place, as its declaration alone shows them.

use crate::lsp::document::DocumentState;
use crate::lsp::position::{get_word_at_position, opt_text, word_at, Position};
use crate::lsp::signature::{param_names, param_names_of};
use crate::syntax::ast::{Stmt, StmtKind};
use crate::text::{cat2, cat3, cat4, cat5, join, joined, same};
use vstd::prelude::*;

verus! {

/// What is said of a name born with the language.
pub open spec fn born_words(word: Seq<char>) -> Option<Seq<char>> {
    if word == "print"@ {
        Some("**print(...)**\n\nPrints one or more values to standard output."@)
    } else if word == "type"@ {
        Some("**type(val)**\n\nReturns the type representation or type name of a value."@)
    } else if word == "len"@ {
        Some("**len(val)**\n\nReturns the length of a string, list, or dict."@)
    } else if word == "int"@ {
        Some("**int**\n\nBuilt-in integer type and converter function."@)
    } else if word == "float"@ {
        Some("**float**\n\nBuilt-in floating-point number type and converter function."@)
    } else if word == "string"@ {
        Some("**string**\n\nBuilt-in text string type and converter function."@)
    } else if word == "list"@ {
        Some("**list**\n\nBuilt-in dynamic array type and converter function."@)
    } else if word == "dict"@ {
        Some("**dict**\n\nBuilt-in key-value dictionary type."@)
    } else if word == "self"@ {
        Some("**self**\n\nReference to the current class instance inside a method."@)
    } else if word == "super"@ {
        Some("**super**\n\nReference to the parent class inside a method."@)
    } else {
        None
    }
}

/// How a statement declares a name, where it does.
pub open spec fn declaration(s: Stmt, target: Seq<char>) -> Option<Seq<char>> {
    match s.kind {
        StmtKind::Fn(decl) => if decl.name@ == target {
            Some(
                "fn "@ + decl.name@ + "("@ + joined(
                    param_names(decl.params@, false, decl.params@.len() as int),
                    ", "@,
                ) + ")"@,
            )
        } else {
            None
        },
        StmtKind::Class(decl) => if decl.name@ == target {
            match decl.parent {
                Some(parent) => Some("class "@ + decl.name@ + " extends "@ + parent@),
                None => Some("class "@ + decl.name@),
            }
        } else {
            None
        },
        StmtKind::Let { name, name_span, ty, value, bind, visibility } => if name@ == target {
            Some(bind.spelled() + " "@ + name@)
        } else {
            None
        },
        _ => None,
    }
}

/// How the first of the statements from `i` on that declares a name declares it.
pub open spec fn decl_words(ss: Seq<Stmt>, target: Seq<char>, i: int) -> Option<Seq<char>>
    decreases ss.len() - i,
{
    if i < 0 || i >= ss.len() {
        None
    } else if declaration(ss[i], target) is Some {
        declaration(ss[i], target)
    } else {
        decl_words(ss, target, i + 1)
    }
}

/// What is shown: words, or how a name is declared.
#[derive(Debug)]
pub enum Description {
    Words(String),
    Declared(String),
}

/// The model of a [`Description`].
pub enum DescriptionV {
    Words(Seq<char>),
    Declared(Seq<char>),
}

impl View for Description {
    type V = DescriptionV;

    open spec fn view(&self) -> DescriptionV {
        match self {
            Description::Words(s) => DescriptionV::Words(s@),
            Description::Declared(s) => DescriptionV::Declared(s@),
        }
    }
}

/// What is shown of the name at a place.
pub open spec fn described(state: DocumentState, pos: Position) -> Option<DescriptionV> {
    match word_at(state.text@, pos) {
        None => None,
        Some(word) => match born_words(word) {
            Some(words) => Some(DescriptionV::Words(words)),
            None => match state.ast {
                Some(ast) => match decl_words(ast@, word, 0) {
                    Some(words) => Some(DescriptionV::Declared(words)),
                    None => None,
                },
                None => None,
            },
        },
    }
}

fn born_words_of(word: &str) -> (r: Option<&'static str>)
    ensures
        match r {
            Some(s) => born_words(word@) == Some(s@),
            None => born_words(word@) is None,
        },
{
    if same(word, "print") {
        Some("**print(...)**\n\nPrints one or more values to standard output.")
    } else if same(word, "type") {
        Some("**type(val)**\n\nReturns the type representation or type name of a value.")
    } else if same(word, "len") {
        Some("**len(val)**\n\nReturns the length of a string, list, or dict.")
    } else if same(word, "int") {
        Some("**int**\n\nBuilt-in integer type and converter function.")
    } else if same(word, "float") {
        Some("**float**\n\nBuilt-in floating-point number type and converter function.")
    } else if same(word, "string") {
        Some("**string**\n\nBuilt-in text string type and converter function.")
    } else if same(word, "list") {
        Some("**list**\n\nBuilt-in dynamic array type and converter function.")
    } else if same(word, "dict") {
        Some("**dict**\n\nBuilt-in key-value dictionary type.")
    } else if same(word, "self") {
        Some("**self**\n\nReference to the current class instance inside a method.")
    } else if same(word, "super") {
        Some("**super**\n\nReference to the parent class inside a method.")
    } else {
        None
    }
}

fn declaration_of(s: &Stmt, target: &str) -> (r: Option<String>)
    ensures
        opt_text(r) == declaration(*s, target@),
{
    match &s.kind {
        StmtKind::Fn(decl) => if same(decl.name.as_str(), target) {
            let inside = join(&param_names_of(&decl.params, false), ", ");
            Some(cat5("fn ", decl.name.as_str(), "(", inside.as_str(), ")"))
        } else {
            None
        },
        StmtKind::Class(decl) => if same(decl.name.as_str(), target) {
            match &decl.parent {
                Some(parent) => Some(cat4("class ", decl.name.as_str(), " extends ", parent.as_str())),
                None => Some(cat2("class ", decl.name.as_str())),
            }
        } else {
            None
        },
        StmtKind::Let { name, name_span, ty, value, bind, visibility } => if same(name.as_str(), target) {
            Some(cat3(bind.word(), " ", name.as_str()))
        } else {
            None
        },
        _ => None,
    }
}

/// How a program declares a name.
pub fn find_decl_hover(stmts: &Vec<Stmt>, target: &str) -> (r: Option<String>)
    ensures
        opt_text(r) == decl_words(stmts@, target@, 0),
{
    let mut i: usize = 0;
    while i < stmts.len()
        invariant
            i <= stmts@.len(),
            decl_words(stmts@, target@, 0) == decl_words(stmts@, target@, i as int),
        decreases stmts@.len() - i,
    {
        let words = declaration_of(&stmts[i], target);
        if words.is_some() {
            return words;
        }
        i += 1;
    }
    None
}

/// What is shown of the name at a place of a document, as its declaration alone shows it.
pub fn get_hover(state: Option<&DocumentState>, pos: Position) -> (r: Option<Description>)
    ensures
        (match r { Some(r) => Some(r@), None => None }) == match state {
            Some(state) => described(*state, pos),
            None => None,
        },
{
    let state = match state {
        Some(state) => state,
        None => return None,
    };
    let word = match get_word_at_position(state.text.as_str(), pos) {
        Some(word) => word,
        None => return None,
    };
    if let Some(words) = born_words_of(word.as_str()) {
        return Some(Description::Words(words.to_owned()));
    }
    match &state.ast {
        Some(ast) => match find_decl_hover(ast, word.as_str()) {
            Some(words) => Some(Description::Declared(words)),
            None => None,
        },
        None => None,
    }
}

} // verus!
