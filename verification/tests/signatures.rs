//! What an editor is told of a text that does not parse.

use quince::lsp::document::{parse_ast_lenient, DocumentState};
use quince::lsp::names::get_completions;
use quince::lsp::position::Position;
use quince::lsp::signature::get_signature_help;

fn lenient(code: &str) -> DocumentState {
    DocumentState {
        text: code.to_string(),
        ast: parse_ast_lenient(code),
        types: None,
        beside: Vec::new(),
    }
}

#[test]
fn lsp_signature_help_extracts_class_constructor_params() {
    let code = "class Point {\n    op init(x, y) {\n        self.x = x\n        self.y = y\n    }\n}\n\nlet p = Point(3, ";
    let state = lenient(code);
    let pos = Position { line: 7, character: 17 };
    let help = get_signature_help(Some(&state), pos).expect("Expected signature help");
    assert_eq!(help.signatures.len(), 1);
    assert_eq!(help.signatures[0].label, "Point(x, y)");
    assert_eq!(help.active_parameter, 1);
}

#[test]
fn signature_help_extracts_method_params() {
    let code = "class Point {\n    fn scaled(k) {\n        return Point(self.x * k, self.y * k)\n    }\n}\n\nlet p = Point(3, 4)\np.scaled(";
    let state = lenient(code);
    let pos = Position { line: 7, character: 9 };
    let help = get_signature_help(Some(&state), pos).expect("Expected signature help");
    assert_eq!(help.signatures.len(), 1);
    assert_eq!(help.signatures[0].label, "fn scaled(k)");
    assert_eq!(help.active_parameter, 0);
}

#[test]
fn signature_help_extracts_builtin_method_params() {
    let code = "let text = \"hello world\"\ntext.split(";
    let state = lenient(code);
    let pos = Position { line: 1, character: 11 };
    let help = get_signature_help(Some(&state), pos).expect("Expected signature help");
    assert_eq!(help.signatures.len(), 1);
    assert_eq!(help.signatures[0].label, "fn split(arg1, arg2)");
    assert_eq!(help.active_parameter, 0);
}

#[test]
fn signature_help_extracts_literal_string_method_params() {
    let code = "\"test\".split(";
    let state = lenient(code);
    let pos = Position { line: 0, character: 13 };
    let help = get_signature_help(Some(&state), pos).expect("Expected signature help for literal string method");
    assert_eq!(help.signatures.len(), 1);
    assert_eq!(help.signatures[0].label, "fn split(arg1, arg2)");
    assert_eq!(help.active_parameter, 0);
}

#[test]
fn signature_help_extracts_error_class_params() {
    let code = "TypeError(";
    let state = lenient(code);
    let pos = Position { line: 0, character: 10 };
    let help = get_signature_help(Some(&state), pos).expect("Expected signature help for TypeError");
    assert_eq!(help.signatures.len(), 1);
    assert_eq!(help.signatures[0].label, "TypeError(message)");
    assert_eq!(help.active_parameter, 0);
}

#[test]
fn lsp_completion_excludes_symbols_defined_after_cursor() {
    let code = "let defined_above = 1\n\nlet defined_below = 2";
    let state = lenient(code);
    let pos = Position { line: 1, character: 0 };
    let items = get_completions(Some(&state), pos);
    let labels: Vec<String> = items.into_iter().map(|i| i.label).collect();
    assert!(labels.contains(&"defined_above".to_string()));
    assert!(!labels.contains(&"defined_below".to_string()));
}

#[test]
fn lsp_signature_help_extracts_inherited_constructor_params() {
    let code = "class Animal {\n    op init(name) {\n        self.name = name\n    }\n}\nclass Cat extends Animal {}\nCat(";
    let state = lenient(code);
    let pos = Position { line: 6, character: 4 };
    let help = get_signature_help(Some(&state), pos).expect("Expected signature help for inherited constructor");
    assert_eq!(help.signatures.len(), 1);
    assert_eq!(help.signatures[0].label, "Cat(name)");
    assert_eq!(help.active_parameter, 0);
}

#[test]
fn lsp_signature_help_extracts_super_method_params() {
    let code = "class Animal {\n    op init(name) {\n        self.name = name\n    }\n}\nclass Dog extends Animal {\n    op init(name, breed) {\n        super.init(";
    let state = lenient(code);
    let pos = Position { line: 7, character: 19 };
    let help = get_signature_help(Some(&state), pos).expect("Expected signature help for super.init");
    assert_eq!(help.signatures.len(), 1);
    assert_eq!(help.signatures[0].label, "fn init(name)");
    assert_eq!(help.active_parameter, 0);
}
