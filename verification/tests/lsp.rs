//! What an editor is told of a document.

use quince::compile;
use quince::compile_recovering;
use quince::lsp::actions::get_code_actions;
use quince::lsp::codelens::get_code_lenses;
use quince::lsp::completion::get_completions;
use quince::lsp::cursor::{in_type_position, path_ending_at, text_before_dot};
use quince::lsp::diagnostics::{get_diagnostics, quince_error_to_diagnostic, Diagnostic, Severity};
use quince::lsp::document::DocumentState;
use quince::lsp::folding::get_folding_ranges;
use quince::lsp::format::format_document;
use quince::lsp::hints::get_inlay_hints;
use quince::lsp::hover::{get_hover, get_signature_help};
use quince::lsp::navigate::{
    get_definition, get_document_highlights, get_references, get_workspace_symbols, rename_symbol,
    Document,
};
use quince::lsp::outline::{get_hierarchical_document_symbols, NodeKind};
use quince::lsp::position::{offset_to_position, position_to_offset, Position, Range};
use quince::lsp::selection::get_selection_ranges;
use quince::syntax::resolve::check;

fn end_of(code: &str) -> Position {
    let line = code.matches('\n').count();
    let start = code.rfind('\n').map_or(0, |index| index + 1);
    Position {
        line,
        character: code[start..].chars().count(),
    }
}

fn path_at(code: &str) -> Option<String> {
    path_ending_at(&text_before_dot(code, end_of(code))?)
}

fn typed(edits: &[&str]) -> DocumentState {
    let mut state = None;
    for text in edits {
        state = Some(DocumentState::new(text.to_string(), state));
    }
    state.expect("at least one edit")
}

fn labels_at(state: &DocumentState, pos: Position) -> Vec<String> {
    get_completions(Some(state), pos)
        .into_iter()
        .map(|item| item.label)
        .collect()
}

fn completions_after(before: &str) -> Vec<String> {
    let code = format!("{before}.");
    let state = typed(&[before, &code]);
    let mut labels = labels_at(&state, end_of(&code));
    labels.sort();
    labels.dedup();
    labels
}

fn hovered_at(state: &DocumentState, pos: Position) -> Option<String> {
    get_hover(Some(state), pos).map(|hover| hover.value)
}

fn hovered(code: &str, pos: Position) -> Option<String> {
    hovered_at(&DocumentState::new(code.to_string(), None), pos)
}

fn hovered_doc(code: &str, pos: Position) -> Option<String> {
    let state = DocumentState::new(code.to_string(), None);
    get_hover(Some(&state), pos)?.doc
}

fn at(line: usize, character: usize) -> Position {
    Position { line, character }
}

#[test]
fn an_import_line_offers_modules_then_their_members() {
    let offered = |line: &str| -> Vec<String> {
        let state = typed(&["", line]);
        labels_at(&state, end_of(line))
    };

    let modules = offered("import ");
    assert!(modules.contains(&"math".to_string()), "{modules:?}");
    assert!(!modules.contains(&"floor".to_string()), "{modules:?}");

    let members = offered("from math import ");
    assert!(members.contains(&"floor".to_string()), "{members:?}");
    assert!(!members.contains(&"math".to_string()), "{members:?}");
    assert!(!members.contains(&"read".to_string()), "{members:?}");

    assert!(offered("from math import abs, ").contains(&"floor".to_string()));
    assert!(offered("from ma").contains(&"math".to_string()));
}

#[test]
fn an_imported_name_keeps_what_the_module_knew_about_it() {
    let src = "from math import floor\n";
    let state = typed(&[src]);
    assert_eq!(hovered_at(&state, at(0, 18)).as_deref(), Some("fn floor(n): int"));

    let code = "from math import floor\nfloor(";
    let state = typed(&[src, code]);
    let help = get_signature_help(Some(&state), end_of(code)).expect("an import helps");
    assert_eq!(help.label, "fn floor(n): int");
}

#[test]
fn a_from_import_does_not_bind_the_module() {
    let before = "from math import floor\nmath";
    let code = &format!("{before}.");
    let state = typed(&[before, code]);
    assert!(get_completions(Some(&state), end_of(code)).is_empty());
}

#[test]
fn tests_signature_help_extracts_class_constructor_params() {
    let before = "class Point {\n    op init(x, y) {\n        self.x = x\n        self.y = y\n    }\n}\n";
    let code = &format!("{before}\nlet p = Point(3, ");
    let state = typed(&[before, code]);
    let help = get_signature_help(Some(&state), end_of(code)).expect("a constructor helps");
    assert_eq!(help.label, "Point(x, y)");
    assert_eq!(help.active_parameter, 1);
}

#[test]
fn signature_help_names_what_a_method_returns() {
    let before = "class Point {\n    op init(x, y) {\n        self.x = x\n        self.y = y\n    }\n    fn scaled(k) {\n        return Point(self.x * k, self.y * k)\n    }\n}\nlet p = Point(3, 4)\n";
    let code = &format!("{before}p.scaled(");
    let state = typed(&[before, code]);
    let help = get_signature_help(Some(&state), end_of(code)).expect("a method helps");
    assert_eq!(help.label, "fn scaled(k): Point");
    assert_eq!(help.active_parameter, 0);
}

#[test]
fn signature_help_names_a_builtins_parameters() {
    let before = "let text = \"hello world\"\n";
    let code = &format!("{before}text.split(");
    let state = typed(&[before, code]);
    let help = get_signature_help(Some(&state), end_of(code)).expect("a builtin helps");
    assert_eq!(help.label, "fn split(separator): list");
    assert_eq!(help.active_parameter, 0);
}

#[test]
fn signature_help_reaches_a_method_on_a_literal() {
    let before = "\"test\"";
    let code = &format!("{before}.split(");
    let state = typed(&[before, code]);
    let help = get_signature_help(Some(&state), end_of(code)).expect("a literal helps");
    assert_eq!(help.label, "fn split(separator): list");
}

#[test]
fn signature_help_reads_an_error_class_from_the_prelude() {
    let code = "TypeError(";
    let state = typed(&["", code]);
    let help = get_signature_help(Some(&state), end_of(code)).expect("an error class helps");
    assert_eq!(help.label, "TypeError(message)");
    assert_eq!(help.active_parameter, 0);
}

#[test]
fn tests_completion_excludes_symbols_defined_after_cursor() {
    let code = "let defined_above = 1\n\nlet defined_below = 2";
    let state = DocumentState::new(code.to_string(), None);
    let labels = labels_at(&state, at(1, 0));
    assert!(labels.contains(&"defined_above".to_string()));
    assert!(!labels.contains(&"defined_below".to_string()));
}

#[test]
fn tests_signature_help_extracts_inherited_constructor_params() {
    let before = "class Animal {\n    op init(name) {\n        self.name = name\n    }\n}\nclass Cat extends Animal {}\n";
    let code = &format!("{before}Cat(");
    let state = typed(&[before, code]);
    let help = get_signature_help(Some(&state), end_of(code)).expect("an inherited init helps");
    assert_eq!(help.label, "Cat(name)");
    assert_eq!(help.active_parameter, 0);
}

#[test]
fn tests_signature_help_extracts_super_method_params() {
    let before = "class Animal {\n    op init(name) {\n        self.name = name\n    }\n}\nclass Dog extends Animal {\n    op init(name, breed) {\n        self.breed = breed\n    }\n}\n";
    let code = "class Animal {\n    op init(name) {\n        self.name = name\n    }\n}\nclass Dog extends Animal {\n    op init(name, breed) {\n        super.init(";
    let state = typed(&[before, code]);
    let help = get_signature_help(Some(&state), end_of(code)).expect("`super.init` helps");
    assert_eq!(help.label, "fn init(name)");
    assert_eq!(help.active_parameter, 0);
}

#[test]
fn a_receiver_path_keeps_the_parentheses_the_heuristics_throw_away() {
    assert_eq!(path_at("p.").as_deref(), Some("p"));
    assert_eq!(path_at("o.inner.").as_deref(), Some("o.inner"));
    assert_eq!(path_at("Point().").as_deref(), Some("Point()"));
    assert_eq!(path_at("Point(3, 4).").as_deref(), Some("Point()"));
    assert_eq!(path_at("f(g(x)).").as_deref(), Some("f()"));
    assert_eq!(path_at("let q = b.twin().").as_deref(), Some("b.twin()"));

    assert_eq!(path_at("\"abc\"."), None);
    assert_eq!(path_at("xs[0]."), None);
    assert_eq!(path_at("p"), None);
}

#[test]
fn a_position_and_an_offset_name_the_same_byte() {
    let code = "let a = 1\nfn f() {\n  return 2\n}\n";
    for offset in 0..=code.len() {
        let position = offset_to_position(code, offset);
        assert_eq!(
            position_to_offset(code, position),
            offset,
            "offset {offset} did not survive the round trip"
        );
    }
}

#[test]
fn dot_completion_offers_the_class_the_pass_worked_out() {
    let labels = completions_after("class Box {\n    op init() {\n        self.n = 1\n    }\n    fn only_on_box() {\n        return 1\n    }\n}\nfn make() {\n    return Box()\n}\nlet made = make()\nmade");
    assert!(labels.contains(&"only_on_box".to_string()), "{labels:?}");
    assert!(labels.contains(&"n".to_string()), "{labels:?}");
}

const HAS_HIDDEN_MEMBERS: &str = "class Account {\n\
     private let balance = 0\n\
     protected let owner = \"nobody\"\n\
     public final id = \"A1\"\n\
     fn peek() {\n\
     return 1\n\
     }\n\
     private fn audit() {\n\
     return 2\n\
     }\n\
     }\n";

#[test]
fn dot_completion_withholds_what_the_language_would_refuse() {
    let labels = completions_after(&format!("{HAS_HIDDEN_MEMBERS}let a = Account()\na"));
    assert!(labels.contains(&"peek".to_string()), "{labels:?}");
    assert!(labels.contains(&"id".to_string()), "{labels:?}");
    assert!(!labels.contains(&"balance".to_string()), "{labels:?}");
    assert!(!labels.contains(&"owner".to_string()), "{labels:?}");
    assert!(!labels.contains(&"audit".to_string()), "{labels:?}");
}

#[test]
fn dot_completion_offers_a_modules_members() {
    let labels = completions_after("import math\nmath");
    assert!(labels.contains(&"floor".to_string()), "{labels:?}");
    assert!(labels.contains(&"pi".to_string()), "{labels:?}");
    assert!(!labels.contains(&"read".to_string()), "{labels:?}");
}

#[test]
fn hover_over_a_binding_says_how_it_was_bound_and_what_it_holds() {
    assert_eq!(
        hovered("let total = 1 + 2\n", at(0, 5)).as_deref(),
        Some("let total: int")
    );
    assert_eq!(
        hovered("const LIMIT = 10\n", at(0, 7)).as_deref(),
        Some("const LIMIT: int")
    );
}

#[test]
fn hover_over_a_function_names_what_it_returns() {
    let code = "fn make() {\n    return 1\n}\n";
    assert_eq!(hovered(code, at(0, 4)).as_deref(), Some("fn make(): int"));
}

#[test]
fn hover_over_a_keyword_explains_it_from_beside_the_list() {
    let code = "let total = 1\n";
    let doc = hovered_doc(code, at(0, 1)).expect("a keyword explains itself");
    assert!(doc.contains("reassigned"), "{doc}");
}

#[test]
fn hover_over_a_builtin_reads_the_natives_own_documentation() {
    let code = "let n = len(\"ab\")\n";
    let pos = at(0, 9);
    assert_eq!(hovered(code, pos).as_deref(), Some("fn len(value): int"));
    let doc = hovered_doc(code, pos).expect("`len` documents itself");
    assert!(doc.contains("How many characters"), "{doc}");
}

#[test]
fn hover_over_a_parameter_says_what_its_function_said_about_it() {
    let code = "## Scales it.\n## @param k how much to scale by\nfn scale(k) {\n    return k\n}\n";
    assert_eq!(
        hovered_doc(code, at(3, 11)).as_deref(),
        Some("how much to scale by")
    );
    assert_eq!(
        hovered_doc(code, at(2, 4)).as_deref(),
        Some("Scales it.\n\n`k` — how much to scale by")
    );
}

#[test]
fn hover_says_nothing_where_nothing_is_known() {
    let code = "fn f(x) {\n    return x\n}\n";
    assert!(hovered(code, at(1, 11)).is_none());
}

#[test]
fn dot_completion_types_a_literal_by_lexing_it() {
    let labels = completions_after("[1, 2]");
    assert!(labels.contains(&"push".to_string()), "{labels:?}");

    let labels = completions_after("let xs = [1, 2]\nxs[0]");
    assert!(labels.is_empty(), "an item of unknown type offers nothing: {labels:?}");

    let labels = completions_after("\"abc\"");
    assert!(labels.contains(&"upper".to_string()), "{labels:?}");
}

#[test]
fn dot_completion_on_an_unknown_receiver_offers_nothing() {
    let labels = completions_after("fn f(thing) {\n    thing");
    assert!(labels.is_empty(), "{labels:?}");
}

#[test]
fn a_natives_result_is_what_the_native_says_it_is() {
    let labels = completions_after("let words = \"a,b,c\".split(\",\")\nwords");
    assert!(labels.contains(&"push".to_string()), "{labels:?}");
    assert!(!labels.contains(&"lower".to_string()), "{labels:?}");

    let labels = completions_after("let sep = \", \"\nlet line = sep.join([\"a\", \"b\"])\nline");
    assert!(labels.contains(&"upper".to_string()), "{labels:?}");
    assert!(!labels.contains(&"push".to_string()), "{labels:?}");
}

#[test]
fn a_colon_that_is_not_an_annotation_offers_no_types() {
    for line in ["let d = {\"a\":", "let s = xs[1:", "let d = {\"a\": 1, \"b\":"] {
        assert!(
            !in_type_position(line, line.len()),
            "{line:?} is not type position"
        );
    }
    for line in ["let x:", "let x: ", "fn f(n:", "fn f(): ", "let xs: list[i"] {
        assert!(
            in_type_position(line, line.len()),
            "{line:?} is type position"
        );
    }
}

#[test]
fn a_colon_behind_a_binding_offers_classes_alone() {
    let valid = "class Point {\n    op init() { }\n}\n";
    let before = &format!("{valid}let x:");
    let state = typed(&[valid, before]);
    let labels = labels_at(&state, end_of(before));
    assert!(labels.contains(&"int".to_string()), "{labels:?}");
    assert!(labels.contains(&"string".to_string()), "{labels:?}");
    assert!(labels.contains(&"any".to_string()), "{labels:?}");
    assert!(labels.contains(&"Point".to_string()), "{labels:?}");
    assert!(!labels.contains(&"print".to_string()), "{labels:?}");
}

#[test]
fn a_hint_is_offered_only_where_the_program_said_nothing() {
    let src = "let n = 8\nlet named: string = \"a\"\nlet unknown = nothing()\n";
    let state = DocumentState::new(src.to_string(), None);
    let whole = Range { start: at(0, 0), end: at(9, 0) };
    let hints = get_inlay_hints(Some(&state), whole);
    let labels: Vec<String> = hints.iter().map(|hint| hint.label.clone()).collect();
    assert_eq!(labels, vec![": int".to_string()]);

    assert_eq!(hints[0].position, at(0, 5));
}

#[test]
fn test_references_and_rename_handlers() {
    let src = "fn add(a, b) {\n    return a + b\n}\nlet total = add(1, 2)\n";
    let state = DocumentState::new(src.to_string(), None);
    let uri = "file:///test.qn";
    let pos = at(0, 3);
    let empty_docs = Vec::new();

    let refs = get_references(uri, Some(&state), &empty_docs, pos);
    assert_eq!(refs.len(), 2);

    let edits = rename_symbol(uri, Some(&state), &empty_docs, pos, "sum").unwrap();
    assert_eq!(edits.iter().filter(|edit| edit.uri == uri).count(), 2);
}

#[test]
fn test_workspace_symbols_search() {
    let src = "class Calculator {\n    fn calculate() {\n        return 0\n    }\n}\n";
    let state = DocumentState::new(src.to_string(), None);
    let docs = vec![Document { uri: "file:///calc.qn".to_string(), state }];

    let syms = get_workspace_symbols(&docs, "calc");
    assert_eq!(syms.len(), 2);
}

#[test]
fn test_document_formatting() {
    let unformatted = "fn test() {\nlet x = 1\n}\n";
    let state = DocumentState::new(unformatted.to_string(), None);
    let edits = format_document(Some(&state));
    assert!(!edits.is_empty());
    assert_eq!(edits[0].new_text, "fn test() {\n    let x = 1\n}\n");
}

#[test]
fn test_hierarchical_document_symbols() {
    let src = "class Point {\n    let x = 0\n    fn move() {\n        return 1\n    }\n}\n";
    let state = DocumentState::new(src.to_string(), None);
    let symbols = get_hierarchical_document_symbols(Some(&state));
    assert_eq!(symbols.len(), 1);
    assert_eq!(symbols[0].name, "Point");
    let children = &symbols[0].children;
    assert_eq!(children.len(), 2);
    assert_eq!(children[0].name, "x");
    assert_eq!(children[0].kind, NodeKind::Field);
    assert_eq!(children[1].name, "move");
    assert_eq!(children[1].kind, NodeKind::Method);
}

#[test]
fn test_ast_aware_references_ignores_comments_and_strings() {
    let src = "// add is cool\nlet add = 1\nlet msg = \"add\"\nlet total = add + 2\n";
    let state = DocumentState::new(src.to_string(), None);
    let refs = get_references("file:///test.qn", Some(&state), &Vec::new(), at(1, 4));
    assert_eq!(refs.len(), 2);
}

#[test]
fn test_expanded_code_actions() {
    let src = "let n = math.floor(1.5)\n";
    let state = DocumentState::new(src.to_string(), None);
    let range = Range { start: at(0, 8), end: at(0, 12) };
    let diag = Diagnostic { range, severity: Severity::Error, message: "unknown module math".to_string() };
    let actions = get_code_actions(Some(&state), &vec![diag], range);
    assert!(!actions.is_empty());
    assert_eq!(actions[0].title, "Import module 'math'");
    assert_eq!(actions[0].edit.new_text, "import math\n");
}

#[test]
fn test_folding_ranges() {
    let src = "## Header comment\n## Line 2\nfn foo() {\n    let x = 1\n}\n";
    let state = DocumentState::new(src.to_string(), None);
    let ranges = get_folding_ranges(Some(&state));
    assert_eq!(ranges.len(), 2);
}

#[test]
fn test_selection_ranges() {
    let src = "fn bar() {\n    let count = 42\n}\n";
    let state = DocumentState::new(src.to_string(), None);
    let sel = get_selection_ranges(Some(&state), &vec![at(1, 10)]);
    assert_eq!(sel.len(), 1);
}

#[test]
fn test_document_highlights() {
    let src = "let total = 10\nlet copy = total + 1\n";
    let state = DocumentState::new(src.to_string(), None);
    let hl = get_document_highlights(Some(&state), at(0, 5));
    assert_eq!(hl.len(), 2);
}

#[test]
fn test_code_lenses() {
    let src = "fn greet() {\n    return \"hi\"\n}\nlet g = greet()\n";
    let state = DocumentState::new(src.to_string(), None);
    let lenses = get_code_lenses("file:///test.qn", Some(&state), &Vec::new());
    assert_eq!(lenses.len(), 1);
    assert_eq!(lenses[0].title, "1 reference");
}

const GATE: &str = "from matrix import Matrix, matrix_identity\npublic class QuantumGate {\n public fn get_matrix(): Matrix {\n return matrix_identity(2)\n }\n}\n";

#[test]
fn test_goto_definition_cross_document() {
    let matrix_uri = "file:///workspace/matrix.qn";
    let matrix_src = "public class Matrix {\n op init() {}\n}\nfn matrix_identity(n) { return Matrix() }\n";
    let matrix_state = DocumentState::new(matrix_src.to_string(), None);
    let documents = vec![Document { uri: matrix_uri.to_string(), state: matrix_state }];

    let gate_uri = "file:///workspace/gate.qn";
    let gate_state = DocumentState::new(GATE.to_string(), None);

    let def_matrix = get_definition(gate_uri, Some(&gate_state), &documents, at(2, 25));
    assert_eq!(def_matrix.expect("Definition for Matrix should be found").uri, matrix_uri);

    let def_fn = get_definition(gate_uri, Some(&gate_state), &documents, at(3, 15));
    assert_eq!(def_fn.expect("Definition for matrix_identity should be found").uri, matrix_uri);

    let def_mod = get_definition(gate_uri, Some(&gate_state), &documents, at(0, 7));
    assert_eq!(def_mod.expect("Definition for matrix module should be found").uri, matrix_uri);
}

#[test]
fn test_cross_module_reference_count() {
    let complex_uri = "file:///workspace/complex.qn";
    let complex_src = "public class Complex {\n op init(re, im) {}\n}\nfn complex_one(): Complex {\n return Complex(1.0, 0.0)\n}\n";
    let complex_state = DocumentState::new(complex_src.to_string(), None);

    let main_uri = "file:///workspace/main.qn";
    let main_src = "from complex import Complex, complex_one\nlet c1 = complex_one()\nlet c2 = complex_one()\n";
    let main_state = DocumentState::new(main_src.to_string(), None);
    let documents = vec![
        Document { uri: complex_uri.to_string(), state: complex_state },
        Document { uri: main_uri.to_string(), state: main_state },
    ];

    let lenses = get_code_lenses(complex_uri, Some(&documents[0].state), &documents);
    let fn_lens = lenses
        .iter()
        .find(|l| l.range.start.line == 3)
        .expect("code lens for complex_one");
    assert_eq!(
        fn_lens.title,
        "3 references",
        "Expected 3 references to complex_one across documents"
    );
}

#[test]
fn a_colon_in_a_declaration_offers_types() {
    let valid = "class Point {\n    op init() { }\n}\nalias Score = int\n";
    let before = &format!("{valid}let x:");
    let state = typed(&[valid, before]);
    let labels = labels_at(&state, end_of(before));
    assert!(labels.contains(&"int".to_string()), "{labels:?}");
    assert!(labels.contains(&"string".to_string()), "{labels:?}");
    assert!(labels.contains(&"any".to_string()), "{labels:?}");
    assert!(labels.contains(&"Point".to_string()), "{labels:?}");
    assert!(!labels.contains(&"print".to_string()), "{labels:?}");
}

#[test]
fn a_certain_mistake_is_drawn_as_an_error() {
    let src = "let x: int = \"s\"\n";
    let state = DocumentState::new(src.to_string(), None);
    let program = compile(state.text()).expect("it compiles — that is the point");
    let found = check(&program);
    assert_eq!(found.len(), 1, "{found:?}");
    let diagnostic = quince_error_to_diagnostic(src, &found[0]);
    assert_eq!(diagnostic.severity, Severity::Error);
}

#[test]
fn a_value_that_may_fit_is_no_mistake() {
    for src in ["let x: float = 1\n", "let x: int? = nil\n", "let x: any = 1\n", "let x: Score = 1\n"] {
        assert!(get_diagnostics(src).is_empty(), "{src:?}");
    }
    let found = get_diagnostics("fn f(n: int = nil) { }\n");
    assert_eq!(
        found[0].message,
        "`n` is `int`, but this is nil\nhelp: write `int?` if it may be absent"
    );
    let found = get_diagnostics("class C {\n let n: string = 3\n}\n");
    assert_eq!(found[0].message, "`n` is `string`, but this is an int");
}

fn beside(uri: &str, text: &str) -> Vec<Document> {
    vec![Document { uri: uri.to_string(), state: DocumentState::new(text.to_string(), None) }]
}

fn among(uri: &str, text: &str, documents: &Vec<Document>) -> DocumentState {
    DocumentState::new_with_documents(text.to_string(), Some(uri), documents, None)
}

#[test]
fn test_lsp_cross_document_resolution() {
    let math_utils_src = "class Vector {\n op init(x, y) { self.x = x\n self.y = y }\n}\nfn square(x) { return x * x }\n";
    let documents = beside("file:///workspace/math_utils.qn", math_utils_src);
    let main_src = "from math_utils import Vector, square\nlet v = Vector(3, 4)\nlet sq = square(5)\n";
    let main_state = among("file:///workspace/main.qn", main_src, &documents);

    let types = main_state.types.as_ref().expect("types inferred for main");
    assert_eq!(types.of_name("v", main_src.len()).class_name(), Some("Vector"));

    let labels = labels_at(&main_state, Position { line: 0, character: 23 });
    assert!(labels.contains(&"Vector".to_string()), "Completions: {labels:?}");
    assert!(labels.contains(&"square".to_string()), "Completions: {labels:?}");

    let pos_dot = Position { line: 1, character: 7 };
    let v_members = main_state.members_before("v", position_to_offset(main_src, pos_dot));
    let member_names: Vec<_> = v_members.into_iter().map(|s| s.name).collect();
    assert!(member_names.contains(&"x".to_string()), "Members: {member_names:?}");
    assert!(member_names.contains(&"y".to_string()), "Members: {member_names:?}");
}

#[test]
fn test_cross_document_diagnostics_no_unknown_type() {
    let matrix_src = "public class Matrix {\n op init() {}\n}\nfn matrix_identity(n) { return Matrix() }\n";
    let documents = beside("file:///workspace/matrix.qn", matrix_src);
    let gate_src = "from matrix import Matrix, matrix_identity\npublic class QuantumGate {\n public fn get_matrix(): Matrix {\n return matrix_identity(2)\n }\n}\n";
    let gate_state = among("file:///workspace/gate.qn", gate_src, &documents);
    let (program, errors) = compile_recovering(gate_src);
    assert!(errors.is_empty());
    assert!(gate_state.types.is_some(), "types inferred for gate");
    let check_errors = check(&program);
    assert!(check_errors.is_empty(), "{check_errors:?}");
}

#[test]
fn test_throw_custom_exception_subclass_across_modules() {
    let errors_src = r#"
public class QuantumError extends Error {
    public final details: string = ""
    op init(message: string, details: string) {
        super.init(message)
        self.details = details
    }
}

public final class CircuitValidationError extends QuantumError {
    op init(reason: string) {
        super.init("Circuit validation failed: " + reason, "")
    }
}
"#;
    let documents = beside("file:///workspace/errors.qn", errors_src);
    let circuit_src = r#"
from errors import CircuitValidationError

fn validate(num_qubits: int) {
    if num_qubits <= 0 {
        throw CircuitValidationError("Circuit must have at least 1 qubit")
    }
}
"#;
    let circuit_state = among("file:///workspace/circuit.qn", circuit_src, &documents);
    let (program, errors) = compile_recovering(circuit_src);
    assert!(errors.is_empty());
    assert!(circuit_state.types.is_some(), "types inferred for circuit");
    let check_errors = check(&program);
    assert!(check_errors.is_empty(), "{check_errors:?}");
}

#[test]
fn test_private_method_accessibility_inside_class_with_imports() {
    let errors_src = r#"
public class CircuitValidationError extends Error {
    op init(msg: string) { super.init(msg) }
}
"#;
    let documents = beside("file:///workspace/errors.qn", errors_src);
    let circuit_src = r#"
from errors import CircuitValidationError

public class QuantumCircuit {
    public final num_qubits: int = 0

    op init(num_qubits: int) {
        self.num_qubits = num_qubits
    }

    private fn validate_qubit(q: int) {
        if q < 0 || q >= self.num_qubits {
            throw CircuitValidationError("out of bounds")
        }
    }

    public fn h(qubit: int) {
        self.validate_qubit(qubit)
        return self
    }
}
"#;
    let circuit_state = among("file:///workspace/circuit.qn", circuit_src, &documents);
    let (program, errors) = compile_recovering(circuit_src);
    assert!(errors.is_empty());
    assert!(circuit_state.types.is_some(), "types inferred for circuit");
    let check_errors = check(&program);
    assert!(check_errors.is_empty(), "{check_errors:?}");
}

#[test]
fn what_can_be_read_of_a_text_is_kept() {
    let state = DocumentState::new("fn f() { return 1 }\nlet x = )\nlet y = 2\n".to_string(), None);
    assert_eq!(state.ast().map(|program| program.len()), Some(2));
    let types = state.types.as_ref().expect("what can be read is known");
    assert_eq!(types.of_name("y", 60).class_name(), Some("int"));
}
