//! What the server holds and answers, and the finer points of its heuristics.

use quince::lsp::actions::get_code_actions;
use quince::lsp::cursor::{import_site, text_before_word, trailing_literal_type, ImportSite};
use quince::lsp::describe::{self, Description};
use quince::lsp::diagnostics::{get_diagnostics, Diagnostic, Severity};
use quince::lsp::document::{apply_changes, Change, DocumentState};
use quince::lsp::folding::{get_folding_ranges, FoldKind};
use quince::lsp::format::format_text;
use quince::lsp::hover::get_hover;
use quince::lsp::infer::Types;
use quince::lsp::item::ItemKind;
use quince::lsp::members::collect_dot_completions_for_class;
use quince::lsp::names;
use quince::lsp::navigate::{find_name_range, get_references};
use quince::lsp::position::{
    get_word_at_position, offset_to_position, position_to_offset, span_to_range, Position, Range,
};
use quince::lsp::receiver::{
    get_receiver_before_dot, infer_method_return_class, infer_receiver_class, is_preceded_by_dot,
};
use quince::lsp::selection::get_selection_ranges;
use quince::lsp::semantic::get_semantic_tokens;
use quince::lsp::server::{handle_notification, handle_request, Notice, Reply, Request, Workspace};
use quince::lsp::signature::{extract_params_from_line, find_text_signature};
use quince::lsp::symbols::{rendered_doc, Doc, Note};
use quince::syntax::token::Span;

fn at(line: usize, character: usize) -> Position {
    Position { line, character }
}

fn state(code: &str) -> DocumentState {
    DocumentState::new(code.to_string(), None)
}

// -- places -----------------------------------------------------------------------------------

#[test]
fn an_offset_in_any_script_comes_back_from_its_position() {
    let code = "let ä = \"ß→\"\nprint(ä)\n";
    for (offset, _) in code.char_indices() {
        assert_eq!(position_to_offset(code, offset_to_position(code, offset)), offset);
    }
    assert_eq!(offset_to_position(code, 5), at(0, 4));
    assert_eq!(offset_to_position(code, 6), at(0, 5));
    assert_eq!(offset_to_position("\u{1F600}x", 4), at(0, 2));
    assert_eq!(position_to_offset("\u{1F600}x", at(0, 2)), 4);
}

#[test]
fn a_position_past_the_end_is_the_end() {
    assert_eq!(position_to_offset("ab\ncd", at(0, 9)), 2);
    assert_eq!(position_to_offset("ab\ncd", at(7, 0)), 5);
    assert_eq!(offset_to_position("ab\ncd", 99), at(1, 2));
}

#[test]
fn an_empty_span_is_given_a_character() {
    let range = span_to_range("abc", Span { start: 1, end: 1 });
    assert_eq!(range, Range { start: at(0, 1), end: at(0, 2) });
    let range = span_to_range("abc", Span { start: 3, end: 3 });
    assert_eq!(range, Range { start: at(0, 3), end: at(0, 3) });
}

#[test]
fn a_word_is_found_from_any_of_its_letters() {
    let code = "let total = 1\r\n";
    for character in 4..=9 {
        assert_eq!(get_word_at_position(code, at(0, character)).as_deref(), Some("total"));
    }
    assert_eq!(get_word_at_position(code, at(0, 11)), None);
    assert_eq!(get_word_at_position(code, at(3, 0)), None);
}

#[test]
fn a_name_is_found_inside_a_span() {
    let code = "fn f(x) { x }";
    let range = find_name_range(code, Span { start: 3, end: 13 }, "x").unwrap();
    assert_eq!(range, Range { start: at(0, 5), end: at(0, 6) });
    assert!(find_name_range(code, Span { start: 3, end: 3 }, "x").is_none());
}

// -- changes ------------------------------------------------------------------------------------

#[test]
fn a_change_keeps_what_is_outside_it() {
    let changes = vec![Change {
        range: Some(Range { start: at(0, 4), end: at(0, 5) }),
        text: "total".to_string(),
    }];
    assert_eq!(apply_changes("let x = 1\nx\n", &changes), "let total = 1\nx\n");
    let all = vec![Change { range: None, text: "new".to_string() }];
    assert_eq!(apply_changes("old", &all), "new");
    let backwards = vec![Change {
        range: Some(Range { start: at(0, 2), end: at(0, 1) }),
        text: "!".to_string(),
    }];
    assert_eq!(apply_changes("abc", &backwards), "abc");
}

#[test]
fn the_server_keeps_what_it_is_told() {
    let mut held = Workspace::new();
    let uri = "file:///a.qn".to_string();
    let errors = handle_notification(
        &mut held,
        Notice::Opened { uri: uri.clone(), text: "let x = 1\n".to_string() },
    );
    assert!(errors.is_empty());
    let errors = handle_notification(
        &mut held,
        Notice::Changed {
            uri: uri.clone(),
            changes: vec![Change {
                range: Some(Range { start: at(1, 0), end: at(1, 0) }),
                text: "let".to_string(),
            }],
        },
    );
    assert_eq!(errors.len(), 1);
    assert_eq!(held.get(&uri).unwrap().text(), "let x = 1\nlet");
    assert!(held.get(&uri).unwrap().types.is_some());
    let reply = handle_request(&held, &Request::Hover { uri: uri.clone(), pos: at(0, 4) });
    match reply {
        Reply::Hover(Some(hover)) => assert_eq!(hover.value, "let x: int"),
        other => panic!("expected a hover, got {other:?}"),
    }
    handle_notification(&mut held, Notice::Closed { uri: uri.clone() });
    assert!(held.get(&uri).is_none());
    assert!(matches!(
        handle_request(&held, &Request::Completion { uri, pos: at(0, 0) }),
        Reply::Items(items) if items.is_empty()
    ));
    assert!(matches!(handle_request(&held, &Request::Unknown), Reply::Nothing));
}

// -- drawing ----------------------------------------------------------------------------------------

#[test]
fn an_error_is_drawn_where_it_is() {
    let errors = get_diagnostics("let x = \n");
    assert_eq!(errors.len(), 1);
    assert!(get_diagnostics("let x = 1\n").is_empty());
    let errors = get_diagnostics("let a = \nlet b = 1\nlet c = )\nlet d: int = \"s\"\n");
    let rows: Vec<usize> = errors.iter().map(|error| error.range.start.line).collect();
    assert_eq!(errors.len(), 3, "{errors:?}");
    assert_eq!(rows[1], 2);
    assert_eq!(rows[2], 3);
    assert_eq!(errors[2].message, "`d` is `int`, but this is a string");
}

#[test]
fn regions_and_comments_fold() {
    let found = state("class P {\n fn f() {\n  return 1\n }\n}\n## a\n## b\nlet x = 1\n");
    let folds = get_folding_ranges(Some(&found));
    let texts: Vec<_> = folds.iter().map(|fold| fold.collapsed_text.clone()).collect();
    assert_eq!(
        texts,
        vec![
            Some("class P".to_string()),
            Some("fn f()".to_string()),
            Some("## doc comment".to_string()),
        ]
    );
    assert_eq!(folds[2].kind, FoldKind::Comment);
    assert_eq!((folds[2].start_line, folds[2].end_line), (5, 6));
}

#[test]
fn a_block_in_a_block_is_folded_by_what_it_is() {
    let code = "fn f(xs) {\n for x in xs {\n  if x {\n   return 1\n  }\n }\n try {\n  f(1)\n } catch e {\n  print(e)\n }\n}\n";
    let texts: Vec<String> = get_folding_ranges(Some(&state(code)))
        .into_iter()
        .filter_map(|fold| fold.collapsed_text)
        .collect();
    assert_eq!(texts, vec!["fn f()", "for ...", "if ...", "try ..."]);
}

#[test]
fn a_text_is_laid_out_by_its_braces() {
    assert_eq!(
        format_text("class A {\nfn f() {\nreturn 1\n}\n\n}\n"),
        "class A {\n    fn f() {\n        return 1\n    }\n\n}\n"
    );
    assert_eq!(format_text("let x = 1"), "let x = 1");
}

#[test]
fn a_selection_grows_from_the_inside_out() {
    let code = "let x = 1 + 2\n";
    let all = get_selection_ranges(Some(&state(code)), &vec![at(0, 8)]);
    assert_eq!(
        all[0],
        vec![
            Range { start: at(0, 0), end: at(1, 0) },
            Range { start: at(0, 0), end: at(0, 13) },
            Range { start: at(0, 8), end: at(0, 13) },
            Range { start: at(0, 8), end: at(0, 9) },
        ]
    );
}

#[test]
fn tokens_come_in_the_order_of_the_text() {
    let tokens = get_semantic_tokens(Some(&state("fn go(a) {\n print(a)\n}\nlet x = go(1)\n")));
    let kinds: Vec<(usize, usize, u32)> = tokens
        .iter()
        .map(|token| (token.delta_line, token.delta_start, token.token_type))
        .collect();
    assert_eq!(kinds, vec![(0, 3, 1), (0, 3, 4), (1, 1, 1), (0, 6, 3), (2, 4, 3), (0, 4, 1)]);
}

#[test]
fn a_reference_is_no_part_of_another_name() {
    let found = state("let add = 1\nlet adder = add\n# add\n");
    let refs = get_references("u", Some(&found), &Vec::new(), at(0, 4));
    let places: Vec<Position> = refs.iter().map(|place| place.range.start).collect();
    assert_eq!(places, vec![at(0, 4), at(1, 12)]);
}

// -- what a text suggests ------------------------------------------------------------------------

const POINT: &str = "class Point extends Base {\n    op init(x, y) {\n        self.x = x\n    }\n    fn twin() {\n        return Point(1, 2)\n    }\n}\nlet p = Point(1, 2)\nlet q = p.twin()\nlet s = \"a\"\n";

#[test]
fn a_receiver_is_read_off_its_assignment() {
    let guess = |name: &str| infer_receiver_class(POINT, name, at(11, 0));
    assert_eq!(guess("p").as_deref(), Some("Point"));
    assert_eq!(guess("q").as_deref(), Some("Point"));
    assert_eq!(guess("s").as_deref(), Some("string"));
    assert_eq!(guess("[1]").as_deref(), Some("list"));
    assert_eq!(guess("1.5").as_deref(), Some("float"));
    assert_eq!(guess("15").as_deref(), Some("int"));
    assert_eq!(guess("nobody"), None);
    assert_eq!(infer_receiver_class(POINT, "self", at(2, 8)).as_deref(), Some("Point"));
    assert_eq!(infer_receiver_class(POINT, "super", at(2, 8)).as_deref(), Some("Base"));
    assert_eq!(infer_receiver_class(POINT, "self", at(9, 0)), None);
    assert_eq!(
        infer_receiver_class("let p = Éclair()\n", "p", at(0, 0)).as_deref(),
        Some("Éclair")
    );
}

#[test]
fn a_name_assigned_from_itself_is_looked_for_further_up() {
    let code = "let p = Point(1)\nlet p = p.grown()\n";
    assert_eq!(infer_receiver_class(code, "p", at(1, 0)).as_deref(), Some("Point"));
}

#[test]
fn a_method_returns_what_its_row_says() {
    assert_eq!(infer_method_return_class(POINT, "Point", "twin").as_deref(), Some("Point"));
    assert_eq!(infer_method_return_class(POINT, "Point", "init"), None);
}

#[test]
fn the_text_before_a_point_is_the_receiver() {
    assert!(is_preceded_by_dot("p. ", at(0, 3)));
    assert!(!is_preceded_by_dot("p", at(0, 1)));
    assert_eq!(get_receiver_before_dot("let q = o.inner.", at(0, 16)).as_deref(), Some("o.inner"));
    assert_eq!(get_receiver_before_dot("f(1).", at(0, 5)).as_deref(), Some("f"));
    assert_eq!(text_before_word("p.sca", at(0, 5)).as_deref(), Some("p"));
}

#[test]
fn members_come_from_the_program_and_from_the_text() {
    let program = state(POINT);
    let items = collect_dot_completions_for_class(POINT, program.ast.as_deref(), "p", Some("Point"));
    let labels: Vec<&str> = items.iter().map(|item| item.label.as_str()).collect();
    assert_eq!(labels, vec!["init", "twin", "x"]);
    assert_eq!(items[1].kind, ItemKind::Method);
    assert_eq!(items[1].detail.as_deref(), Some("method Point.twin()"));
    let items = collect_dot_completions_for_class("", None, "s", Some("Str"));
    assert_eq!(items[0].detail.as_deref(), Some("builtin method string.upper()"));
}

#[test]
fn what_the_text_names_is_offered_once() {
    let found = state("let alpha = 1\nlet beta = alpha\n");
    let labels: Vec<String> = names::get_completions(Some(&found), at(1, 0))
        .into_iter()
        .map(|item| item.label)
        .collect();
    assert_eq!(labels.iter().filter(|label| *label == "alpha").count(), 1);
    assert!(labels.contains(&"while".to_string()));
    assert!(labels.contains(&"KeyError".to_string()));
}

#[test]
fn parameters_are_read_off_a_row() {
    assert_eq!(extract_params_from_line("fn f(a, b ) {"), vec!["a", "b"]);
    assert!(extract_params_from_line("fn f() {").is_empty());
    assert_eq!(find_text_signature("fn f(a, b) {\n}\n", "f", None).unwrap().label, "fn f(a, b)");
    assert_eq!(find_text_signature("", "Thing", None).unwrap().label, "Thing()");
    assert!(find_text_signature("", "thing", None).is_none());
}

#[test]
fn a_literal_tells_its_type() {
    let class = |text: &str| trailing_literal_type(text).class_name().map(str::to_string);
    assert_eq!(class("let d = {\"a\": 1}").as_deref(), Some("dict"));
    assert_eq!(class("5").as_deref(), Some("int"));
    assert_eq!(class("1.5").as_deref(), Some("float"));
    assert_eq!(class("true").as_deref(), Some("bool"));
    assert_eq!(class("xs[0]"), None);
}

#[test]
fn an_import_is_about_to_name_a_module_or_a_member() {
    assert!(matches!(import_site("  import ma"), Some(ImportSite::Module)));
    assert!(matches!(import_site("from "), Some(ImportSite::Module)));
    assert!(matches!(import_site("from math import "), Some(ImportSite::Member(m)) if m == "math"));
    assert!(import_site("let x = 1").is_none());
}

// -- what is known ------------------------------------------------------------------------------

#[test]
fn the_nearest_member_of_a_name_counts() {
    let code = "class A {\n fn f() { return 1 }\n fn g() { return \"a\" }\n}\nclass B extends A {\n fn f() { return 1.5 }\n}\n";
    let found = state(code);
    let types: &Types = found.types.as_ref().unwrap();
    let shown: Vec<String> = types.members_of("B").iter().map(|symbol| symbol.signature()).collect();
    assert_eq!(shown, vec!["fn f(): float", "fn g(): string"]);
}

#[test]
fn returns_that_disagree_say_nothing() {
    let found = state("fn f(x) {\n if x { return 1 }\n return \"a\"\n}\n");
    let types = found.types.as_ref().unwrap();
    assert_eq!(types.symbol("f", 50).unwrap().signature(), "fn f(x)");
    assert_eq!(types.of_name("f", 50).class_name(), Some("function"));
}

#[test]
fn a_protected_member_is_offered_to_a_subclass() {
    let code = "class A {\n protected let n = 1\n private let m = 2\n}\nclass B extends A {\n fn f() { return self.n }\n}\nlet b = B()\n";
    let found = state(code);
    let inside = position_to_offset(code, at(5, 12));
    let names = |at: usize| -> Vec<String> {
        found
            .members_before("self", at)
            .into_iter()
            .map(|symbol| symbol.name)
            .collect()
    };
    assert_eq!(names(inside), vec!["f", "n"]);
    let outside: Vec<String> = found
        .members_before("b", code.len())
        .into_iter()
        .map(|symbol| symbol.name)
        .collect();
    assert_eq!(outside, vec!["f"]);
}

#[test]
fn documentation_is_rendered_part_by_part() {
    let doc = Doc {
        summary: "Scales it.".to_string(),
        params: vec![Note { name: "k".to_string(), text: "how much".to_string() }],
        result: Some("the copy".to_string()),
        throws: vec![Note { name: "TypeError".to_string(), text: "on text".to_string() }],
    };
    assert_eq!(
        rendered_doc(&doc),
        "Scales it.\n\n`k` — how much\n\nReturns the copy\n\nRaises `TypeError` on text"
    );
}

#[test]
fn a_declaration_describes_its_name() {
    let found = state("class Cat extends Animal {}\nfn f(a, b) { }\nconst N = 1\n");
    let words = |pos: Position| match describe::get_hover(Some(&found), pos) {
        Some(Description::Declared(words)) => words,
        other => panic!("expected a declaration, got {other:?}"),
    };
    assert_eq!(words(at(0, 7)), "class Cat extends Animal");
    assert_eq!(words(at(1, 3)), "fn f(a, b)");
    assert_eq!(words(at(2, 6)), "const N");
    assert!(matches!(
        describe::get_hover(Some(&state("print(1)\n")), at(0, 1)),
        Some(Description::Words(words)) if words.starts_with("**print(...)**")
    ));
    assert!(get_hover(None, at(0, 0)).is_none());
}

#[test]
fn an_error_that_asks_for_it_offers_a_question_mark() {
    let found = state("let n: int = nil\n");
    let range = Range { start: at(0, 7), end: at(0, 10) };
    let diag = Diagnostic {
        range,
        severity: Severity::Error,
        message: "write `int?` if it may be absent".to_string(),
    };
    let actions = get_code_actions(Some(&found), &vec![diag], Range { start: at(0, 4), end: at(0, 4) });
    assert_eq!(actions[0].title, "Make type nullable with '?'");
    assert_eq!(actions[0].edit.range, Range { start: at(0, 10), end: at(0, 10) });
    assert_eq!(actions[0].diagnostic, Some(0));
    assert_eq!(actions[1].title, "Add type annotation ': int'");
    assert_eq!(actions[1].edit.new_text, ": int");
    assert!(!actions[1].is_preferred);
}

#[test]
fn nothing_is_offered_twice_behind_a_point() {
    let code = "class A {\n fn f() { self.f() }\n fn g() { self.n = 1 }\n}\nclass B extends A {\n fn f() { self.n = 2 }\n}\nlet b = B()\nb.n\n";
    let program = state(code);
    let items = collect_dot_completions_for_class(code, program.ast.as_deref(), "b", Some("B"));
    let mut labels: Vec<String> = items.into_iter().map(|item| item.label).collect();
    let all = labels.len();
    labels.sort();
    labels.dedup();
    assert_eq!(labels.len(), all);
    assert_eq!(labels, vec!["f", "g", "n"]);
}

#[test]
fn tokens_end_where_the_text_does() {
    let code = "let größe = 1.5 # a comment\n";
    let tokens = quince::syntax::lexer::Lexer::new(code).tokenize().unwrap();
    assert!(tokens.windows(2).all(|two| two[0].span.end <= two[1].span.start));
    assert_eq!(tokens.last().unwrap().span, Span { start: code.len(), end: code.len() });
}

#[test]
fn laying_out_keeps_each_row() {
    let code = "  fn f() {\n x = 1  \n\n }  \n";
    let laid = format_text(code);
    let trimmed = |text: &str| -> Vec<String> { text.lines().map(|row| row.trim().to_string()).collect() };
    assert_eq!(trimmed(&laid), trimmed(code));
    assert_eq!(format_text(&laid), laid);
    assert_eq!(format_text("a\n\n\n"), "a\n\n");
}

#[test]
fn what_a_program_declares_is_offered_with_what_it_says_of_it() {
    let code = "## A thing.\nclass Thing {\n    ## How many.\n    let count = 0\n    ## Adds one.\n    fn grow() { return 1 }\n}\nlet thing = Thing()\nthing.";
    let before = &code[..code.len() - 6];
    let state = DocumentState::new(code.to_string(), Some(state(before)));
    let items = quince::lsp::completion::get_completions(Some(&state), at(8, 6));
    let said: Vec<_> = items.iter().map(|item| (item.label.as_str(), item.documentation.clone())).collect();
    assert!(said.contains(&("count", Some("How many.".to_string()))), "{said:?}");
    assert!(said.contains(&("grow", Some("Adds one.".to_string()))), "{said:?}");
    let items = quince::lsp::completion::get_completions(Some(&state), at(7, 0));
    let thing = items.iter().find(|item| item.label == "Thing").expect("the class is seen");
    assert_eq!(thing.documentation.as_deref(), Some("A thing."));
}
