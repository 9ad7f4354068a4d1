//! What programs print, and how they fail.

use quince::compile;
use quince::error::{ErrorKind, QuinceError};
use quince::interp::show::Ask;
use quince::interp::state::Interp;
use quince::runtime::value::Value;
use quince::syntax::token::Span;

fn printed(source: &str) -> String {
    let program = compile(source).expect("the program should parse");
    let mut interp = Interp::new();
    interp.run(&program).expect("the program should run");
    interp.out
}

fn failed(source: &str) -> QuinceError {
    let program = compile(source).expect("the program should parse");
    let mut interp = Interp::new();
    interp.run(&program).expect_err("the program should fail")
}

// -- numbers -------------------------------------------------------------------------------

#[test]
fn floor_division_and_remainder_give_the_dividend_back() {
    assert_eq!(printed("print(7 // 2)\nprint(0 - 7 // 2)"), "3\n-3\n");
    assert_eq!(printed("let a = -7\nprint(a // 2)\nprint(a % 2)"), "-4\n-1\n");
}

#[test]
fn an_int_is_added_exactly_or_not_at_all() {
    assert_eq!(
        printed("print(9223372036854775806 + 1)"),
        "9223372036854775807\n"
    );
    assert_eq!(failed("print(9223372036854775807 + 1)").kind, ErrorKind::Overflow);
}

#[test]
fn floats_are_shown_as_the_shortest_text_that_reads_back() {
    assert_eq!(printed("print(0.1 + 0.2)"), "0.30000000000000004\n");
    assert_eq!(printed("print(0.1)"), "0.1\n");
    assert_eq!(printed("print(1.0 / 3.0)"), "0.3333333333333333\n");
    assert_eq!(printed("print(2.0)"), "2.0\n");
    assert_eq!(printed("print(7 / 2)"), "3.5\n");
    assert_eq!(printed("print(1.5 * 1.5)"), "2.25\n");
    assert_eq!(printed("print(1.0 - 0.9)"), "0.09999999999999998\n");
}

#[test]
fn negating_a_float_twice_gives_it_back() {
    assert_eq!(printed("let x = 2.5\nprint(-x)\nprint(-(-x))"), "-2.5\n2.5\n");
}

#[test]
fn float_sums_and_products_do_not_mind_the_order() {
    assert_eq!(printed("print(0.1 + 0.7 == 0.7 + 0.1)"), "true\n");
    assert_eq!(printed("print(0.1 * 0.7 == 0.7 * 0.1)"), "true\n");
}

#[test]
fn ints_and_floats_compare_by_value() {
    assert_eq!(printed("print(1 == 1.0)\nprint(1 < 1.5)\nprint(2 > 1.5)"), "true\ntrue\ntrue\n");
}

// -- texts ----------------------------------------------------------------------------------

#[test]
fn a_text_changes_its_case() {
    assert_eq!(printed("print(\"Straße\".upper())"), "STRASSE\n");
    assert_eq!(printed("print(\"ÀB\".lower())"), "àb\n");
}

#[test]
fn a_text_is_split_and_joined() {
    assert_eq!(printed("print(\"a,b,c\".split(\",\"))"), "[\"a\", \"b\", \"c\"]\n");
    assert_eq!(printed("print(\"-\".join([\"x\", \"y\"]))"), "x-y\n");
}

#[test]
fn a_text_inside_a_list_is_quoted() {
    assert_eq!(printed("print([\"a\\\"b\"])"), "[\"a\\\"b\"]\n");
    assert_eq!(printed("print(\"a\\\"b\")"), "a\"b\n");
}

#[test]
fn names_may_use_letters_of_any_script() {
    assert_eq!(printed("let größe = 3\nprint(größe)"), "3\n");
}

// -- containers -------------------------------------------------------------------------------

#[test]
fn a_negative_index_counts_from_the_end() {
    assert_eq!(printed("let xs = [1, 2, 3]\nprint(xs[-1])\nprint(xs[0])"), "3\n1\n");
}

#[test]
fn a_slice_stays_inside_and_a_bare_one_takes_everything() {
    assert_eq!(printed("let xs = [1, 2, 3]\nprint(xs[1:9])"), "[2, 3]\n");
    assert_eq!(printed("let xs = [1, 2, 3]\nprint(xs[:])"), "[1, 2, 3]\n");
    assert_eq!(printed("print(\"hello\"[1:3])"), "el\n");
}

#[test]
fn a_dict_gives_back_what_was_put() {
    assert_eq!(
        printed("let d = {\"a\": 1}\nd[\"a\"] = 2\nd[\"b\"] = 3\nprint(d[\"a\"])\nprint(len(d))"),
        "2\n2\n"
    );
}

#[test]
fn an_equal_key_makes_no_second_entry() {
    assert_eq!(printed("let d = {1: \"x\"}\nd[1.0] = \"y\"\nprint(len(d))"), "1\n");
}

#[test]
fn popping_undoes_pushing() {
    assert_eq!(printed("let xs = [1]\nxs.push(2)\nprint(xs.pop())\nprint(xs)"), "2\n[1]\n");
}

#[test]
fn a_constant_list_is_never_changed() {
    assert_eq!(failed("const xs = [1]\nxs.push(2)").kind, ErrorKind::Frozen);
    assert_eq!(failed("const xs = [[1]]\nxs[0][0] = 2").kind, ErrorKind::Frozen);
}

#[test]
fn mapping_keeps_the_order() {
    assert_eq!(printed("fn twice(x) { return x * 2 }\nprint([1, 2, 3].map(twice))"), "[2, 4, 6]\n");
}

#[test]
fn membership_asks_for_keys_items_and_parts() {
    assert_eq!(
        printed("print(2 in [1, 2])\nprint(\"k\" in {\"k\": 1})\nprint(\"ell\" in \"hello\")"),
        "true\ntrue\ntrue\n"
    );
}

// -- classes ---------------------------------------------------------------------------------

const ANIMALS: &str = "class Animal {\n let name = \"?\"\n op init(name) { self.name = name }\n fn speak() { return self.name + \"!\" }\n}\nclass Dog extends Animal {\n op init(name) { super.init(name) }\n fn speak() { return \"woof \" + super.speak() }\n}\n";

#[test]
fn the_nearest_method_is_the_one_that_runs() {
    assert_eq!(printed(&format!("{ANIMALS}print(Dog(\"rex\").speak())")), "woof rex!\n");
    assert_eq!(printed(&format!("{ANIMALS}print(Animal(\"cat\").speak())")), "cat!\n");
}

#[test]
fn a_field_hides_a_method_of_its_name() {
    assert_eq!(
        printed("class C {\n op init() { self.f = 1 }\n fn f() { return 2 }\n}\nprint(C().f)"),
        "1\n"
    );
}

#[test]
fn a_private_member_is_out_of_reach() {
    let source = "class C {\n private let n = 1\n fn get() { return self.n }\n}\nlet c = C()\n";
    assert_eq!(printed(&format!("{source}print(c.get())")), "1\n");
    assert_eq!(failed(&format!("{source}print(c.n)")).kind, ErrorKind::Visibility);
}

#[test]
fn an_extension_gives_way_to_a_declared_method() {
    let source = "class C {\n fn f() { return 1 }\n}\nextend C {\n fn g() { return 2 }\n}\nlet c = C()\n";
    assert_eq!(printed(&format!("{source}print(c.f())\nprint(c.g())")), "1\n2\n");
}

#[test]
fn the_left_operand_is_asked_first() {
    let source = "class A {\n op add(other) { return \"left\" }\n}\nprint(A() + 1)";
    assert_eq!(printed(source), "left\n");
}

#[test]
fn the_declaration_that_fits_best_is_chosen() {
    let source = "fn f(x: int) { return \"int\" }\nfn f(x: string) { return \"string\" }\nprint(f(1))\nprint(f(\"a\"))";
    assert_eq!(printed(source), "int\nstring\n");
}

#[test]
fn a_class_says_how_it_displays() {
    let source = "class P {\n op string() { return \"P!\" }\n}\nprint(P())\nprint([P()])";
    assert_eq!(printed(source), "P!\n[P!]\n");
}

// -- errors -----------------------------------------------------------------------------------

#[test]
fn what_is_thrown_is_what_is_caught() {
    assert_eq!(
        printed("try {\n throw Error(\"boom\")\n} catch e {\n print(e.message)\n}"),
        "boom\n"
    );
}

#[test]
fn each_mistake_has_a_kind_of_its_own() {
    let cases = [
        ("1 + \"a\"", ErrorKind::Type),
        ("nothing", ErrorKind::Name),
        ("int(\"x\")", ErrorKind::Value),
        ("9223372036854775807 * 2", ErrorKind::Overflow),
        ("1 // 0", ErrorKind::ZeroDivision),
        ("1 / 0", ErrorKind::ZeroDivision),
        ("[1][5]", ErrorKind::Index),
        ("let d = {\"a\": 1}\nd.remove(\"b\")", ErrorKind::Key),
        ("[1].missing", ErrorKind::Attr),
        ("const c = 1\nc = 2", ErrorKind::Frozen),
        ("fn f() { return f() }\nf()", ErrorKind::Recursion),
        ("import nowhere", ErrorKind::Import),
        ("throw Error(\"x\")", ErrorKind::Thrown),
    ];
    for (source, kind) in cases {
        let program = match compile(source) {
            Ok(program) => program,
            Err(err) => {
                assert_eq!(err.kind, kind, "{source}");
                continue;
            }
        };
        let mut interp = Interp::new();
        let err = interp.run(&program).expect_err(source);
        assert_eq!(err.kind, kind, "{source}: {}", err.message);
    }
}

#[test]
fn a_text_that_is_no_program_is_a_syntax_error() {
    for source in ["let", "fn (", "1 +", "\"open", "class {"] {
        assert_eq!(compile(source).expect_err(source).kind, ErrorKind::Syntax);
    }
}

#[test]
fn a_failed_program_leaves_nothing_held() {
    let program = compile(
        "class C {\n op init() { self.go(1) }\n fn go(n) {\n for x in [1, 2, 3] {\n if n > 20 { throw Error(\"deep\") }\n self.go(n + 1)\n }\n }\n}\nC()",
    )
    .expect("the program should parse");
    let mut interp = Interp::new();
    let (scopes, temps) = (interp.scopes.len(), interp.temps.len());
    let (reaching, depth, bindings) = (interp.reaching.len(), interp.depth, interp.bindings.len());
    assert!(interp.run(&program).is_err());
    assert_eq!(interp.scopes.len(), scopes);
    assert_eq!(interp.temps.len(), temps);
    assert_eq!(interp.reaching.len(), reaching);
    assert_eq!(interp.depth, depth);
    assert_eq!(interp.bindings.len(), bindings);
}

// -- types ------------------------------------------------------------------------------------

#[test]
fn an_annotation_is_held_to() {
    assert_eq!(failed("let n: int = \"a\"").kind, ErrorKind::Type);
    assert_eq!(failed("let n: int = nil").kind, ErrorKind::Type);
    assert_eq!(printed("let n: int? = nil\nprint(n)"), "nil\n");
    assert_eq!(printed("let n: any = \"a\"\nprint(n)"), "a\n");
}

#[test]
fn a_described_list_takes_what_it_says() {
    assert_eq!(failed("let xs: list[int] = [1]\nxs.push(\"a\")").kind, ErrorKind::Type);
    assert_eq!(printed("let xs: list[int] = [1]\nxs.push(2)\nprint(xs)"), "[1, 2]\n");
    assert_eq!(printed("let xs: list = [1]\nxs.push(\"a\")\nprint(len(xs))"), "2\n");
}

#[test]
fn a_parameter_of_a_class_becomes_its_argument() {
    let source = "class Box[T] {\n let held: T\n op init(held: T) { self.held = held }\n}\n";
    assert_eq!(printed(&format!("{source}let b: Box[int] = Box[int](3)\nprint(b.held)")), "3\n");
    assert_eq!(
        failed(&format!("{source}let b = Box[int](\"a\")")).kind,
        ErrorKind::Type
    );
}

// -- the host ------------------------------------------------------------------------------------

fn with_file(path: &str, text: &str, source: &str) -> Result<String, QuinceError> {
    let program = compile(source).expect("the program should parse");
    let mut interp = Interp::new();
    interp.set_path("work/main.qn".to_string());
    interp.add_file(path.to_string(), text.to_string());
    interp.run(&program)?;
    Ok(interp.out)
}

#[test]
fn an_import_runs_the_file_beside_the_program() {
    let util = "fn twice(x) { return x * 2 }\nlet n = 21\n";
    assert_eq!(
        with_file("work/util.qn", util, "from util import twice\nprint(twice(4))").unwrap(),
        "8\n"
    );
    assert_eq!(
        with_file("work/util.qn", util, "import util\nprint(util.twice(util.n))").unwrap(),
        "42\n"
    );
    assert_eq!(
        with_file("elsewhere/util.qn", util, "import util").unwrap_err().kind,
        ErrorKind::Import
    );
    assert_eq!(
        with_file("work/util.qn", "private let hidden = 1\n", "from util import hidden")
            .unwrap_err()
            .kind,
        ErrorKind::Visibility
    );
}

#[test]
fn a_line_and_the_rest_make_up_the_input() {
    let mut interp = Interp::with_io(String::new(), "one\ntwo".to_string());
    let mut line = String::new();
    assert_eq!(interp.read_line(&mut line), 4);
    assert_eq!(line, "one\n");
    line.clear();
    assert_eq!(interp.read_line(&mut line), 3);
    assert_eq!(line, "two");
    line.clear();
    assert_eq!(interp.read_line(&mut line), 0);
    assert_eq!(line, "");
}

#[test]
fn a_seed_starts_the_same_numbers_again() {
    let mut interp = Interp::new();
    interp.set_seed(7);
    let first = (interp.next_random(), interp.next_random());
    interp.set_seed(7);
    assert_eq!((interp.next_random(), interp.next_random()), first);
    assert_ne!(first.0, first.1);
}

#[test]
fn an_entry_at_a_prompt_answers_with_its_last_value() {
    let mut interp = Interp::new();
    let entry = compile("let x = 20\nx + 1").unwrap();
    assert_eq!(interp.run_repl(&entry).unwrap(), Some(Value::Int(21)));
    let entry = compile("let y = 1").unwrap();
    assert_eq!(interp.run_repl(&entry).unwrap(), None);
    let entry = compile("x").unwrap();
    assert_eq!(interp.run_repl(&entry).unwrap(), Some(Value::Int(20)));
}

#[test]
fn a_value_is_displayed_with_colour_and_without() {
    let mut interp = Interp::new();
    let value = Value::Int(5);
    assert_eq!(interp.display(&value, Ask::Class).unwrap(), "5");
    let painted = interp.display_styled(&value, true, Ask::Class).unwrap();
    assert!(painted.contains("5"));
    let list = interp.new_list(vec![Value::Int(1), Value::Int(2)]);
    assert_eq!(interp.display_pretty(&list, false, Ask::Class).unwrap(), "[1, 2]");
}

#[test]
fn a_host_binds_a_global() {
    let mut interp = Interp::new();
    interp.set_global("answer", Value::Int(42));
    let program = compile("print(answer)").unwrap();
    interp.run(&program).unwrap();
    assert_eq!(interp.out, "42\n");
}

#[test]
fn white_space_of_any_script_parts_words() {
    assert_eq!(printed("let\u{a0}x\u{3000}= 1\nprint(x)"), "1\n");
}

#[test]
fn a_host_asks_for_truth_and_order() {
    let mut interp = Interp::with_output("before\n".to_string());
    assert!(interp.is_truthy(&Value::Int(1)).unwrap());
    assert!(!interp.is_truthy(&Value::Nil).unwrap());
    let span = Span { start: 0, end: 0 };
    assert!(interp.less_than(&Value::Int(1), &Value::Int(2), span).unwrap());
    assert!(!interp.less_than(&Value::Int(2), &Value::Int(2), span).unwrap());
    let program = compile("print(1)").unwrap();
    interp.run(&program).unwrap();
    assert_eq!(interp.out, "before\n1\n");
    assert_eq!(Interp::default().out, "");
}

#[test]
fn the_methods_of_a_class_are_listed_by_name() {
    let program = compile("class A {\n fn b() { }\n fn a() { }\n}\nextend A {\n fn c() { }\n}").unwrap();
    let mut interp = Interp::new();
    interp.run(&program).unwrap();
    let class = interp
        .get_globals()
        .into_iter()
        .find_map(|(name, value)| match value {
            Value::Class(id) if name == "A" => Some(id),
            _ => None,
        })
        .expect("the class is a global");
    let names: Vec<String> = interp.methods_of(class).into_iter().map(|(name, _)| name).collect();
    assert_eq!(names, vec!["a", "b", "c"]);
}

// -- what the language ships ---------------------------------------------------------------------

#[test]
fn the_shipped_modules_are_there_whatever_files_are() {
    assert_eq!(
        printed("import math\nprint(math.floor(2.7))\nprint(math.abs(-3))\nprint(math.floor(-2.5))"),
        "2\n3\n-3\n"
    );
    assert_eq!(printed("from math import pi\nprint(pi > 3.14 && pi < 3.15)"), "true\n");
    assert_eq!(failed("import math\nmath.nope").kind, ErrorKind::Attr);
    assert_eq!(
        with_file("work/math.qn", "let pi = 3\n", "import math\nprint(math.pi > 3)").unwrap(),
        "true\n"
    );
}

#[test]
fn a_line_is_read_without_its_break() {
    let program = compile("import io\nprint(io.line())\nprint(io.line())\nprint(io.line())").unwrap();
    let mut interp = Interp::with_io(String::new(), "one\ntwo".to_string());
    interp.run(&program).unwrap();
    assert_eq!(interp.out, "one\ntwo\nnil\n");
}

#[test]
fn one_seed_draws_the_same_numbers() {
    let draw = "import random\nrandom.seed(7)\nlet a = random.next()\nrandom.seed(7)\nprint(a == random.next())";
    assert_eq!(printed(draw), "true\n");
    let fresh = "import random\nprint(random.next())";
    let program = compile(fresh).unwrap();
    let mut other = Interp::with_io("before\n".to_string(), "later\n".to_string());
    other.run(&program).unwrap();
    assert_eq!(other.out, format!("before\n{}", printed(fresh)));
}

// -- what is refused before anything runs ---------------------------------------------------------

#[test]
fn a_local_that_stays_is_never_assigned_again() {
    for source in [
        "fn f() {\n final x = 1\n x = 2\n}",
        "fn f() {\n const x = 1\n x += 2\n}",
        "{\n final x = 1\n while true { x = 2 }\n}",
        "class C {\n fn f() { self = 1 }\n}",
    ] {
        let e = compile(source).expect_err("the program should be refused");
        assert_eq!(e.kind, ErrorKind::Declaration, "{source:?}");
        assert!(e.message.starts_with("cannot reassign `"), "{}", e.message);
        assert_eq!(e.report_name(), "DeclarationError");
    }
    assert!(compile("fn f() {\n final x = 1\n { let x = 2\n x = 3 }\n}").is_ok());
    assert!(compile("fn f() {\n let x = 1\n x = 2\n}").is_ok());
    assert_eq!(failed("final x = 1\nx = 2").kind, ErrorKind::Frozen);
}

#[test]
fn a_constructor_gives_its_type_the_value_it_holds() {
    let e = compile("class Name extends string {\n op init(s) { }\n}").expect_err("no value is given");
    assert_eq!(e.message, "`op init` never calls `super.init`, and `Name` extends `string`");
    assert!(compile("class Name extends string {\n op init(s) { if s { super.init(s) } }\n}").is_ok());
    assert!(compile("class Plain {\n op init(s) { }\n}").is_ok());
}

// -- what is thrown -------------------------------------------------------------------------------

#[test]
fn what_nothing_catches_is_reported_by_its_class() {
    let e = failed("class Lost extends Error { }\nthrow Lost(\"gone\")");
    assert_eq!((e.report_name().as_str(), e.message.as_str()), ("Lost", "gone"));
    let e = failed("class Lost extends Error { }\nthrow Lost([1, 2])");
    assert_eq!(e.message, "[1, 2]");
    assert_eq!(failed("1 // 0").report_name(), "ZeroDivisionError");
}

#[test]
fn what_is_caught_says_what_it_is() {
    assert_eq!(
        printed("try { [1][5] } catch e { print(e.kind)\nprint(e.message) }"),
        "IndexError\nindex 5 is out of range for a list of length 1\n"
    );
}

// -- what holds of every program ------------------------------------------------------------------

#[test]
fn a_program_runs_in_two_parts() {
    let first = compile("let x = 1\nprint(x)").unwrap();
    let second = compile("x = x + 1\nprint(x)").unwrap();
    let mut interp = Interp::new();
    interp.run(&first).unwrap();
    interp.run(&second).unwrap();
    assert_eq!(interp.out, printed("let x = 1\nprint(x)\nx = x + 1\nprint(x)"));
}

#[test]
fn binding_a_name_leaves_the_others() {
    let mut interp = Interp::new();
    interp.set_global("a", Value::Int(1));
    interp.set_global("b", Value::Int(2));
    interp.set_global("a", Value::Int(3));
    let listed: Vec<_> = interp.get_globals().into_iter().filter(|(name, _)| name == "a" || name == "b").collect();
    assert_eq!(listed, vec![("a".to_string(), Value::Int(3)), ("b".to_string(), Value::Int(2))]);
}

#[test]
fn two_slices_make_the_whole_and_equality_goes_both_ways() {
    assert_eq!(
        printed("let xs = [1, 2, 3]\nfor i in [-9, -1, 0, 2, 9] { print(xs[:i] + xs[i:] == xs) }"),
        "true\ntrue\ntrue\ntrue\ntrue\n"
    );
    assert_eq!(
        printed("let a = {\"x\": [1], \"y\": 2}\nlet b = {\"y\": 2, \"x\": [1]}\nprint(a == b)\nprint(b == a)\nprint([1] == [2])\nprint([2] == [1])"),
        "true\ntrue\nfalse\nfalse\n"
    );
}

#[test]
fn an_int_is_no_float_and_an_argument_left_out_is_anything() {
    assert_eq!(printed("print(1 is float)\nlet x: float = 1\nprint(x)"), "false\n1.0\n");
    assert_eq!(
        printed("let xs: list[int] = [1]\nprint(xs is list)\nprint(xs is list[any?])\nprint(xs is list[int])"),
        "true\ntrue\ntrue\n"
    );
}

#[test]
fn a_mistake_that_is_drawn_is_certain() {
    for source in ["let x: int = \"s\"", "let x: string = nil", "let x: list = 1.5", "let x: bool = {}"] {
        let program = compile(source).unwrap();
        let drawn = quince::syntax::resolve::check(&program);
        let met = failed(source);
        assert_eq!(drawn.len(), 1, "{source:?}");
        assert_eq!((drawn[0].kind, &drawn[0].message), (met.kind, &met.message));
        assert_eq!(drawn[0].span, met.span);
    }
}

#[test]
fn dicts_are_equal_just_where_their_contents_are() {
    let dicts = "let x = {9007199254740992: 1, 9007199254740993: 1}\nlet y = {9007199254740992.0: 1, nil: 2}\n";
    assert_eq!(printed(&format!("{dicts}print(x == y)\nprint(y == x)")), "false\nfalse\n");
    assert_eq!(
        printed("let d = {1: \"a\"}\nd[1.0] = \"b\"\nprint(d)\nprint(len(d))\nprint(1.5 in d)"),
        "{1: \"b\"}\n1\nfalse\n"
    );
    assert_eq!(
        printed("let d = {9007199254740993: 1}\nprint(9007199254740992.0 in d)\nprint(-0.0 in {0: 1})\nprint(0 in {-0.0: 1})"),
        "false\ntrue\ntrue\n"
    );
    assert_eq!(printed("print({1: [2]} == {1.0: [2.0]})\nprint({1.0: [2.0]} == {1: [2]})"), "true\ntrue\n");
}

#[test]
fn nothing_but_gaps_stands_between_tokens() {
    let tokens = quince::syntax::lexer::Lexer::new("a # b\n\t c").tokenize().unwrap();
    let spans: Vec<_> = tokens.iter().map(|t| (t.span.start, t.span.end, t.newline_before)).collect();
    assert_eq!(spans, vec![(0, 1, false), (8, 9, true), (9, 9, false)]);
}

#[test]
fn lexing_undoes_quoting() {
    assert_eq!(printed("print(\"a\\n\\t\\\\\\\"z\")"), "a\n\t\\\"z\n");
}

#[test]
fn a_builtin_refuses_an_argument_as_a_function_does() {
    let e = failed("\"a,b\".split(1)");
    assert_eq!(e.message, "`separator` is `string`, but this is an int");
    assert_eq!(e.help.as_deref(), Some("`split` takes `string` there"));
    let e = failed("import math\nmath.floor(\"a\")");
    assert_eq!(e.message, "`n` is `int` or `float`, but this is a string");
    let e = failed("import io\nio.write(\"a\", 2)");
    assert_eq!(e.message, "`text` is `string`, but this is an int");
    assert_eq!(failed("len(1)").kind, ErrorKind::Type);
}

#[test]
fn a_negative_power_of_an_int_is_a_float() {
    let nowhere = Span { start: 0, end: 0 };
    let power = |a: i64, b: i64| quince::interp::arith::int_op(quince::syntax::ast::BinaryOp::Pow, a, b, nowhere);
    assert_eq!(power(2, -1).unwrap(), Value::Float(f64::to_bits(0.5)));
    assert_eq!(power(-2, -3).unwrap(), Value::Float(f64::to_bits(-0.125)));
    assert_eq!(power(10, -2).unwrap(), Value::Float(f64::to_bits(0.01)));
    assert_eq!(power(0, -1).unwrap(), Value::Float(f64::to_bits(f64::INFINITY)));
    assert_eq!(power(3, -5000).unwrap(), Value::Float(f64::to_bits(0.0)));
    assert_eq!(power(-1, i64::MIN).unwrap(), Value::Float(f64::to_bits(1.0)));
    assert_eq!(power(2, 10).unwrap(), Value::Int(1024));
}

#[test]
fn a_heap_gives_out_only_places_that_hold_nothing() {
    let program = compile("let i = 0\nwhile i < 3000 {\n let xs = [i, [i]]\n i = i + 1\n}\nprint(nil is int?)\nprint(nil is int)").unwrap();
    let mut interp = Interp::new();
    interp.run(&program).unwrap();
    assert_eq!(interp.out, "true\nfalse\n");
    assert!(interp.heap.collections > 0);
    for (i, id) in interp.heap.free.iter().enumerate() {
        assert!(interp.heap.cells[*id].is_none());
        assert!(!interp.heap.free[..i].contains(id));
    }
    let names: Vec<String> = interp.get_globals().into_iter().map(|(name, _)| name).collect();
    for (i, name) in names.iter().enumerate() {
        assert!(!names[..i].contains(name), "{name}");
    }
}
