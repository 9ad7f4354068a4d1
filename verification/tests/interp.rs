use quince::compile;
use quince::error::ErrorKind;
use quince::interp::native::checked_trunc;
use quince::interp::state::Interp;
use quince::runtime::value::{builtin_types, Builtin, ObjId, Value};
use quince::runtime::object::Object;
use quince::syntax::ast::{ops, Op};
use quince::syntax::token::{Span, TokenKind};

fn global(interp: &Interp, name: &str) -> Option<Value> {
    interp
        .get_globals()
        .into_iter()
        .find(|(bound, _)| bound == name)
        .map(|(_, value)| value)
}

fn text(interp: &Interp, name: &str) -> Option<String> {
    match global(interp, name) {
        Some(Value::Str(id)) => Some(interp.heap.text(id)),
        _ => None,
    }
}

fn run(source: &str) -> Interp {
    let program = compile(source).expect("the test program should parse");
    let mut interp = Interp::new();
    interp.run(&program).expect("the test program should run");
    interp
}

#[test]
fn the_list_being_mapped_into_survives_collection() {
    let interp = run("fn churn(k) {\n\
         \x20   let scratch = []\n\
         \x20   let i = 0\n\
         \x20   while i < k {\n\
         \x20       scratch.push([i])\n\
         \x20       i = i + 1\n\
         \x20   }\n\
         }\n\
         fn wrap(x) {\n\
         \x20   churn(400)\n\
         \x20   let boxed = [x, x]\n\
         \x20   return boxed\n\
         }\n\
         let source = [1, 2, 3, 4, 5, 6, 7, 8]\n\
         let mapped = source.map(wrap)\n\
         let n = len(mapped)\n\
         let third = mapped[2]");

    assert!(interp.heap.collections > 0, "the collector never ran");
    assert!(
        matches!(global(&interp, "n"), Some(Value::Int(8))),
        "the mapped list did not survive: got {:?}",
        global(&interp, "n")
    );
    let Some(Value::List(id)) = global(&interp, "third") else {
        panic!("the third element should be a list");
    };
    assert_eq!(interp.heap.list(id), vec![Value::Int(3), Value::Int(3)]);
}

#[test]
fn a_constructors_arguments_survive_its_field_initializers() {
    let interp = run("fn churn(k) {\n\
         \x20   let scratch = []\n\
         \x20   let i = 0\n\
         \x20   while i < k {\n\
         \x20       scratch.push([i])\n\
         \x20       i = i + 1\n\
         \x20   }\n\
         }\n\
         class Leaf {\n\
         \x20   op init() { churn(400) }\n\
         }\n\
         class Pair {\n\
         \x20   let filler: Leaf = Leaf()\n\
         \x20   let items: list\n\
         \x20   op init(items: list) { self.items = items }\n\
         }\n\
         fn wrap(a, b) {\n\
         \x20   return Pair([a, b])\n\
         }\n\
         let made = wrap(1, 2)\n\
         let held = made.items\n\
         let n = len(held)");

    assert!(interp.heap.collections > 0, "the collector never ran");
    assert!(
        matches!(global(&interp, "n"), Some(Value::Int(2))),
        "the constructor argument did not survive: got {:?}",
        global(&interp, "n")
    );
    let Some(Value::List(id)) = global(&interp, "held") else {
        panic!("the argument should still be a list");
    };
    assert_eq!(interp.heap.list(id), vec![Value::Int(1), Value::Int(2)]);
}



fn list(interp: &mut Interp, items: Vec<Value>) -> (ObjId, Value) {
    let id = interp.heap.add_object(Object::List(items));
    (id, Value::List(id))
}

fn push(interp: &mut Interp, id: ObjId, value: Value) {
    assert!(!interp.heap.frozen(id), "never frozen here");
    interp.heap.push_item(id, value);
}

fn string(interp: &mut Interp, text: &str) -> Value {
    interp.new_text(text.to_string())
}

/// What a dict holds under a string key.
fn under(interp: &mut Interp, id: ObjId, key: &str) -> Option<Value> {
    let key = string(interp, key);
    interp.heap.dict_get(id, key)
}

#[test]
fn numbers_compare_across_int_and_float() {
    let mut interp = Interp::new();
    assert!(interp.equals(&Value::Int(1), &Value::Float(f64::to_bits(1.0))).unwrap());
    assert!(interp.equals(&Value::Float(f64::to_bits(1.0)), &Value::Int(1)).unwrap());
    assert!(!interp.equals(&Value::Int(1), &Value::Float(f64::to_bits(1.5))).unwrap());
}

#[test]
fn unrelated_types_are_never_equal() {
    let mut interp = Interp::new();
    let one = string(&mut interp, "1");
    assert!(!interp.equals(&Value::Int(1), &one).unwrap());
    assert!(!interp.equals(&Value::Int(1), &Value::Bool(true)).unwrap());
    assert!(!interp.equals(&Value::Nil, &Value::Bool(false)).unwrap());
}

#[test]
fn lists_compare_structurally() {
    let mut interp = Interp::new();
    let (x, y) = (string(&mut interp, "x"), string(&mut interp, "x"));
    let (_, a) = list(&mut interp, vec![Value::Int(1), x]);
    let (_, b) = list(&mut interp, vec![Value::Int(1), y]);
    let (_, c) = list(&mut interp, vec![Value::Int(2)]);
    assert!(interp.equals(&a, &b).unwrap());
    assert!(!interp.equals(&a, &c).unwrap());
}

#[test]
fn identical_handles_short_circuit_comparison() {
    let mut interp = Interp::new();
    let (id, value) = list(&mut interp, vec![]);
    push(&mut interp, id, value);
    assert!(interp.equals(&value, &value).unwrap());
}

#[test]
fn a_type_name_is_a_global_unless_the_lexer_claimed_it() {
    let interp = Interp::new();

    for builtin in builtin_types() {
        let name = builtin.name();
        let bound = global(&interp, name);
        match TokenKind::keyword(name) {
            Some(_) => assert!(
                bound.is_none(),
                "`{name}` is a keyword, so no global could ever be read under it"
            ),
            None => assert_eq!(
                bound,
                Some(Value::Class(interp.heap.builtin_class(builtin))),
                "`{name}` should be bound to its own class"
            ),
        }
    }

    assert!(global(&interp, "nil").is_none());
    assert!(global(&interp, "class").is_none());
}

#[test]
fn a_builtin_can_be_extended_exactly_when_it_converts() {
    for builtin in builtin_types() {
        if matches!(builtin, Builtin::Nil | Builtin::Class) {
            continue;
        }
        let source = format!(
            "class Sub extends {} {{\n op init(x) {{ super.init(x) }}\n}}",
            builtin.name()
        );
        let program = compile(&source).expect("should parse");
        let mut interp = Interp::new();
        let result = interp.run(&program);

        match builtin.init() {
            Some(_) => assert!(
                result.is_ok(),
                "`{}` converts, so it can be extended: {result:?}",
                builtin.name()
            ),
            None => assert_eq!(
                result.expect_err("no conversion, so no subclass").message,
                format!("`Sub` cannot extend `{}`", builtin.name())
            ),
        }
    }
}

fn class_of(interp: &Interp, name: &str) -> ObjId {
    match global(interp, name) {
        Some(Value::Class(id)) => id,
        other => panic!("`{name}` should be a class, found {other:?}"),
    }
}

#[test]
fn declaring_an_op_fills_its_slot() {
    let interp = run("class Money {\n\
                      op init(c) { self.c = c }\n\
                      op string() { return \"$\" }\n\
                      fn plain() { return 1 }\n\
                      }\n");
    let class = class_of(&interp, "Money");

    for op in [Op::Init, Op::Str] {
        assert!(
            matches!(interp.heap.class_slot(class, op), Some(Value::Function(_))),
            "`op {}` was declared but its slot is empty",
            op.name()
        );
    }
    assert!(interp.heap.own_method(class, "plain").is_some());
    for op in ops() {
        if !matches!(op, Op::Init | Op::Str) {
            assert!(
                interp.heap.class_slot(class, op).is_none(),
                "`{}` was never declared but has a slot",
                op.name()
            );
        }
    }
}

#[test]
fn a_subclass_inherits_the_slots_it_does_not_declare() {
    let interp = run("class Base {\n\
                      op init() { }\n\
                      op string() { return \"base\" }\n\
                      op bool() { return false }\n\
                      }\n\
                      class Child extends Base {\n\
                      override op string() { return \"child\" }\n\
                      }\n");
    let base = class_of(&interp, "Base");
    let child = class_of(&interp, "Child");

    assert_eq!(
        interp.heap.class_slot(child, Op::Bool),
        interp.heap.class_slot(base, Op::Bool),
        "`op bool` should have been copied down"
    );
    assert_eq!(
        interp.heap.class_slot(child, Op::Init),
        interp.heap.class_slot(base, Op::Init),
        "`op init` should have been copied down"
    );
    assert!(
        interp.heap.class_slot(child, Op::Str) != interp.heap.class_slot(base, Op::Str),
        "`Child`'s own `op string` should have won"
    );
}

#[test]
fn super_init_stores_what_the_conversion_produced() {
    let interp = run("class Count extends int {\n\
                      op init(x) { super.init(x) }\n\
                      }\n\
                      final n = Count(\"42\")\n");

    let Some(Value::Instance(id)) = global(&interp, "n") else {
        panic!("`n` should be an instance");
    };
    assert_eq!(interp.heap.payload(id), Some(Value::Int(42)));
}

#[test]
fn declaring_no_op_init_still_converts() {
    let interp = run("class Count extends int {}\nfinal n = Count(\"42\")\n");

    let Some(Value::Instance(id)) = global(&interp, "n") else {
        panic!("`n` should be an instance");
    };
    assert_eq!(interp.heap.payload(id), Some(Value::Int(42)));
}

#[test]
fn a_payload_hashes_as_the_value_it_equals() {
    let mut interp = run("class Username extends string {}\n\
                      final d = {}\n\
                      d[Username(\"marc\")] = 1\n\
                      d[\"marc\"] = 2\n");

    let Some(Value::Dict(id)) = global(&interp, "d") else {
        panic!("`d` should be a dict");
    };
    let dict = interp.heap.dict(id);
    assert_eq!(dict.len(), 1, "an equal key must not make a second entry");
    assert_eq!(
        under(&mut interp, id, "marc"),
        Some(Value::Int(2)),
        "the second write should have replaced the first"
    );
}

#[test]
fn declaring_op_eq_is_what_costs_the_dict_key() {
    let interp = run("class Plain extends string {}\n\
                      final d = {}\n\
                      d[Plain(\"marc\")] = 1\n");
    let Some(Value::Dict(id)) = global(&interp, "d") else {
        panic!("`d` should be a dict");
    };
    assert_eq!(interp.heap.dict(id).len(), 1, "the base is a fine key");

    let program = compile(
        "class Decides extends string {\n\
         op eq(other) { return true }\n\
         }\n\
         final d = {}\n\
         d[Decides(\"marc\")] = 1\n",
    )
    .expect("the test program should parse");
    let mut interp = Interp::new();
    let err = interp
        .run(&program)
        .expect_err("a class that decides `==` cannot be a key");
    assert!(
        err.message.contains("cannot be a dict key"),
        "expected the key refusal, got: {}",
        err.message
    );
}

#[test]
fn a_payload_is_written_through_an_inherited_init() {
    let interp = run("class Email extends string {\n\
                      op init(s) { super.init(s) }\n\
                      }\n\
                      class Work extends Email {}\n\
                      final e = Work(\"a@b.com\")\n");

    let Some(Value::Instance(id)) = global(&interp, "e") else {
        panic!("`e` should be an instance");
    };
    let Some(Value::Str(payload)) = interp.heap.payload(id) else {
        panic!("the payload should be a string");
    };
    assert_eq!(interp.heap.text(payload), "a@b.com");
    assert_eq!(
        interp.heap.class_name(interp.heap.instance_class(id)),
        "Work"
    );
}

#[test]
fn truncation_rejects_what_no_int_can_hold() {
    let span = Span::new(0, 1);

    let checked_trunc = |n: f64, span: Span| checked_trunc(n.to_bits(), span);
    assert_eq!(checked_trunc(3.7, span), Ok(Value::Int(3)));
    assert_eq!(checked_trunc(-3.7, span), Ok(Value::Int(-3)));
    assert_eq!(checked_trunc(-0.5, span), Ok(Value::Int(0)));

    assert_eq!(
        checked_trunc(i64::MAX as f64, span).unwrap_err().kind,
        ErrorKind::Overflow,
        "i64::MAX as f64 rounds up to 2^63, which is out of range"
    );
    assert_eq!(
        checked_trunc(9223372036854774784.0, span),
        Ok(Value::Int(9223372036854774784)),
        "the largest float below 2^63 is in range and must convert"
    );
    assert_eq!(
        checked_trunc(i64::MIN as f64, span),
        Ok(Value::Int(i64::MIN)),
        "-2^63 is exact as an f64, so the low bound converts"
    );
    assert_eq!(
        checked_trunc(f64::INFINITY, span).unwrap_err().kind,
        ErrorKind::Overflow
    );
    assert_eq!(
        checked_trunc(f64::NAN, span).unwrap_err().kind,
        ErrorKind::Value
    );
}

#[test]
fn a_conversion_separates_the_wrong_type_from_the_wrong_value() {
    let cases = [
        ("int([1])", ErrorKind::Type),
        ("int(nil)", ErrorKind::Type),
        ("int(\"abc\")", ErrorKind::Value),
        ("float(\"abc\")", ErrorKind::Value),
    ];

    for (source, expected) in cases {
        let program = compile(source).expect("should parse");
        let mut interp = Interp::new();
        let err = interp.run(&program).expect_err("should be refused");
        assert_eq!(err.kind, expected, "{source}");
    }
}

#[test]
fn a_conversion_is_reached_through_the_class_a_name_is_bound_to() {
    let interp = run("final make = int\nfinal n = make(\"42\")");
    assert_eq!(global(&interp, "n"), Some(Value::Int(42)));
}

#[test]
fn a_loop_does_not_grow_the_heap_without_bound() {
    let interp = run("let i = 0\nwhile i < 2000 {\n let x = [1, 2, 3]\n i = i + 1\n}");

    assert!(interp.heap.collections > 0, "the collector never ran");
    assert!(
        interp.heap.live() < 600,
        "heap grew to {} objects",
        interp.heap.live()
    );
}

#[test]
fn a_loop_that_catches_does_not_grow_the_heap() {
    let interp = run("let i = 0\n\
         while i < 2000 {\n\
         \x20 try {\n\
         \x20  throw Error(\"x\")\n\
         \x20 } catch e {\n\
         \x20  i = i + 1\n\
         \x20 }\n\
         }");

    assert!(interp.heap.collections > 0, "the collector never ran");
    assert!(
        interp.heap.live() < 600,
        "heap grew to {} objects",
        interp.heap.live()
    );
    assert!(
        interp.scopes.is_empty(),
        "{} scopes left behind",
        interp.scopes.len()
    );
    assert!(
        interp.temps.is_empty(),
        "{} temps left behind",
        interp.temps.len()
    );
    assert_eq!(interp.depth, 0, "depth left at {}", interp.depth);
}

#[test]
fn a_thrown_payload_survives_the_unwind() {
    let interp = run("class Deep extends Error {\n\
         \x20   op init(message, n) {\n\
         \x20       super.init(message)\n\
         \x20       self.n = n\n\
         \x20   }\n\
         }\n\
         fn churn(k) {\n\
         \x20   let scratch = []\n\
         \x20   let i = 0\n\
         \x20   while i < k {\n\
         \x20       scratch.push([i])\n\
         \x20       i = i + 1\n\
         \x20   }\n\
         \x20   return len(scratch)\n\
         }\n\
         fn go(d) {\n\
         \x20   if d <= 0 {\n\
         \x20       throw Deep(\"bottom\", 42)\n\
         \x20   }\n\
         \x20   return go(d - 1)\n\
         }\n\
         churn(3000)\n\
         let got = 0\n\
         try {\n\
         \x20   go(50)\n\
         } catch e {\n\
         \x20   got = e.n\n\
         }");

    assert!(interp.heap.collections > 0, "the collector never ran");
    assert!(
        matches!(global(&interp, "got"), Some(Value::Int(42))),
        "the payload did not survive: got {:?}",
        global(&interp, "got")
    );
}

#[test]
fn an_extension_survives_collection() {
    let interp = run("extend int { fn double() { return self * 2 } }\n\
         let i = 0\n\
         while i < 2000 {\n let junk = [0]\n i = i + 1\n }\n\
         let n = 7.double()");

    assert!(interp.heap.collections > 0, "the collector never ran");
    assert!(
        matches!(global(&interp, "n"), Some(Value::Int(14))),
        "the extension did not survive: got {:?}",
        global(&interp, "n")
    );
}

#[test]
fn a_declared_method_beats_an_extension_on_an_ancestor() {
    let interp = run("class Animal { fn speak() { return \"...\" } }\n\
         class Dog extends Animal { fn name() { return \"dog\" } }\n\
         extend Animal { fn name() { return \"animal\" } }\n\
         let through_dog = Dog().name()\n\
         let through_animal = Animal().name()");

    assert_eq!(
        text(&interp, "through_dog").as_deref(),
        Some("dog"),
        "the declared method has to win"
    );

    assert_eq!(
        text(&interp, "through_animal").as_deref(),
        Some("animal"),
        "and the extension still answers for it"
    );
}

#[test]
fn a_modifier_closes_one_class_and_not_its_ancestors() {
    let interp = run("class Animal { fn speak() { return \"...\" } }\n\
         sealed class Dog extends Animal {}\n\
         class Cat extends Animal {}\n\
         extend Animal { fn legs() { return 4 } }");

    let openness = |name: &str| match global(&interp, name) {
        Some(Value::Class(id)) => interp.heap.class_openness(id),
        other => panic!("`{name}` should be a class, got {other:?}"),
    };
    assert!(openness("Dog").closes_inheritance());
    assert!(openness("Dog").closes_extension());
    for open in ["Animal", "Cat"] {
        assert!(
            !openness(open).closes_inheritance() && !openness(open).closes_extension(),
            "`{open}` should have stayed open"
        );
    }
}

#[test]
fn each_modifier_closes_only_its_own_door() {
    let interp = run("final class F {}\n\
         complete class C {}\n\
         extend F { fn tag() { return 1 } }\n\
         class Sub extends C {}");

    let openness = |name: &str| match global(&interp, name) {
        Some(Value::Class(id)) => interp.heap.class_openness(id),
        other => panic!("`{name}` should be a class, got {other:?}"),
    };
    assert!(openness("F").closes_inheritance());
    assert!(!openness("F").closes_extension(), "`final` is not `sealed`");
    assert!(openness("C").closes_extension());
    assert!(
        !openness("C").closes_inheritance(),
        "`complete` is not `sealed`"
    );
}

#[test]
fn a_captured_scope_survives_collection() {
    let interp = run("fn make() {\n\
         let n = [1, 2, 3]\n\
         fn get() { return n }\n\
         return get\n\
         }\n\
         let f = make()\n\
         let i = 0\n\
         while i < 2000 {\n let junk = [0]\n i = i + 1\n }\n\
         let survived = f()");

    assert!(interp.heap.collections > 0, "the collector never ran");
    let Some(Value::List(id)) = global(&interp, "survived") else {
        panic!("the closure did not return its captured list");
    };
    assert_eq!(interp.heap.list(id).len(), 3);
}

#[test]
fn the_iteration_snapshot_survives_the_list_it_came_from() {
    let interp = run("let items = [[1], [2], [3]]\n\
         let total = 0\n\
         for pair in items {\n\
         items[0] = 0\n\
         items[1] = 0\n\
         items[2] = 0\n\
         let i = 0\n\
         while i < 400 {\n let junk = [0]\n i = i + 1\n }\n\
         total = total + len(pair)\n\
         }");

    assert!(interp.heap.collections > 0, "the collector never ran");
    assert_eq!(global(&interp, "total"), Some(Value::Int(3)));
}

fn churn(value: &str) -> String {
    format!(
        "fn churn() {{\n\
         let i = 0\n\
         while i < 3000 {{ let junk = [0]; i = i + 1 }}\n\
         return {value}\n\
         }}\n"
    )
}

#[test]
fn a_list_element_survives_evaluating_a_later_one() {
    let interp = run(&format!(
        "fn mk() {{ return [1, 2, 3] }}\n\
         {}\
         let pair = [mk(), churn()]\n\
         let kept = len(pair[0])",
        churn("0")
    ));

    assert!(interp.heap.collections > 0, "the collector never ran");
    assert_eq!(global(&interp, "kept"), Some(Value::Int(3)));
}

#[test]
fn an_operand_survives_evaluating_the_other() {
    let interp = run(&format!(
        "fn mk() {{ return [1, 2, 3] }}\n\
         {}\
         let same = mk() == churn()",
        churn("[1, 2, 3]")
    ));

    assert!(interp.heap.collections > 0, "the collector never ran");
    assert_eq!(global(&interp, "same"), Some(Value::Bool(true)));
}

#[test]
fn the_left_operand_survives_evaluating_the_right() {
    let interp = run(&format!(
        "fn mk() {{ return [1, 2, 3] }}\n\
         {}\
         let kept = len(mk() + churn())",
        churn("[4]")
    ));

    assert!(interp.heap.collections > 0, "the collector never ran");
    assert_eq!(global(&interp, "kept"), Some(Value::Int(4)));
}

#[test]
fn a_slice_target_survives_evaluating_its_bounds() {
    let interp = run(&format!(
        "fn mk() {{ return [1, 2, 3, 4] }}\n\
         {}\
         let kept = len(mk()[1:churn()])",
        churn("3")
    ));

    assert!(interp.heap.collections > 0, "the collector never ran");
    assert_eq!(global(&interp, "kept"), Some(Value::Int(2)));
}

#[test]
fn a_bound_method_keeps_its_receiver_alive() {
    let interp = run(&format!(
        "fn mk() {{ return [1, 2, 3] }}\n\
         let m = mk().push\n\
         {}\
         let junk = churn()\n\
         m(4)",
        churn("0")
    ));

    assert!(interp.heap.collections > 0, "the collector never ran");

    let Some(Value::BoundMethod(id)) = global(&interp, "m") else {
        panic!("`m` should be a bound method");
    };
    let Value::List(list) = interp.heap.bound(id).0 else {
        panic!("the receiver should be a list");
    };
    assert_eq!(
        interp.heap.list(list).len(),
        4,
        "the push should have landed"
    );
}

#[test]
fn an_instance_survives_its_own_constructor() {
    let interp = run(&format!(
        "{}\
         class C {{\n\
         op init(n) {{\n\
         self.n = n\n\
         let junk = churn()\n\
         }}\n\
         }}\n\
         let c = C(7)\n\
         let kept = c.n",
        churn("0")
    ));

    assert!(interp.heap.collections > 0, "the collector never ran");
    assert_eq!(global(&interp, "kept"), Some(Value::Int(7)));
}

#[test]
fn a_class_survives_the_instance_that_is_all_that_names_it() {
    let interp = run(&format!(
        "fn mk() {{\n\
         class Hidden {{ fn who() {{ return 42 }} }}\n\
         return Hidden()\n\
         }}\n\
         let obj = mk()\n\
         {}\
         let junk = churn()\n\
         let kept = obj.who()\n\
         let name = type(obj)",
        churn("0")
    ));

    assert!(interp.heap.collections > 0, "the collector never ran");
    assert_eq!(global(&interp, "kept"), Some(Value::Int(42)));
    assert_eq!(text(&interp, "name").as_deref(), Some("Hidden"));
}

#[test]
fn a_parent_class_survives_the_subclass_that_names_it() {
    let interp = run(&format!(
        "fn build() {{\n\
         class Base {{ fn greet() {{ return 42 }} }}\n\
         class Sub extends Base {{}}\n\
         return Sub()\n\
         }}\n\
         let obj = build()\n\
         {}\
         let junk = churn()\n\
         let kept = obj.greet()",
        churn("0")
    ));

    assert!(interp.heap.collections > 0, "the collector never ran");
    assert_eq!(global(&interp, "kept"), Some(Value::Int(42)));
}

#[test]
fn the_scope_holding_super_survives_with_the_methods_that_close_over_it() {
    let interp = run(&format!(
        "fn build() {{\n\
         class Base {{ fn speak() {{ return 1 }} }}\n\
         class Sub extends Base {{ override fn speak() {{ return super.speak() + 1 }} }}\n\
         return Sub()\n\
         }}\n\
         let obj = build()\n\
         {}\
         let junk = churn()\n\
         let kept = obj.speak()",
        churn("0")
    ));

    assert!(interp.heap.collections > 0, "the collector never ran");
    assert_eq!(global(&interp, "kept"), Some(Value::Int(2)));
}

#[test]
fn a_field_survives_collection_with_its_instance() {
    let interp = run(&format!(
        "class Box {{ op init() {{ self.items = [1, 2, 3] }} }}\n\
         let b = Box()\n\
         {}\
         let junk = churn()\n\
         let kept = len(b.items)",
        churn("0")
    ));

    assert!(interp.heap.collections > 0, "the collector never ran");
    assert_eq!(global(&interp, "kept"), Some(Value::Int(3)));
}

#[test]
fn a_payload_survives_collection_with_its_instance() {
    let interp = run(&format!(
        "class Bag extends dict {{ op init(d) {{ super.init(d) }} }}\n\
         let b = Bag({{\"a\": 1, \"b\": 2}})\n\
         {}\
         let junk = churn()\n\
         let kept = b.keys()",
        churn("0")
    ));

    assert!(interp.heap.collections > 0, "the collector never ran");
    let Some(Value::List(id)) = global(&interp, "kept") else {
        panic!("`keys` returns a list");
    };
    assert_eq!(interp.heap.list(id).len(), 2);
}

#[test]
fn a_method_held_in_a_field_survives_evaluating_the_arguments() {
    let interp = run(&format!(
        "class Holder {{}}\n\
         fn build() {{\n\
         fn seven(n) {{ return 7 }}\n\
         let h = Holder()\n\
         h.f = seven\n\
         return h\n\
         }}\n\
         {}\
         fn clear(h) {{\n\
         h.f = nil\n\
         return churn()\n\
         }}\n\
         let h = build()\n\
         let kept = h.f(clear(h))",
        churn("0")
    ));

    assert!(interp.heap.collections > 0, "the collector never ran");
    assert_eq!(global(&interp, "kept"), Some(Value::Int(7)));
}

#[test]
fn a_receiver_survives_evaluating_the_arguments() {
    let interp = run(&format!(
        "fn mk() {{ return {{\"k\": 7}} }}\n\
         {}\
         let got = mk().remove(churn())",
        churn("\"k\"")
    ));

    assert!(interp.heap.collections > 0, "the collector never ran");
    assert_eq!(global(&interp, "got"), Some(Value::Int(7)));
}

#[test]
fn an_argument_survives_evaluating_a_later_argument() {
    let interp = run(&format!(
        "fn mk() {{ return [1, 2, 3] }}\n\
         fn first(a, b) {{ return a }}\n\
         {}\
         let kept = len(first(mk(), churn()))",
        churn("0")
    ));

    assert!(interp.heap.collections > 0, "the collector never ran");
    assert_eq!(global(&interp, "kept"), Some(Value::Int(3)));
}

#[test]
fn the_callee_survives_evaluating_the_arguments() {
    let interp = run(&format!(
        "fn make() {{ fn id(x) {{ return x }} return id }}\n\
         {}\
         let kept = make()(churn())",
        churn("7")
    ));

    assert!(interp.heap.collections > 0, "the collector never ran");
    assert_eq!(global(&interp, "kept"), Some(Value::Int(7)));
}

#[test]
fn a_dict_entry_survives_evaluating_a_later_one() {
    let interp = run(&format!(
        "fn mk() {{ return [1, 2, 3] }}\n\
         {}\
         let d = {{\"a\": mk(), \"b\": churn()}}\n\
         let kept = len(d[\"a\"])",
        churn("0")
    ));

    assert!(interp.heap.collections > 0, "the collector never ran");
    assert_eq!(global(&interp, "kept"), Some(Value::Int(3)));
}

#[test]
fn an_assigned_value_survives_evaluating_its_target() {
    let interp = run(&format!(
        "fn mk() {{ return [1, 2, 3] }}\n\
         {}\
         let xs = [0, 0]\n\
         xs[churn()] = mk()\n\
         let kept = len(xs[1])",
        churn("1")
    ));

    assert!(interp.heap.collections > 0, "the collector never ran");
    assert_eq!(global(&interp, "kept"), Some(Value::Int(3)));
}

#[test]
fn a_dict_survives_collection_with_its_contents() {
    let interp = run(&format!(
        "let d = {{\"kept\": [1, 2, 3]}}\n\
         {}\
         let ignored = churn()\n\
         let kept = len(d[\"kept\"])",
        churn("0")
    ));

    assert!(interp.heap.collections > 0, "the collector never ran");
    assert_eq!(global(&interp, "kept"), Some(Value::Int(3)));
}

#[test]
fn an_unreachable_recursive_function_is_collected() {
    let interp = run("let i = 0\nwhile i < 2000 {\n fn f() { return f }\n i = i + 1\n}");

    assert!(
        interp.heap.live() < 600,
        "heap grew to {} objects",
        interp.heap.live()
    );
}

#[test]
fn a_default_is_a_fresh_value_at_every_call() {
    let interp = run(
        "fn collect(item, into: list = []): list {\n\
         into.push(item)\n\
         return into\n\
         }\n\
         let a = collect(1)\n\
         let b = collect(2)\n",
    );
    for (name, expected) in [("a", 1), ("b", 2)] {
        let Some(Value::List(id)) = global(&interp, name) else {
            panic!("`{name}` should hold a list");
        };
        assert_eq!(interp.heap.list(id), vec![Value::Int(expected)]);
    }
}

#[test]
fn a_default_is_evaluated_in_the_declaration_scope() {
    let interp = run(
        "fn build() {\n\
         let hidden = 9\n\
         fn f(n, from = hidden) { return n + from }\n\
         return f\n\
         }\n\
         let f = build()\n\
         let hidden = 100\n\
         let answer = f(1)\n",
    );
    assert_eq!(global(&interp, "answer"), Some(Value::Int(10)));
}

#[test]
fn a_named_argument_reaches_the_parameter_it_names() {
    let interp = run(
        "fn f(a: int, b: int = 2, c: int = 3): int { return a * 100 + b * 10 + c }\n\
         let all = f(1, 2, 3)\n\
         let middle = f(1, c: 9)\n\
         let shuffled = f(c: 9, b: 8, a: 7)\n",
    );
    assert_eq!(global(&interp, "all"), Some(Value::Int(123)));
    assert_eq!(global(&interp, "middle"), Some(Value::Int(129)));
    assert_eq!(global(&interp, "shuffled"), Some(Value::Int(789)));
}

#[test]
fn a_compound_assignment_evaluates_its_target_once() {
    let mut interp = run(
        "let calls = 0\n\
         fn key(): string {\n\
         calls += 1\n\
         return \"k\"\n\
         }\n\
         let counts = {\"k\": 10}\n\
         counts[key()] += 1\n",
    );
    assert_eq!(global(&interp, "calls"), Some(Value::Int(1)));
    let Some(Value::Dict(id)) = global(&interp, "counts") else {
        panic!("`counts` should hold a dict");
    };
    assert_eq!(under(&mut interp, id, "k"), Some(Value::Int(11)));
}

#[test]
fn dispatch_prefers_an_exact_type_to_a_widened_one() {
    let interp = run(
        "fn width(n: int): string { return \"int\" }\n\
         fn width(n: float): string { return \"float\" }\n\
         let a = width(1)\n\
         let b = width(1.0)\n",
    );
    assert_eq!(text(&interp, "a").as_deref(), Some("int"));
    assert_eq!(text(&interp, "b").as_deref(), Some("float"));
}

#[test]
fn dispatch_prefers_an_exact_container_to_a_widened_one() {
    let interp = run(
        "fn pick(xs: list[int]): string { return \"ints\" }\n\
         fn pick(xs: list[any]): string { return \"anything\" }\n\
         let ints: list[int] = [1, 2]\n\
         let words: list[string] = [\"a\"]\n\
         let a = pick(ints)\n\
         let b = pick(words)\n",
    );
    assert_eq!(text(&interp, "a").as_deref(), Some("ints"));
    assert_eq!(text(&interp, "b").as_deref(), Some("anything"));

    let interp = run(
        "fn pick(xs: list[int]): string { return \"ints\" }\n\
         fn pick(xs: list): string { return \"some list\" }\n\
         let ints: list[int] = [1, 2]\n\
         let a = pick(ints)\n\
         let b = pick([\"a\"])\n",
    );
    assert_eq!(text(&interp, "a").as_deref(), Some("ints"));
    assert_eq!(text(&interp, "b").as_deref(), Some("some list"));
}

#[test]
fn an_unannotated_overload_is_tried_last() {
    let interp = run(
        "fn take(n: int): string { return \"int\" }\n\
         fn take(anything): string { return \"other\" }\n\
         let a = take(1)\n\
         let b = take(\"s\")\n",
    );
    assert_eq!(text(&interp, "a").as_deref(), Some("int"));
    assert_eq!(text(&interp, "b").as_deref(), Some("other"));
}

#[test]
fn an_override_replaces_one_signature_and_not_the_set() {
    let interp = run(
        "class Base {\n\
         fn hello(n: int): string { return \"base int\" }\n\
         fn hello(s: string): string { return \"base string\" }\n\
         }\n\
         class Kid extends Base {\n\
         override fn hello(n: int): string { return \"kid int\" }\n\
         }\n\
         let a = Kid().hello(1)\n\
         let b = Kid().hello(\"s\")\n",
    );
    assert_eq!(text(&interp, "a").as_deref(), Some("kid int"));
    assert_eq!(text(&interp, "b").as_deref(), Some("base string"));
}

#[test]
fn a_constructor_is_replaced_rather_than_overloaded_across_a_subclass() {
    let interp = run(
        "class Base {\n\
         op init(n: int) { self.n = n }\n\
         }\n\
         class Kid extends Base {\n\
         op init(n: int, m: int) { super.init(n)\n self.m = m }\n\
         }\n\
         let built = Kid(1, 2)\n",
    );
    assert!(global(&interp, "built").is_some());
    let program = compile("class Base {\n op init(n: int) { self.n = n }\n}\nclass Kid extends Base {\n op init(n: int, m: int) { super.init(n)\n self.m = m }\n}\nKid(1)\n")
        .expect("the program parses");
    let mut interp = Interp::new();
    let err = interp.run(&program).expect_err("`Kid` needs both arguments");
    assert!(err.message.contains("takes 2 arguments"), "{}", err.message);
}

#[test]
fn an_overloaded_name_is_still_one_function_value() {
    let interp = run(
        "fn f(n: int): int { return 1 }\n\
         fn f(s: string): int { return 2 }\n\
         let held = f\n\
         let kind = type(f)\n\
         let answer = held(\"s\")\n",
    );
    assert_eq!(text(&interp, "kind").as_deref(), Some("function"));
    assert_eq!(global(&interp, "answer"), Some(Value::Int(2)));
}

#[test]
fn a_class_may_declare_several_constructors() {
    let interp = run(
        "class Money {\n\
         op init() { self.cents = 0 }\n\
         op init(cents: int) { self.cents = cents }\n\
         op init(text: string) { self.cents = int(text) }\n\
         op init(whole: int, part: int) { self.cents = whole * 100 + part }\n\
         }\n\
         let a = Money().cents\n\
         let b = Money(5).cents\n\
         let c = Money(\"700\").cents\n\
         let d = Money(part: 5, whole: 2).cents\n\
         let e: Money\n\
         let f = e.cents\n\
         let coerced: Money = 12\n\
         let g = coerced.cents\n",
    );
    for (name, expected) in [("a", 0), ("b", 5), ("c", 700), ("d", 205), ("f", 0), ("g", 12)] {
        assert_eq!(
            global(&interp, name),
            Some(Value::Int(expected)),
            "`{name}` is wrong"
        );
    }
}

#[test]
fn coercion_picks_the_constructor_the_value_fits() {
    let interp = run(
        "class Money {\n\
         op init(cents: int) { self.cents = cents }\n\
         op init(text: string) { self.cents = int(text) }\n\
         }\n\
         let a: Money = 5\n\
         let b: Money = \"700\"\n\
         let x = a.cents\n\
         let y = b.cents\n",
    );
    assert_eq!(global(&interp, "x"), Some(Value::Int(5)));
    assert_eq!(global(&interp, "y"), Some(Value::Int(700)));

    let program = compile(
        "class Money {\n op init(cents: int) { self.cents = cents }\n}\nlet a: Money = 1.5\n",
    )
    .expect("the program parses");
    let mut interp = Interp::new();
    let err = interp.run(&program).expect_err("a float is not a `Money`");
    assert!(err.message.contains("`a` is `Money`"), "{}", err.message);
}

#[test]
fn an_operator_reports_against_the_expression_that_wrote_it() {
    let program = compile(
        "extend list {\n\
         op mul(factor: int): list { return self }\n\
         }\n\
         let doubled = [1, 2] * 2.4\n",
    )
    .expect("the program parses");
    let mut interp = Interp::new();
    let err = interp.run(&program).expect_err("a float is not an int");
    assert_eq!(err.message, "cannot multiply list and float");
    assert_eq!(err.labels.len(), 3, "both operands and the operator: {:?}", err.labels);
    assert!(
        err.help.iter().any(|line| line.contains("`op mul` for: (int)")),
        "the report says what the class does declare: {:?}",
        err.help
    );

    let program = compile(
        "extend list {\n\
         op mul(factor: int): list { return self }\n\
         op mul(factor: string): list { return self }\n\
         }\n\
         let doubled = [1, 2] * 2.4\n",
    )
    .expect("the program parses");
    let mut interp = Interp::new();
    let err = interp.run(&program).expect_err("a float is neither");
    assert_eq!(err.message, "cannot multiply list and float");
    assert!(
        err.help.iter().any(|line| line.contains("(int), (string)")),
        "both are listed: {:?}",
        err.help
    );

    let program = compile("let n = [1, 2] * 2.4\n").expect("the program parses");
    let mut interp = Interp::new();
    let err = interp.run(&program).expect_err("a list does not multiply");
    assert_eq!(err.message, "cannot multiply list and float");
}

#[test]
fn every_operator_that_takes_an_operand_reports_the_same_way() {
    for (source, expected) in [
        (
            "class G {\n op get(i: int) { return i }\n}\nlet x = G()[\"a\"]\n",
            "`op get` on a G does not take (string)",
        ),
        (
            "class G {\n op init() { self.n = 0 }\n op set(i: int, v: int) { self.n = v }\n}\n\
             let g = G()\ng[\"a\"] = 1\n",
            "`op set` on a G does not take (string, int)",
        ),
        (
            "class G {\n op contains(needle: int): bool { return true }\n}\n\
             let found = \"a\" in G()\n",
            "`op contains` on a G does not take (string)",
        ),
    ] {
        let program = compile(source).expect("the program parses");
        let mut interp = Interp::new();
        let err = interp.run(&program).expect_err("the operand does not fit");
        assert_eq!(err.message, expected);
    }
}

#[test]
fn a_binary_operator_reads_the_same_whether_the_class_declared_it() {
    let refused = |source: &str| {
        let program = compile(source).expect("the program parses");
        let mut interp = Interp::new();
        interp.run(&program).expect_err("the operands do not fit")
    };
    let declared = refused(
        "extend list {\n op mul(factor: int): list { return self }\n}\nlet n = [1] * 2.4\n",
    );
    let bare = refused("let n = [1] * 2.4\n");
    assert_eq!(declared.message, bare.message);
    assert_eq!(declared.labels.len(), bare.labels.len());
    assert_ne!(declared.help, bare.help);
}

#[test]
fn a_refused_value_is_underlined_and_not_the_name_it_was_written_to() {
    fn refused(source: &str) -> (String, &str) {
        let program = compile(source).expect("the program parses");
        let mut interp = Interp::new();
        let err = interp.run(&program).expect_err("the value does not hold");
        (err.message.clone(), &source[err.span.start..err.span.end])
    }

    for (source, message, underlined) in [
        (
            "let xs: list[int] = []\nxs = [\"hello\", \"world\"]\n",
            "item 0 is `int`, but this is a string",
            "\"hello\"",
        ),
        (
            "fn probe() {\n let xs: list[int] = []\n xs = [1, \"two\"]\n}\nprobe()\n",
            "item 1 is `int`, but this is a string",
            "\"two\"",
        ),
        (
            "let n: int = 1\nn = \"s\"\n",
            "`n` is `int`, but this is a string",
            "\"s\"",
        ),
        (
            "let d: dict[string, int] = {}\nd[\"k\"] = \"v\"\n",
            "the value is `int`, but this is a string",
            "\"v\"",
        ),
        (
            "let d: dict[string, int] = {}\nd[1] = 2\n",
            "the key is `string`, but this is an int",
            "1",
        ),
        (
            "let xs: list[int] = [0]\nxs[0] = \"a\"\n",
            "the item is `int`, but this is a string",
            "\"a\"",
        ),
        ("let n: int = 1\nn += 1.5\n", "`n` is `int`, but this is a float", "n += 1.5"),
    ] {
        assert_eq!(refused(source), (message.to_string(), underlined), "for {source:?}");
    }
}

#[test]
fn a_nested_annotation_is_refused_at_the_depth_it_disagrees() {
    let source = "let xs: list[list[int]] = []\nxs = [[1], [\"a\"]]\n";
    let program = compile(source).expect("the program parses");
    let mut interp = Interp::new();
    let err = interp.run(&program).expect_err("the nested element does not hold");
    assert_eq!(err.message, "item 0 is `int`, but this is a string");
    assert_eq!(&source[err.span.start..err.span.end], "\"a\"");
}

#[test]
fn a_declaration_still_points_at_the_annotation_that_refused_the_value() {
    let refused = |source: &str| {
        let program = compile(source).expect("the program parses");
        let mut interp = Interp::new();
        interp.run(&program).expect_err("the value does not hold")
    };
    let declaration = refused("let xs: list[int] = [\"a\"]\n");
    assert_eq!(declaration.labels.len(), 2, "{:?}", declaration.labels);

    let write = refused("let xs: list[int] = []\nxs = [\"a\"]\n");
    assert_eq!(write.message, declaration.message);
    assert!(write.labels.is_empty(), "{:?}", write.labels);
}

#[test]
fn a_described_container_is_what_its_annotation_said() {
    let interp = run(
        "fn ints(xs: list[int]): string { return \"ints\" }\n\
         let empty: list[int] = []\n\
         let a = ints(empty)\n",
    );
    assert_eq!(text(&interp, "a").as_deref(), Some("ints"));

    for (source, expected) in [
        (
            "fn strings(xs: list[string]): int { return 0 }\n\
             let empty: list[int] = []\nlet n = strings(empty)\n",
            "`xs` is `list[string]`, but this is `list[int]`",
        ),
        (
            "fn strict(xs: list[int]): int { return 0 }\n\
             let loose: list[int?] = []\nlet n = strict(loose)\n",
            "`xs` is `list[int]`, but this is `list[int?]`",
        ),
        (
            "fn flags(d: dict[string, bool]): int { return 0 }\n\
             let scores: dict[string, int] = {}\nlet n = flags(scores)\n",
            "`d` is `dict[string, bool]`, but this is `dict[string, int]`",
        ),
    ] {
        let program = compile(source).expect("the program parses");
        let mut interp = Interp::new();
        let err = interp.run(&program).expect_err("the header says otherwise");
        assert_eq!(err.message, expected);
    }
}

#[test]
fn the_top_type_still_takes_any_container() {
    let interp = run(
        "fn anything(xs: list[any]): int { return len(xs) }\n\
         fn bare(xs: list): int { return len(xs) }\n\
         let ints: list[int] = [1, 2]\n\
         let a = anything(ints)\n\
         let b = bare(ints)\n",
    );
    assert_eq!(global(&interp, "a"), Some(Value::Int(2)));
    assert_eq!(global(&interp, "b"), Some(Value::Int(2)));

    let program = compile(
        "fn grow(xs: list[any]) { xs.push(\"s\") }\n\
         let ints: list[int] = [1, 2]\ngrow(ints)\n",
    )
    .expect("the program parses");
    let mut interp = Interp::new();
    let err = interp.run(&program).expect_err("the header guards the write");
    assert!(err.message.contains("the item is `int`"), "{}", err.message);
}

#[test]
fn is_reads_an_elided_argument_as_the_any_it_stands_for() {
    let prelude = "let ints: list[int] = [1, 2]\n\
                   let maybe: list[int?] = [1, nil]\n\
                   let table: dict[string, int] = {\"a\": 1}\n\
                   let keyed: dict[string] = {\"a\": 1}\n";
    for (test, expected) in [
        ("ints is list", true),
        ("ints is list[any?]", true),
        ("maybe is list", true),
        ("maybe is list[any?]", true),
        ("ints is list[any]", true),
        ("maybe is list[any]", false),
        ("ints is list[int]", true),
        ("ints is list[int?]", false),
        ("ints is list[string]", false),
        ("table is dict", true),
        ("table is dict[string]", true),
        ("table is dict[string, any]", true),
        ("keyed is dict[string]", true),
        ("keyed is dict[string, int]", false),
        ("keyed is dict[string, any]", false),
        ("[1, 2] is list", true),
        ("[1, 2] is list[any?]", true),
        ("[1, 2] is list[int]", false),
        ("1 is float", false),
    ] {
        let interp = run(&format!("{prelude}let answer = {test}\n"));
        assert_eq!(
            global(&interp, "answer"),
            Some(Value::Bool(expected)),
            "for `{test}`"
        );
    }
}

#[test]
fn an_unstamped_container_is_whatever_an_annotation_decides_it_is() {
    let interp = run(
        "let raw = [1, 2]\n\
         let before = raw is list[int]\n\
         let ints: list[int] = raw\n\
         let after = raw is list[int]\n",
    );
    assert_eq!(global(&interp, "before"), Some(Value::Bool(false)));
    assert_eq!(global(&interp, "after"), Some(Value::Bool(true)));
}

#[test]
fn a_shorthand_header_is_a_claim_that_the_rest_is_unconstrained() {
    let program = compile(
        "fn takes(d: dict[string, int]) { d[\"x\"] = \"not an int\" }\n\
         let loose: dict[string] = {\"a\": 1}\ntakes(loose)\n",
    )
    .expect("the program parses");
    let mut interp = Interp::new();
    let err = interp
        .run(&program)
        .expect_err("the shorthand is not a `dict[string, int]`");
    assert_eq!(
        err.message,
        "`d` is `dict[string, int]`, but this is `dict[string]`"
    );

    let interp = run(
        "fn keyed(d: dict[string]): int { return len(d) }\n\
         let scores: dict[string, int] = {\"a\": 1}\n\
         let n = keyed(scores)\n",
    );
    assert_eq!(global(&interp, "n"), Some(Value::Int(1)));
}

#[test]
fn two_declarations_that_only_an_empty_container_confuses() {
    let interp = run(
        "fn total(xs: list[int]): string { return \"ints\" }\n\
         fn total(xs: list[string]): string { return \"strings\" }\n\
         let a = total([1, 2])\n\
         let b = total([\"x\"])\n\
         let described: list[string] = []\n\
         let c = total(described)\n",
    );
    assert_eq!(text(&interp, "a").as_deref(), Some("ints"));
    assert_eq!(text(&interp, "b").as_deref(), Some("strings"));
    assert_eq!(text(&interp, "c").as_deref(), Some("strings"));

    let program = compile(
        "fn total(xs: list[int]): string { return \"ints\" }\n\
         fn total(xs: list[string]): string { return \"strings\" }\n\
         let a = total([])\n",
    )
    .expect("the program parses");
    let mut interp = Interp::new();
    let err = interp.run(&program).expect_err("nothing says which");
    assert_eq!(err.message, "more than one `total` takes (list)");
}

#[test]
fn a_type_parameter_is_checked_against_what_the_instance_was_built_with() {
    let interp = run(
        "class Box[T] {\n\
         \x20   public let value: T? = nil\n\
         \x20   public fn set(v: T) { self.value = v }\n\
         }\n\
         let b = Box[int]()\n\
         b.set(7)\n\
         let held = b.value\n",
    );
    assert_eq!(global(&interp, "held"), Some(Value::Int(7)));

    let program = compile(
        "class Box[T] {\n\
         \x20   public let value: T? = nil\n\
         \x20   public fn set(v: T) { self.value = v }\n\
         }\n\
         let b = Box[int]()\n\
         b.set(\"no\")\n",
    )
    .expect("the program parses");
    let mut interp = Interp::new();
    let err = interp.run(&program).expect_err("`T` is `int` on this one");
    assert_eq!(err.message, "`v` is `int`, but this is a string");
}

#[test]
fn each_instance_carries_its_own_arguments() {
    let interp = run(
        "class Box[T] {\n\
         \x20   public let value: T? = nil\n\
         \x20   public fn set(v: T) { self.value = v }\n\
         }\n\
         let ints = Box[int]()\n\
         let words = Box[string]()\n\
         ints.set(1)\n\
         words.set(\"a\")\n\
         let a = ints is Box[int]\n\
         let b = ints is Box[string]\n\
         let c = words is Box[string]\n",
    );
    assert_eq!(global(&interp, "a"), Some(Value::Bool(true)));
    assert_eq!(global(&interp, "b"), Some(Value::Bool(false)));
    assert_eq!(global(&interp, "c"), Some(Value::Bool(true)));
}

#[test]
fn an_unsupplied_parameter_is_unconstrained_rather_than_absent() {
    let interp = run(
        "class Box[T] {\n\
         \x20   public let value: T? = nil\n\
         \x20   public fn set(v: T) { self.value = v }\n\
         }\n\
         let loose = Box()\n\
         loose.set(1)\n\
         loose.set(\"a\")\n\
         let held = loose.value\n",
    );
    assert_eq!(text(&interp, "held").as_deref(), Some("a"));
}

#[test]
fn a_parameter_reaches_inside_a_container_annotation() {
    let program = compile(
        "class Stack[T] {\n\
         \x20   private let items: list[T] = []\n\
         \x20   public fn sneak() { self.items.push(\"s\") }\n\
         }\n\
         let s = Stack[int]()\n\
         s.sneak()\n",
    )
    .expect("the program parses");
    let mut interp = Interp::new();
    let err = interp.run(&program).expect_err("the field holds ints");
    assert!(err.message.contains("`int`"), "{}", err.message);
}

#[test]
fn a_nested_construction_does_not_inherit_the_outer_header() {
    let interp = run(
        "class Box[T] { public op init() {} }\n\
         class Holder[T] {\n\
         \x20   public let held: any? = nil\n\
         \x20   public op init(held: any) { self.held = held }\n\
         }\n\
         let h = Holder[int](Box[string]())\n\
         let inner = h.held\n\
         let a = inner is Box[string]\n\
         let b = inner is Box[int]\n",
    );
    assert_eq!(global(&interp, "a"), Some(Value::Bool(true)));
    assert_eq!(global(&interp, "b"), Some(Value::Bool(false)));
}

#[test]
fn brackets_before_a_call_are_a_subscript_when_the_target_is_not_a_class() {
    let interp = run(
        "fn one(): int { return 1 }\n\
         let fns = [one]\n\
         let n = fns[0]()\n",
    );
    assert_eq!(global(&interp, "n"), Some(Value::Int(1)));
}

#[test]
fn an_annotation_binds_the_parameters_of_the_construction_beside_it() {
    let program = compile(
        "class Stack[T] {\n\
         \x20   private let items: list[T] = []\n\
         \x20   public fn push(item: T) { self.items.push(item) }\n\
         }\n\
         let s: Stack[int] = Stack()\n\
         s.push(\"no\")\n",
    )
    .expect("the program parses");
    let mut interp = Interp::new();
    let err = interp.run(&program).expect_err("`T` came from the annotation");
    assert_eq!(err.message, "`item` is `int`, but this is a string");

    let interp = run(
        "class Stack[T] { public op init() {} }\n\
         let s: Stack[int] = Stack()\n\
         let a = s is Stack[int]\n\
         let b = s is Stack[string]\n",
    );
    assert_eq!(global(&interp, "a"), Some(Value::Bool(true)));
    assert_eq!(global(&interp, "b"), Some(Value::Bool(false)));
}

#[test]
fn a_written_argument_list_wins_over_the_annotation() {
    let program = compile(
        "class Stack[T] { public op init() {} }\n\
         let s: Stack[int] = Stack[string]()\n",
    )
    .expect("the program parses");
    let mut interp = Interp::new();
    let err = interp.run(&program).expect_err("the two disagree");
    assert_eq!(err.message, "`s` is `Stack[int]`, but this is `Stack[string]`");
}

#[test]
fn inference_does_not_reach_through_an_unrelated_call() {
    let interp = run(
        "class Stack[T] { public op init() {} }\n\
         fn wrap(s): any { return s }\n\
         let loose: any = wrap(Stack())\n\
         let a = loose is Stack[int]\n\
         let b = loose is Stack[string]\n",
    );
    assert_eq!(global(&interp, "a"), Some(Value::Bool(false)));
    assert_eq!(global(&interp, "b"), Some(Value::Bool(false)));

    for source in [
        "class Stack[T] { public op init() {} }\n\
         let told: Stack[int] = Stack()\n",
        "class Stack[T] { public op init() {} }\n\
         fn make(): Stack[int] { return Stack() }\n\
         let told = make()\n",
    ] {
        let interp = run(&format!(
            "{source}let a = told is Stack[int]\nlet b = told is Stack[string]\n"
        ));
        assert_eq!(global(&interp, "a"), Some(Value::Bool(true)), "{source}");
        assert_eq!(global(&interp, "b"), Some(Value::Bool(false)), "{source}");
    }
}

#[test]
fn io_reads_back_what_it_wrote() {
    let quoted = "notes/quince-io-roundtrip.txt";
    let interp = run(&format!(
        "import io\n\
         let path = \"{quoted}\"\n\
         let missing = io.exists(path)\n\
         io.write(path, \"alpha\\nbeta\\n\")\n\
         let there = io.exists(path)\n\
         let whole = io.read(path)\n\
         io.append(path, \"gamma\\n\")\n\
         let lines = io.lines(path)\n\
         let count = len(lines)\n\
         let last = lines[2]"
    ));

    assert_eq!(global(&interp, "missing"), Some(Value::Bool(false)));
    assert_eq!(global(&interp, "there"), Some(Value::Bool(true)));
    assert_eq!(text(&interp, "whole").as_deref(), Some("alpha\nbeta\n"));
    assert_eq!(global(&interp, "count"), Some(Value::Int(3)));
    assert_eq!(text(&interp, "last").as_deref(), Some("gamma"));
    assert_eq!(interp.files[0].text, "alpha\nbeta\ngamma\n");
}

#[test]
fn reading_a_file_that_is_not_there_is_catchable() {
    let quoted = "notes/quince-does-not-exist-9f3c.txt";
    let interp = run(&format!(
        "import io\n\
         let caught = nil\n\
         try {{\n\
         \x20   io.read(\"{quoted}\")\n\
         }} catch e {{\n\
         \x20   caught = type(e)\n\
         }}"
    ));
    assert_eq!(text(&interp, "caught").as_deref(), Some("IoError"));
}
