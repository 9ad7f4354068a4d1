use quince::interp::show::Ask;
use quince::interp::state::Interp;
use quince::runtime::object::{Entry, Object};
use quince::runtime::value::Value;

fn string(interp: &mut Interp, text: &str) -> Value {
    interp.new_text(text.to_string())
}

/// Values covering every arm, including nesting, for comparing the two renderers
/// against each other.
fn every_shape(interp: &mut Interp) -> Vec<Value> {
    let two = string(interp, "two");
    let inner = interp.new_list(vec![Value::Int(1), two]);
    let nested = interp.new_list(vec![inner, Value::Nil]);
    let key = string(interp, "k");
    let dict = Value::Dict(interp.heap.add_object(Object::Dict(vec![Entry { key, value: inner }])));
    vec![
        Value::Nil,
        Value::Bool(true),
        Value::Bool(false),
        Value::Int(0),
        Value::Int(-7),
        Value::Float(f64::to_bits(1.0)),
        Value::Float(f64::to_bits(1.5)),
        string(interp, ""),
        string(interp, "hi"),
        string(interp, "with \"quotes\""),
        inner,
        nested,
        dict,
        interp.new_list(Vec::new()),
    ]
}

/// The renderer error messages use has to agree with the one that can ask a class.
#[test]
fn the_base_renderer_agrees_with_this_one() {
    let mut interp = Interp::new();
    for value in every_shape(&mut interp) {
        let base = value.display_base(&interp.heap);
        let real = interp
            .display(&value, Ask::Class)
            .expect("no class is involved");
        assert_eq!(base, real, "display disagrees for {value:?}");
        let asked_nothing = interp.display(&value, Ask::Nothing).expect("nothing is asked");
        assert_eq!(base, asked_nothing, "display disagrees for {value:?}");

        let base = value.repr_base(&interp.heap);
        let real = interp
            .repr_styled(&value, false, Ask::Class)
            .expect("no class is involved");
        assert_eq!(base, real, "repr disagrees for {value:?}");
    }
}

#[test]
fn short_character_lists_print_on_single_line() {
    let mut interp = Interp::new();
    let items: Vec<Value> = "marc@gmail.com"
        .chars()
        .map(|c| string(&mut interp, c.to_string().as_str()))
        .collect();
    let list = interp.new_list(items);

    let printed = interp
        .display_pretty(&list, false, Ask::Class)
        .expect("no class");
    assert_eq!(
        printed,
        r#"["m", "a", "r", "c", "@", "g", "m", "a", "i", "l", ".", "c", "o", "m"]"#
    );
}

#[test]
fn a_class_with_text_of_its_own_is_shown_by_it() {
    let program = quince::compile(
        "class Bag extends list {\n op init(xs) { super.init(xs) }\n op string() { return \"a\\nb\" }\n}\nlet bag = Bag([1])",
    )
    .unwrap();
    let mut interp = Interp::new();
    interp.run(&program).unwrap();
    let (_, bag) = interp.get_globals().into_iter().find(|(name, _)| name == "bag").unwrap();
    assert_eq!(interp.display_pretty(&bag, false, Ask::Class).unwrap(), "a\nb");
}

#[test]
fn a_filled_line_is_no_wider_than_it_may_be() {
    let mut interp = Interp::new();
    for width in 1..12 {
        let items: Vec<Value> = (0..60).map(|_| Value::Int(10_i64.pow(width - 1))).collect();
        let list = interp.new_list(items);
        let text = interp.display_pretty(&list, false, Ask::Nothing).unwrap();
        for line in text.lines() {
            assert!(line.len() <= 80, "{line:?}");
        }
    }
}
