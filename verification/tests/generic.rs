use quince::interp::generic::substitute;
use quince::interp::state::Binding;
use quince::syntax::ast::{TypeExpr, TypeName};
use quince::syntax::token::Span;

fn named(name: &str) -> TypeExpr {
    TypeExpr {
        applied: false,
        name: TypeName::Named(name.to_string()),
        args: Vec::new(),
        nullable: false,
        frozen: false,
        span: Span::new(3, 4),
    }
}

fn generic(name: &str, args: Vec<TypeExpr>) -> TypeExpr {
    TypeExpr {
        applied: !args.is_empty(),
        args,
        ..named(name)
    }
}

#[test]
fn a_bare_parameter_becomes_its_argument() {
    let bindings = vec![Binding { name: "T".to_string(), ty: named("int") }];
    assert_eq!(substitute(&named("T"), &bindings).written(), "int");
}

#[test]
fn a_parameter_nested_in_a_container_is_reached() {
    let bindings = vec![Binding { name: "T".to_string(), ty: named("int") }];
    let ty = generic("list", vec![named("T")]);
    assert_eq!(substitute(&ty, &bindings).written(), "list[int]");
}

#[test]
fn substitution_keeps_the_span_of_the_use() {
    let bindings = vec![Binding {
        name: "T".to_string(),
        ty: TypeExpr {
            span: Span::new(99, 100),
            ..named("int")
        },
    }];
    assert_eq!(substitute(&named("T"), &bindings).span, Span::new(3, 4));
}

#[test]
fn the_question_mark_belongs_to_the_use() {
    let bindings = vec![Binding { name: "T".to_string(), ty: named("int") }];
    let optional = TypeExpr {
        nullable: true,
        ..named("T")
    };
    assert!(substitute(&optional, &bindings).admits_nil());
    assert!(!substitute(&named("T"), &bindings).admits_nil());
}

#[test]
fn an_argument_that_is_itself_generic_substitutes_whole() {
    let bindings = vec![Binding { name: "T".to_string(), ty: generic("list", vec![named("int")]) }];
    let ty = generic("dict", vec![named("string"), named("T")]);
    assert_eq!(
        substitute(&ty, &bindings).written(),
        "dict[string, list[int]]"
    );
}

#[test]
fn a_name_no_parameter_claims_is_left_alone() {
    let bindings = vec![Binding { name: "T".to_string(), ty: named("int") }];
    assert_eq!(substitute(&named("Point"), &bindings).written(), "Point");
    assert_eq!(substitute(&named("Total"), &bindings).written(), "Total");
}
