use decafc::semantic_analyzer::callout::CalloutArgType;
use decafc::semantic_analyzer::ir::{Callout, CalloutArg, Expr0, ExprType, Literal, Type};

fn number(v: i32) -> CalloutArg {
    CalloutArg::Expr(Box::new(Expr0 { type_: Type::Int, expr: ExprType::Literal(Literal::Int(v)) }))
}

fn truth(v: bool) -> CalloutArg {
    CalloutArg::Expr(Box::new(Expr0 {
        type_: Type::Bool,
        expr: ExprType::Literal(Literal::Boolean(v)),
    }))
}

fn text(s: &str) -> CalloutArg {
    CalloutArg::StringLiteral(String::from(s))
}

fn callout(name: &str, args: Vec<CalloutArg>) -> Callout {
    Callout { name: String::from(name), args }
}

#[test]
fn kinds_of_arguments() {
    let c = callout("printf", vec![text("%d %d"), number(1), truth(true), number(2)]);
    assert_eq!(
        c.get_args_types(),
        vec![
            CalloutArgType::String,
            CalloutArgType::Int,
            CalloutArgType::Bool,
            CalloutArgType::Int
        ]
    );
    assert!(callout("exit", vec![]).get_args_types().is_empty());
}

#[test]
fn same_routine_and_kinds_are_equal() {
    let a = callout("printf", vec![text("%d"), number(1)]);
    let b = callout("printf", vec![text("other text"), number(42)]);
    assert!(a == b);
    assert!(b == a);
    assert!(callout("f", vec![]) == callout("f", vec![]));
}

#[test]
fn other_routine_or_kinds_differ() {
    let a = callout("printf", vec![text("%d"), number(1)]);
    assert!(a != callout("puts", vec![text("%d"), number(1)]));
    assert!(a != callout("printf", vec![text("%d"), truth(true)]));
    assert!(a != callout("printf", vec![number(1), text("%d")]));
    assert!(a != callout("printf", vec![text("%d")]));
    assert!(a != callout("printf", vec![text("%d"), number(1), number(2)]));
}
