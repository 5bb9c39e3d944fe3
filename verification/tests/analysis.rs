use decafc::semantic_analyzer::ir;
use decafc::semantic_analyzer::passes::pre_ir_check::{has_main, is_array_size_positive};
use decafc::semantic_analyzer::passes::SemanticCheckError;
use decafc::semantic_analyzer::SemanticAnalyzer;
use decafc::ssagen::llir::generate_llir;
use decafc::ssagen::llir::inst::Inst;
use decafc::token::{
    ArithOp, Assign, AssignOp, Binary, BinaryOp, Block, BoolLiteral, Callout, CalloutArg, CompareOp,
    CondOp, EqOp, Expr, Expr0, FieldDecl, FieldDecl0, IfElse, Literal, Location, Loop, Method,
    MethodArg, MethodCall, MethodDecl, Program, Return, Statement, Type, Unary, UnaryOp, VarDecl,
};

fn num(v: i32) -> Expr {
    Box::new(Expr0::Literal(Literal::Int(v)))
}

fn boolean(v: bool) -> Expr {
    Box::new(Expr0::Literal(Literal::Bool(if v { BoolLiteral::True } else { BoolLiteral::False })))
}

fn character(c: char) -> Expr {
    Box::new(Expr0::Literal(Literal::Char(c)))
}

fn loc(name: &str) -> Location {
    Location { name: String::from(name), arr_size: None }
}

fn elem(name: &str, index: Expr) -> Location {
    Location { name: String::from(name), arr_size: Some(index) }
}

fn var(name: &str) -> Expr {
    Box::new(Expr0::Location(loc(name)))
}

fn at(name: &str, index: Expr) -> Expr {
    Box::new(Expr0::Location(elem(name, index)))
}

fn binary(op: BinaryOp, lhs: Expr, rhs: Expr) -> Expr {
    Box::new(Expr0::Binary(Binary { lhs, rhs, op }))
}

fn plus(lhs: Expr, rhs: Expr) -> Expr {
    binary(BinaryOp::Arith(ArithOp::Add), lhs, rhs)
}

fn minus(lhs: Expr, rhs: Expr) -> Expr {
    binary(BinaryOp::Arith(ArithOp::Sub), lhs, rhs)
}

fn times(lhs: Expr, rhs: Expr) -> Expr {
    binary(BinaryOp::Arith(ArithOp::Mul), lhs, rhs)
}

fn less(lhs: Expr, rhs: Expr) -> Expr {
    binary(BinaryOp::Compare(CompareOp::LT), lhs, rhs)
}

fn neg(e: Expr) -> Expr {
    Box::new(Expr0::Unary(Unary { expr: e, op: UnaryOp::NegInt }))
}

fn not(e: Expr) -> Expr {
    Box::new(Expr0::Unary(Unary { expr: e, op: UnaryOp::NegBool }))
}

fn call(name: &str, args: Vec<Expr>) -> MethodCall {
    MethodCall::Method(Method { name: String::from(name), args })
}

fn call_expr(name: &str, args: Vec<Expr>) -> Expr {
    Box::new(Expr0::MethodCall(call(name, args)))
}

fn callout(name: &str, args: Vec<CalloutArg>) -> MethodCall {
    MethodCall::Callout(Callout { name: String::from(name), args })
}

fn text(s: &str) -> CalloutArg {
    CalloutArg::StringLiteral(String::from(s))
}

fn assign(dst: Location, val: Expr) -> Statement {
    Statement::Assign(Assign { dst, op: AssignOp::Assign, val })
}

fn assign_with(op: AssignOp, dst: Location, val: Expr) -> Statement {
    Statement::Assign(Assign { dst, op, val })
}

fn ret(val: Option<Expr>) -> Statement {
    Statement::Return(Return { val })
}

fn if_else(cond: Expr, true_block: Block, false_block: Option<Block>) -> Statement {
    Statement::IfElse(IfElse { cond, true_block, false_block })
}

fn for_loop(index: &str, start: Expr, end: Expr, block: Block) -> Statement {
    Statement::Loop(Loop { index_var: String::from(index), start, end, block })
}

fn decl(type_: Type, names: &[&str]) -> VarDecl {
    VarDecl { type_, identifiers: names.iter().map(|n| String::from(*n)).collect() }
}

fn block(var_decls: Vec<VarDecl>, statements: Vec<Statement>) -> Block {
    Block { var_decls, statements }
}

fn stmts(statements: Vec<Statement>) -> Block {
    block(vec![], statements)
}

fn field(type_: Type, name: &str, arr_size: Option<i32>) -> FieldDecl {
    FieldDecl { type_, loc: vec![FieldDecl0 { name: String::from(name), arr_size }] }
}

fn arg(type_: Type, name: &str) -> MethodArg {
    MethodArg { type_, name: String::from(name) }
}

fn method(return_type: Type, name: &str, args: Vec<MethodArg>, block: Block) -> MethodDecl {
    MethodDecl { return_type, name: String::from(name), args, block }
}

fn main_with(block: Block) -> MethodDecl {
    method(Type::Void, "main", vec![], block)
}

fn program(field_decls: Vec<FieldDecl>, method_decls: Vec<MethodDecl>) -> Program {
    Program { field_decls, method_decls }
}

fn analyse(p: Program) -> Result<ir::IRRoot, Vec<SemanticCheckError>> {
    SemanticAnalyzer::new().create_ir(p)
}

fn errors_of(p: Program) -> Vec<String> {
    analyse(p).unwrap_err().iter().map(|e| format!("{:?}", e)).collect()
}

fn body_of(root: &ir::IRRoot, i: usize) -> &ir::Block {
    root.method_decls[root.root.method_decls[i].id].block.as_ref().unwrap()
}

/// The quicksort program that the compiler ships as its example.
fn quicksort() -> Program {
    let partition = method(
        Type::Int,
        "partition",
        vec![arg(Type::Int, "p"), arg(Type::Int, "r")],
        block(
            vec![decl(Type::Int, &["x", "i", "j", "t"]), decl(Type::Int, &["z"])],
            vec![
                assign(loc("x"), at("A", var("p"))),
                assign(loc("i"), minus(var("p"), num(1))),
                assign(loc("j"), plus(var("r"), num(1))),
                for_loop(
                    "z",
                    num(0),
                    times(var("length"), var("length")),
                    stmts(vec![
                        assign(loc("j"), minus(var("j"), num(1))),
                        for_loop(
                            "a",
                            num(0),
                            var("length"),
                            stmts(vec![
                                if_else(
                                    binary(
                                        BinaryOp::Compare(CompareOp::LE),
                                        at("A", var("j")),
                                        var("x"),
                                    ),
                                    stmts(vec![Statement::Break]),
                                    None,
                                ),
                                assign(loc("j"), minus(var("j"), num(1))),
                            ]),
                        ),
                        for_loop(
                            "a",
                            plus(var("i"), num(1)),
                            var("length"),
                            stmts(vec![if_else(
                                binary(
                                    BinaryOp::Compare(CompareOp::GE),
                                    at("A", var("a")),
                                    var("x"),
                                ),
                                stmts(vec![assign(loc("i"), var("a")), Statement::Break]),
                                None,
                            )]),
                        ),
                        if_else(
                            less(var("i"), var("j")),
                            stmts(vec![
                                assign(loc("t"), at("A", var("i"))),
                                assign(elem("A", var("i")), at("A", var("j"))),
                                assign(elem("A", var("j")), var("t")),
                            ]),
                            Some(stmts(vec![ret(Some(var("j")))])),
                        ),
                    ]),
                ),
                ret(Some(neg(num(1)))),
            ],
        ),
    );
    let sort = method(
        Type::Void,
        "quicksort",
        vec![arg(Type::Int, "p"), arg(Type::Int, "r")],
        block(
            vec![decl(Type::Int, &["q"])],
            vec![if_else(
                less(var("p"), var("r")),
                stmts(vec![
                    assign(loc("q"), call_expr("partition", vec![var("p"), var("r")])),
                    Statement::MethodCall(call("quicksort", vec![var("p"), var("q")])),
                    Statement::MethodCall(call(
                        "quicksort",
                        vec![plus(var("q"), num(1)), var("r")],
                    )),
                ]),
                None,
            )],
        ),
    );
    let main = main_with(block(
        vec![decl(Type::Int, &["temp"])],
        vec![
            assign(loc("length"), num(10)),
            Statement::MethodCall(callout(
                "printf",
                vec![
                    text("creating random array of %d elements\n"),
                    CalloutArg::Expr(var("length")),
                ],
            )),
            Statement::MethodCall(callout("srandom", vec![CalloutArg::Expr(num(17))])),
            for_loop(
                "i",
                num(0),
                var("length"),
                stmts(vec![
                    assign(
                        loc("temp"),
                        Box::new(Expr0::MethodCall(callout("random", vec![]))),
                    ),
                    assign(elem("A", var("i")), var("temp")),
                ]),
            ),
            Statement::MethodCall(callout("printf", vec![text("\nbefore sort:\n")])),
            for_loop(
                "i",
                num(0),
                var("length"),
                stmts(vec![Statement::MethodCall(callout(
                    "printf",
                    vec![text("%d\n"), CalloutArg::Expr(at("A", var("i")))],
                ))]),
            ),
            Statement::MethodCall(call("quicksort", vec![num(0), minus(var("length"), num(1))])),
            Statement::MethodCall(callout("printf", vec![text("\nafter sort\n")])),
            for_loop(
                "i",
                num(0),
                var("length"),
                stmts(vec![Statement::MethodCall(callout(
                    "printf",
                    vec![text("%d\n"), CalloutArg::Expr(at("A", var("i")))],
                ))]),
            ),
        ],
    ));
    program(
        vec![field(Type::Int, "A", Some(100)), field(Type::Int, "length", None)],
        vec![partition, sort, main],
    )
}

#[test]
fn empty_main_builds() {
    let root = analyse(program(vec![], vec![main_with(stmts(vec![]))])).unwrap();
    assert_eq!(root.root.method_decls.len(), 1);
    assert!(root.root.field_decls.is_empty());
    let m = &root.method_decls[root.root.method_decls[0].id];
    assert_eq!(m.name, "main");
    assert_eq!(m.return_type, ir::Type::Void);
    assert!(m.args.is_empty());
    let body = m.block.as_ref().unwrap();
    assert!(body.var_decls.is_empty());
    assert!(body.statements.is_empty());
}

#[test]
fn missing_main_is_reported() {
    let p = program(vec![], vec![method(Type::Void, "foo", vec![], stmts(vec![]))]);
    assert_eq!(errors_of(p), vec!["NoMainMethod"]);
}

#[test]
fn main_with_arguments_does_not_count() {
    let p = program(vec![], vec![method(Type::Void, "main", vec![arg(Type::Int, "n")], stmts(vec![]))]);
    assert!(matches!(has_main(&p), Err(SemanticCheckError::NoMainMethod)));
    assert_eq!(errors_of(p), vec!["NoMainMethod"]);
}

#[test]
fn two_mains_are_no_main() {
    let p = program(vec![], vec![main_with(stmts(vec![])), main_with(stmts(vec![]))]);
    assert!(has_main(&p).is_err());
    assert_eq!(errors_of(p), vec!["NoMainMethod"]);
}

#[test]
fn one_main_among_others_is_found() {
    let p = program(
        vec![],
        vec![method(Type::Void, "foo", vec![], stmts(vec![])), main_with(stmts(vec![]))],
    );
    assert!(has_main(&p).is_ok());
}

#[test]
fn zero_array_size_is_reported() {
    let p = program(vec![field(Type::Int, "a", Some(0))], vec![main_with(stmts(vec![]))]);
    assert!(matches!(is_array_size_positive(&p), Err(SemanticCheckError::NonPositiveArraySize)));
    assert_eq!(errors_of(p), vec!["NonPositiveArraySize"]);
}

#[test]
fn negative_array_size_is_reported() {
    let p = program(
        vec![field(Type::Int, "ok", Some(1)), field(Type::Bool, "a", Some(-3))],
        vec![main_with(stmts(vec![]))],
    );
    assert_eq!(errors_of(p), vec!["NonPositiveArraySize"]);
}

#[test]
fn positive_sizes_and_scalars_pass() {
    let p = program(
        vec![field(Type::Int, "a", Some(1)), field(Type::Int, "b", None)],
        vec![main_with(stmts(vec![]))],
    );
    assert!(is_array_size_positive(&p).is_ok());
    assert!(analyse(p).is_ok());
}

#[test]
fn both_checks_before_typing_report() {
    let p = program(
        vec![field(Type::Int, "a", Some(0))],
        vec![method(Type::Void, "foo", vec![], stmts(vec![assign(loc("x"), num(1))]))],
    );
    assert_eq!(errors_of(p), vec!["NoMainMethod", "NonPositiveArraySize"]);
}

#[test]
fn unknown_variable_is_reported() {
    let p = program(vec![], vec![main_with(stmts(vec![assign(loc("x"), num(1))]))]);
    assert_eq!(errors_of(p), vec!["UnknownSymbol(\"x\")"]);
}

#[test]
fn duplicated_field_is_reported() {
    let p = program(
        vec![field(Type::Int, "a", None), field(Type::Int, "a", None)],
        vec![main_with(stmts(vec![]))],
    );
    assert_eq!(errors_of(p), vec!["DuplicatedSymbol(\"a\")"]);
}

#[test]
fn duplicated_local_is_reported_once_per_repeat() {
    let p = program(
        vec![],
        vec![main_with(block(
            vec![decl(Type::Int, &["a", "b", "a"]), decl(Type::Bool, &["a"])],
            vec![],
        ))],
    );
    assert_eq!(errors_of(p), vec!["DuplicatedSymbol(\"a\")", "DuplicatedSymbol(\"a\")"]);
}

#[test]
fn local_may_hide_a_field() {
    let p = program(
        vec![field(Type::Int, "a", None)],
        vec![main_with(block(
            vec![decl(Type::Bool, &["a"])],
            vec![assign(loc("a"), boolean(true))],
        ))],
    );
    let root = analyse(p).unwrap();
    let body = body_of(&root, 0);
    match &body.statements[0] {
        ir::Statement0::Assign(a) => {
            assert_eq!(a.dst.decl, body.var_decls[0]);
            assert_ne!(a.dst.decl, root.root.field_decls[0]);
            assert_eq!(root.var_decls[a.dst.decl.id].type_, ir::Type::Bool);
        }
        other => panic!("{:?}", other),
    }
}

#[test]
fn local_that_repeats_an_argument_is_a_duplicate() {
    let p = program(
        vec![],
        vec![
            method(
                Type::Void,
                "f",
                vec![arg(Type::Int, "n")],
                block(vec![decl(Type::Int, &["n"])], vec![]),
            ),
            main_with(stmts(vec![])),
        ],
    );
    assert_eq!(errors_of(p), vec!["DuplicatedSymbol(\"n\")"]);
}

#[test]
fn duplicated_method_is_reported() {
    let p = program(
        vec![],
        vec![
            method(Type::Void, "f", vec![], stmts(vec![])),
            method(Type::Int, "f", vec![], stmts(vec![ret(Some(num(1)))])),
            main_with(stmts(vec![])),
        ],
    );
    assert_eq!(errors_of(p), vec!["DuplicatedSymbol(\"f\")"]);
}

#[test]
fn non_boolean_condition_is_a_mismatch() {
    let p = program(vec![], vec![main_with(stmts(vec![if_else(num(1), stmts(vec![]), None)]))]);
    assert_eq!(errors_of(p), vec!["TypeMismatch(\"Early return\")"]);
}

#[test]
fn return_without_value_in_int_method() {
    let p = program(
        vec![],
        vec![
            method(Type::Int, "foo", vec![], stmts(vec![ret(None)])),
            main_with(stmts(vec![])),
        ],
    );
    assert_eq!(errors_of(p), vec!["ReturnTypeMismatch"]);
}

#[test]
fn return_with_value_in_void_method() {
    let p = program(vec![], vec![main_with(stmts(vec![ret(Some(num(1)))]))]);
    assert_eq!(errors_of(p), vec!["ReturnTypeMismatch"]);
}

#[test]
fn return_of_wrong_type() {
    let p = program(
        vec![],
        vec![
            method(Type::Bool, "foo", vec![], stmts(vec![ret(Some(num(1)))])),
            main_with(stmts(vec![])),
        ],
    );
    assert_eq!(errors_of(p), vec!["ReturnTypeMismatch"]);
}

#[test]
fn break_outside_a_loop() {
    let p = program(vec![], vec![main_with(stmts(vec![Statement::Break]))]);
    assert_eq!(errors_of(p), vec!["BreakOutOfForScope"]);
}

#[test]
fn continue_outside_a_loop() {
    let p = program(vec![], vec![main_with(stmts(vec![Statement::Continue]))]);
    assert_eq!(errors_of(p), vec!["ContinueOutOfForScope"]);
}

#[test]
fn bare_array_is_a_mismatch() {
    let p = program(
        vec![field(Type::Int, "a", Some(10))],
        vec![main_with(stmts(vec![assign(loc("a"), num(1))]))],
    );
    assert_eq!(
        errors_of(p),
        vec!["TypeMismatch(\"location does not have offset, but delc is an array\")"]
    );
}

#[test]
fn index_on_a_scalar() {
    let p = program(
        vec![field(Type::Int, "a", None)],
        vec![main_with(stmts(vec![assign(elem("a", num(0)), num(1))]))],
    );
    assert_eq!(errors_of(p), vec!["ArrayLocationOnNonArrayVar"]);
}

#[test]
fn boolean_index() {
    let p = program(
        vec![field(Type::Int, "a", Some(4))],
        vec![main_with(stmts(vec![assign(elem("a", boolean(true)), num(1))]))],
    );
    assert_eq!(errors_of(p), vec!["ArrayLocationOffsetTypeError"]);
}

#[test]
fn boolean_index_on_a_scalar_reports_both() {
    let p = program(
        vec![field(Type::Int, "a", None)],
        vec![main_with(stmts(vec![assign(elem("a", boolean(true)), num(1))]))],
    );
    assert_eq!(errors_of(p), vec!["ArrayLocationOnNonArrayVar", "ArrayLocationOffsetTypeError"]);
}

#[test]
fn non_ascii_character() {
    let p = program(
        vec![field(Type::Int, "a", None)],
        vec![main_with(stmts(vec![assign(loc("a"), character('é'))]))],
    );
    assert_eq!(errors_of(p), vec!["NonAsciiCharLiteral('é')"]);
}

#[test]
fn ascii_character_is_its_code() {
    let p = program(
        vec![field(Type::Int, "a", None)],
        vec![main_with(stmts(vec![
            assign(loc("a"), character('A')),
            assign(loc("a"), character('\u{7f}')),
        ]))],
    );
    let root = analyse(p).unwrap();
    let body = body_of(&root, 0);
    let values: Vec<i32> = body
        .statements
        .iter()
        .map(|s| match s {
            ir::Statement0::Assign(a) => match &a.val.expr {
                ir::ExprType::Literal(ir::Literal::Int(v)) => {
                    assert_eq!(a.val.type_, ir::Type::Int);
                    *v
                }
                other => panic!("{:?}", other),
            },
            other => panic!("{:?}", other),
        })
        .collect();
    assert_eq!(values, vec![65, 127]);
}

#[test]
fn first_character_beyond_ascii_is_rejected() {
    let p = program(
        vec![field(Type::Int, "a", None)],
        vec![main_with(stmts(vec![assign(loc("a"), character('\u{80}'))]))],
    );
    assert_eq!(errors_of(p), vec!["NonAsciiCharLiteral('\\u{80}')"]);
}

#[test]
fn void_call_in_an_expression() {
    let p = program(
        vec![field(Type::Int, "a", None)],
        vec![
            method(Type::Void, "f", vec![], stmts(vec![])),
            main_with(stmts(vec![assign(loc("a"), call_expr("f", vec![]))])),
        ],
    );
    assert_eq!(errors_of(p), vec!["ExprCallNoReturn"]);
}

#[test]
fn void_call_as_a_statement_is_fine() {
    let p = program(
        vec![],
        vec![
            method(Type::Void, "f", vec![], stmts(vec![])),
            main_with(stmts(vec![Statement::MethodCall(call("f", vec![]))])),
        ],
    );
    assert!(analyse(p).is_ok());
}

#[test]
fn unknown_method() {
    let p = program(vec![], vec![main_with(stmts(vec![Statement::MethodCall(call("f", vec![]))]))]);
    assert_eq!(errors_of(p), vec!["UnknownSymbol(\"f\")"]);
}

#[test]
fn method_declared_later_is_unknown() {
    let p = program(
        vec![],
        vec![
            main_with(stmts(vec![Statement::MethodCall(call("f", vec![]))])),
            method(Type::Void, "f", vec![], stmts(vec![])),
        ],
    );
    assert_eq!(errors_of(p), vec!["UnknownSymbol(\"f\")"]);
}

#[test]
fn wrong_number_of_arguments() {
    let p = program(
        vec![],
        vec![
            method(Type::Void, "f", vec![arg(Type::Int, "n")], stmts(vec![])),
            main_with(stmts(vec![Statement::MethodCall(call("f", vec![]))])),
        ],
    );
    assert_eq!(errors_of(p), vec!["MethodArgumentNotMatch"]);
}

#[test]
fn wrong_type_of_argument() {
    let p = program(
        vec![],
        vec![
            method(Type::Void, "f", vec![arg(Type::Int, "n"), arg(Type::Bool, "b")], stmts(vec![])),
            main_with(stmts(vec![Statement::MethodCall(call("f", vec![num(1), num(2)]))])),
        ],
    );
    assert_eq!(errors_of(p), vec!["MethodArgumentNotMatch"]);
}

#[test]
fn only_the_first_failing_argument_reports() {
    let p = program(
        vec![],
        vec![
            method(Type::Void, "f", vec![arg(Type::Int, "n"), arg(Type::Int, "m")], stmts(vec![])),
            main_with(stmts(vec![Statement::MethodCall(call("f", vec![var("x"), var("y")]))])),
        ],
    );
    assert_eq!(errors_of(p), vec!["UnknownSymbol(\"x\")"]);
}

#[test]
fn unary_operand_types() {
    let p = program(
        vec![field(Type::Int, "a", None), field(Type::Bool, "b", None)],
        vec![main_with(stmts(vec![
            assign(loc("a"), neg(boolean(true))),
            assign(loc("b"), not(num(1))),
            assign(loc("a"), neg(num(1))),
            assign(loc("b"), not(boolean(false))),
        ]))],
    );
    assert_eq!(
        errors_of(p),
        vec![
            "TypeMismatch(\"unary op is not supported\")",
            "TypeMismatch(\"unary op is not supported\")"
        ]
    );
}

#[test]
fn binary_operand_types() {
    let p = program(
        vec![field(Type::Int, "a", None), field(Type::Bool, "b", None)],
        vec![main_with(stmts(vec![
            assign(loc("a"), plus(num(1), boolean(true))),
            assign(loc("a"), plus(boolean(false), boolean(true))),
            assign(loc("b"), less(boolean(false), boolean(true))),
            assign(loc("b"), binary(BinaryOp::Cond(CondOp::And), num(1), num(2))),
            assign(loc("b"), binary(BinaryOp::Eq(EqOp::EQ), num(1), boolean(true))),
        ]))],
    );
    assert_eq!(
        errors_of(p),
        vec![
            "TypeMismatch(\"binary lhs rhs type is not matched\")",
            "TypeMismatch(\"binary op is not supported\")",
            "TypeMismatch(\"binary op is not supported\")",
            "TypeMismatch(\"binary op is not supported\")",
            "TypeMismatch(\"binary lhs rhs type is not matched\")",
        ]
    );
}

#[test]
fn every_binary_operator_types() {
    let ops = vec![
        (BinaryOp::Arith(ArithOp::Add), Type::Int, ir::BinaryOp::Add, ir::Type::Int),
        (BinaryOp::Arith(ArithOp::Sub), Type::Int, ir::BinaryOp::Sub, ir::Type::Int),
        (BinaryOp::Arith(ArithOp::Mul), Type::Int, ir::BinaryOp::Mul, ir::Type::Int),
        (BinaryOp::Arith(ArithOp::Div), Type::Int, ir::BinaryOp::Div, ir::Type::Int),
        (BinaryOp::Arith(ArithOp::Mod), Type::Int, ir::BinaryOp::Mod, ir::Type::Int),
        (BinaryOp::Compare(CompareOp::GT), Type::Int, ir::BinaryOp::GT, ir::Type::Bool),
        (BinaryOp::Compare(CompareOp::GE), Type::Int, ir::BinaryOp::GE, ir::Type::Bool),
        (BinaryOp::Compare(CompareOp::LT), Type::Int, ir::BinaryOp::LT, ir::Type::Bool),
        (BinaryOp::Compare(CompareOp::LE), Type::Int, ir::BinaryOp::LE, ir::Type::Bool),
        (BinaryOp::Eq(EqOp::EQ), Type::Int, ir::BinaryOp::EQ, ir::Type::Bool),
        (BinaryOp::Eq(EqOp::NE), Type::Bool, ir::BinaryOp::NE, ir::Type::Bool),
        (BinaryOp::Cond(CondOp::Or), Type::Bool, ir::BinaryOp::Or, ir::Type::Bool),
        (BinaryOp::Cond(CondOp::And), Type::Bool, ir::BinaryOp::And, ir::Type::Bool),
    ];
    for (op, operand, expected_op, expected_type) in ops {
        assert_eq!(ir::BinaryOp::from(&op), expected_op);
        assert_eq!(expected_op.get_return_type(), expected_type);
        let side = || match operand {
            Type::Int => num(1),
            _ => boolean(true),
        };
        let result = match expected_type {
            ir::Type::Int => Type::Int,
            _ => Type::Bool,
        };
        let p = program(
            vec![field(result, "r", None)],
            vec![main_with(stmts(vec![assign(loc("r"), binary(op, side(), side()))]))],
        );
        let root = analyse(p).unwrap();
        match &body_of(&root, 0).statements[0] {
            ir::Statement0::Assign(a) => {
                assert_eq!(a.val.type_, expected_type);
                match &a.val.expr {
                    ir::ExprType::Binary(b) => assert_eq!(b.op, expected_op),
                    other => panic!("{:?}", other),
                }
            }
            other => panic!("{:?}", other),
        }
    }
}

#[test]
fn assignment_types() {
    let p = program(
        vec![field(Type::Int, "a", None), field(Type::Bool, "b", None)],
        vec![main_with(stmts(vec![
            assign(loc("a"), boolean(true)),
            assign_with(AssignOp::AddAssign, loc("b"), boolean(true)),
            assign_with(AssignOp::SubAssign, loc("a"), num(1)),
            assign_with(AssignOp::MulAssign, loc("a"), num(1)),
            assign_with(AssignOp::DivAssign, loc("a"), num(1)),
        ]))],
    );
    assert_eq!(
        errors_of(p),
        vec!["TypeMismatch(\"assign type not match\")", "TypeMismatch(\"non-int assign\")"]
    );
}

#[test]
fn both_sides_of_an_assignment_report() {
    let p = program(vec![], vec![main_with(stmts(vec![assign(loc("x"), var("y"))]))]);
    assert_eq!(errors_of(p), vec!["UnknownSymbol(\"x\")", "UnknownSymbol(\"y\")"]);
}

#[test]
fn both_sides_of_a_binary_report() {
    let p = program(
        vec![field(Type::Int, "a", None)],
        vec![main_with(stmts(vec![assign(loc("a"), plus(var("x"), var("y")))]))],
    );
    assert_eq!(errors_of(p), vec!["UnknownSymbol(\"x\")", "UnknownSymbol(\"y\")"]);
}

#[test]
fn every_statement_of_a_block_reports() {
    let p = program(
        vec![],
        vec![main_with(block(
            vec![decl(Type::Int, &["a", "a"])],
            vec![Statement::Break, assign(loc("x"), num(1)), Statement::Continue],
        ))],
    );
    assert_eq!(
        errors_of(p),
        vec![
            "DuplicatedSymbol(\"a\")",
            "BreakOutOfForScope",
            "UnknownSymbol(\"x\")",
            "ContinueOutOfForScope"
        ]
    );
}

#[test]
fn every_method_reports() {
    let p = program(
        vec![field(Type::Int, "a", None), field(Type::Int, "a", None)],
        vec![
            method(Type::Int, "f", vec![], stmts(vec![ret(None)])),
            main_with(stmts(vec![Statement::Break])),
        ],
    );
    assert_eq!(
        errors_of(p),
        vec!["DuplicatedSymbol(\"a\")", "ReturnTypeMismatch", "BreakOutOfForScope"]
    );
}

#[test]
fn second_arm_is_not_walked_after_a_failing_first() {
    let p = program(
        vec![],
        vec![main_with(stmts(vec![if_else(
            boolean(true),
            stmts(vec![assign(loc("x"), num(1))]),
            Some(stmts(vec![assign(loc("y"), num(1))])),
        )]))],
    );
    assert_eq!(errors_of(p), vec!["UnknownSymbol(\"x\")"]);
}

#[test]
fn loop_bounds_have_to_be_integers() {
    let p = program(
        vec![],
        vec![main_with(stmts(vec![
            for_loop("i", boolean(true), num(1), stmts(vec![])),
            for_loop("i", num(0), boolean(true), stmts(vec![])),
        ]))],
    );
    assert_eq!(
        errors_of(p),
        vec!["TypeMismatch(\"Early return\")", "TypeMismatch(\"Early return\")"]
    );
}

#[test]
fn index_variable_is_not_visible_in_the_bounds() {
    let p = program(
        vec![],
        vec![main_with(stmts(vec![for_loop("i", num(0), var("i"), stmts(vec![]))]))],
    );
    assert_eq!(errors_of(p), vec!["UnknownSymbol(\"i\")"]);
}

#[test]
fn local_of_a_loop_body_that_repeats_the_index_is_a_duplicate() {
    let p = program(
        vec![],
        vec![main_with(stmts(vec![for_loop(
            "i",
            num(0),
            num(1),
            block(vec![decl(Type::Int, &["i"])], vec![]),
        )]))],
    );
    assert_eq!(errors_of(p), vec!["DuplicatedSymbol(\"i\")"]);
}

#[test]
fn nested_block_may_redeclare() {
    let p = program(
        vec![],
        vec![main_with(block(
            vec![decl(Type::Int, &["a"])],
            vec![Statement::Block(block(
                vec![decl(Type::Bool, &["a"])],
                vec![assign(loc("a"), boolean(true))],
            ))],
        ))],
    );
    assert!(analyse(p).is_ok());
}

#[test]
fn locals_of_a_nested_block_end_with_it() {
    let p = program(
        vec![],
        vec![main_with(stmts(vec![
            Statement::Block(block(vec![decl(Type::Int, &["a"])], vec![])),
            assign(loc("a"), num(1)),
        ]))],
    );
    assert_eq!(errors_of(p), vec!["UnknownSymbol(\"a\")"]);
}

#[test]
fn break_points_at_the_innermost_loop() {
    let p = program(
        vec![],
        vec![main_with(stmts(vec![for_loop(
            "i",
            num(0),
            num(9),
            stmts(vec![
                for_loop("j", num(0), num(9), stmts(vec![Statement::Break])),
                Statement::Continue,
            ]),
        )]))],
    );
    let root = analyse(p).unwrap();
    match &body_of(&root, 0).statements[0] {
        ir::Statement0::For(outer) => {
            let body = outer.block.as_ref().unwrap();
            match (&body.statements[0], &body.statements[1]) {
                (ir::Statement0::For(inner), ir::Statement0::Continue(c)) => {
                    assert_ne!(inner.id, outer.id);
                    assert_eq!(c.for_, outer.id);
                    assert_ne!(inner.index_decl, outer.index_decl);
                    assert_eq!(root.var_decls[inner.index_decl.id].name, "j");
                    assert_eq!(root.var_decls[inner.index_decl.id].type_, ir::Type::Int);
                    assert!(!root.var_decls[inner.index_decl.id].is_array());
                    match &inner.block.as_ref().unwrap().statements[0] {
                        ir::Statement0::Break(b) => assert_eq!(b.for_, inner.id),
                        other => panic!("{:?}", other),
                    }
                }
                other => panic!("{:?}", other),
            }
        }
        other => panic!("{:?}", other),
    }
}

#[test]
fn return_points_at_its_method() {
    let p = program(
        vec![],
        vec![
            method(
                Type::Int,
                "f",
                vec![arg(Type::Int, "n")],
                stmts(vec![if_else(
                    less(var("n"), num(1)),
                    stmts(vec![ret(Some(num(0)))]),
                    Some(stmts(vec![ret(Some(call_expr("f", vec![minus(var("n"), num(1))])))])),
                )]),
            ),
            main_with(stmts(vec![ret(None)])),
        ],
    );
    let root = analyse(p).unwrap();
    let f = root.root.method_decls[0];
    let main = root.root.method_decls[1];
    assert_ne!(f, main);
    match &body_of(&root, 0).statements[0] {
        ir::Statement0::IfElse(i) => {
            assert_eq!(i.cond.type_, ir::Type::Bool);
            match &i.true_block.as_ref().unwrap().statements[0] {
                ir::Statement0::Return(r) => {
                    assert_eq!(r.func, f);
                    assert_eq!(r.val.as_ref().unwrap().type_, ir::Type::Int);
                }
                other => panic!("{:?}", other),
            }
            match &i.false_block.as_ref().unwrap().statements[0] {
                ir::Statement0::Return(r) => {
                    assert_eq!(r.func, f);
                    let v = r.val.as_ref().unwrap();
                    assert_eq!(v.type_, ir::Type::Int);
                    match &v.expr {
                        ir::ExprType::Call(ir::Call::Method(m)) => {
                            assert_eq!(m.decl, f);
                            assert_eq!(m.args.len(), root.method_decls[f.id].args.len());
                            assert_eq!(
                                m.args[0].type_,
                                root.var_decls[root.method_decls[f.id].args[0].id].type_
                            );
                        }
                        other => panic!("{:?}", other),
                    }
                }
                other => panic!("{:?}", other),
            }
        }
        other => panic!("{:?}", other),
    }
    match &body_of(&root, 1).statements[0] {
        ir::Statement0::Return(r) => {
            assert_eq!(r.func, main);
            assert!(r.val.is_none());
        }
        other => panic!("{:?}", other),
    }
}

#[test]
fn array_uses_carry_an_integer_index() {
    let p = program(
        vec![field(Type::Bool, "flags", Some(8)), field(Type::Int, "n", None)],
        vec![main_with(stmts(vec![assign(elem("flags", plus(var("n"), num(1))), boolean(true))]))],
    );
    let root = analyse(p).unwrap();
    assert_eq!(root.var_decls[root.root.field_decls[0].id].arr_size, Some(8));
    assert!(root.var_decls[root.root.field_decls[0].id].is_array());
    assert!(!root.var_decls[root.root.field_decls[1].id].is_array());
    match &body_of(&root, 0).statements[0] {
        ir::Statement0::Assign(a) => {
            assert_eq!(a.op, ir::AssignOp::Assign);
            assert_eq!(a.dst.decl, root.root.field_decls[0]);
            let index = a.dst.arr_size.as_ref().unwrap();
            assert_eq!(index.type_, ir::Type::Int);
            match &index.expr {
                ir::ExprType::Binary(b) => match &b.lhs.expr {
                    ir::ExprType::Location(l) => {
                        assert_eq!(l.decl, root.root.field_decls[1]);
                        assert!(l.arr_size.is_none());
                    }
                    other => panic!("{:?}", other),
                },
                other => panic!("{:?}", other),
            }
        }
        other => panic!("{:?}", other),
    }
}

#[test]
fn callout_takes_anything_and_is_an_integer() {
    let p = program(
        vec![field(Type::Int, "a", None)],
        vec![main_with(stmts(vec![assign(
            loc("a"),
            Box::new(Expr0::MethodCall(callout(
                "printf",
                vec![text("%d %d"), CalloutArg::Expr(num(1)), CalloutArg::Expr(boolean(true))],
            ))),
        )]))],
    );
    let root = analyse(p).unwrap();
    match &body_of(&root, 0).statements[0] {
        ir::Statement0::Assign(a) => {
            assert_eq!(a.val.type_, ir::Type::Int);
            match &a.val.expr {
                ir::ExprType::Call(ir::Call::Callout(c)) => {
                    assert_eq!(c.name, "printf");
                    assert_eq!(c.args.len(), 3);
                    assert!(matches!(&c.args[0], ir::CalloutArg::StringLiteral(s) if s == "%d %d"));
                    assert!(
                        matches!(&c.args[2], ir::CalloutArg::Expr(e) if e.type_ == ir::Type::Bool)
                    );
                }
                other => panic!("{:?}", other),
            }
        }
        other => panic!("{:?}", other),
    }
}

#[test]
fn failing_callout_argument_reports() {
    let p = program(
        vec![],
        vec![main_with(stmts(vec![Statement::MethodCall(callout(
            "printf",
            vec![text("%d"), CalloutArg::Expr(var("x")), CalloutArg::Expr(var("y"))],
        ))]))],
    );
    assert_eq!(errors_of(p), vec!["UnknownSymbol(\"x\")"]);
}

#[test]
fn quicksort_builds() {
    let root = analyse(quicksort()).unwrap();
    assert_eq!(root.root.field_decls.len(), 2);
    assert_eq!(root.root.method_decls.len(), 3);
    let names: Vec<&str> =
        root.root.method_decls.iter().map(|m| root.method_decls[m.id].name.as_str()).collect();
    assert_eq!(names, vec!["partition", "quicksort", "main"]);
    let partition = &root.method_decls[root.root.method_decls[0].id];
    assert_eq!(partition.return_type, ir::Type::Int);
    assert_eq!(partition.args.len(), 2);
    let body = partition.block.as_ref().unwrap();
    let locals: Vec<&str> =
        body.var_decls.iter().map(|d| root.var_decls[d.id].name.as_str()).collect();
    assert_eq!(locals, vec!["x", "i", "j", "t", "z"]);
    assert_eq!(body.statements.len(), 5);
}

#[test]
fn an_error_list_is_never_empty() {
    let bad = vec![
        program(vec![], vec![]),
        program(vec![field(Type::Int, "a", Some(0))], vec![main_with(stmts(vec![]))]),
        program(vec![], vec![main_with(stmts(vec![Statement::Break]))]),
    ];
    for p in bad {
        assert!(!analyse(p).unwrap_err().is_empty());
    }
}

#[test]
fn type_and_operator_conversions() {
    assert_eq!(ir::Type::from(&Type::Int), ir::Type::Int);
    assert_eq!(ir::Type::from(&Type::Bool), ir::Type::Bool);
    assert_eq!(ir::Type::from(&Type::Void), ir::Type::Void);
    assert_eq!(ir::AssignOp::from(AssignOp::Assign), ir::AssignOp::Assign);
    assert_eq!(ir::AssignOp::from(AssignOp::AddAssign), ir::AssignOp::AddAssign);
    assert_eq!(ir::AssignOp::from(AssignOp::SubAssign), ir::AssignOp::SubAssign);
    assert_eq!(ir::AssignOp::from(AssignOp::MulAssign), ir::AssignOp::MulAssign);
    assert_eq!(ir::AssignOp::from(AssignOp::DivAssign), ir::AssignOp::DivAssign);
}

#[test]
fn test_compile() {
    assert_eq!(decafc::compile(quicksort()), "");
}

/// Walks a typed tree and holds every node to what has to be true of it.
struct Walker<'a> {
    root: &'a ir::IRRoot,
    method: ir::MethodDecl,
    exprs: usize,
    vars: Vec<ir::VarDecl>,
    loops: Vec<ir::For>,
    conditionals: Vec<ir::IfElse>,
}

impl<'a> Walker<'a> {
    fn expr(&mut self, e: &ir::Expr0) {
        self.exprs += 1;
        assert!(e.type_ == ir::Type::Int || e.type_ == ir::Type::Bool);
        match &e.expr {
            ir::ExprType::Location(l) => {
                assert_eq!(e.type_, self.root.var_decls[l.decl.id].type_);
                self.location(l);
            }
            ir::ExprType::Literal(ir::Literal::Int(_)) => assert_eq!(e.type_, ir::Type::Int),
            ir::ExprType::Literal(ir::Literal::Boolean(_)) => assert_eq!(e.type_, ir::Type::Bool),
            ir::ExprType::Call(c) => {
                match c {
                    ir::Call::Method(m) => {
                        assert_eq!(e.type_, self.root.method_decls[m.decl.id].return_type)
                    }
                    ir::Call::Callout(_) => assert_eq!(e.type_, ir::Type::Int),
                }
                self.call(c);
            }
            ir::ExprType::Unary(u) => {
                assert_eq!(e.type_, u.expr.type_);
                match u.op {
                    ir::UnaryOp::NegInt => assert_eq!(u.expr.type_, ir::Type::Int),
                    ir::UnaryOp::NegBool => assert_eq!(u.expr.type_, ir::Type::Bool),
                }
                self.expr(&u.expr);
            }
            ir::ExprType::Binary(b) => {
                assert_eq!(e.type_, b.op.get_return_type());
                assert_eq!(b.lhs.type_, b.rhs.type_);
                self.expr(&b.lhs);
                self.expr(&b.rhs);
            }
        }
    }

    fn location(&mut self, l: &ir::Location) {
        let decl = &self.root.var_decls[l.decl.id];
        match &l.arr_size {
            Some(index) => {
                assert!(decl.is_array());
                assert_eq!(index.type_, ir::Type::Int);
                self.expr(index);
            }
            None => assert!(!decl.is_array()),
        }
    }

    fn call(&mut self, c: &ir::Call) {
        match c {
            ir::Call::Method(m) => {
                let callee = &self.root.method_decls[m.decl.id];
                assert_eq!(m.args.len(), callee.args.len());
                for (arg, declared) in m.args.iter().zip(callee.args.iter()) {
                    assert_eq!(arg.type_, self.root.var_decls[declared.id].type_);
                    self.expr(arg);
                }
            }
            ir::Call::Callout(c) => {
                for arg in &c.args {
                    if let ir::CalloutArg::Expr(e) = arg {
                        self.expr(e);
                    }
                }
            }
        }
    }

    fn block(&mut self, b: &ir::Block, enclosing: Option<ir::For>) {
        for d in &b.var_decls {
            assert!(!self.root.var_decls[d.id].is_array());
            self.vars.push(*d);
        }
        for s in &b.statements {
            self.statement(s, enclosing);
        }
    }

    fn statement(&mut self, s: &ir::Statement0, enclosing: Option<ir::For>) {
        match s {
            ir::Statement0::Assign(a) => {
                assert_eq!(self.root.var_decls[a.dst.decl.id].type_, a.val.type_);
                if a.op != ir::AssignOp::Assign {
                    assert_eq!(a.val.type_, ir::Type::Int);
                }
                self.location(&a.dst);
                self.expr(&a.val);
            }
            ir::Statement0::Call(c) => self.call(c),
            ir::Statement0::IfElse(i) => {
                assert_eq!(i.cond.type_, ir::Type::Bool);
                self.conditionals.push(i.id);
                self.expr(&i.cond);
                self.block(i.true_block.as_ref().unwrap(), enclosing);
                if let Some(b) = &i.false_block {
                    self.block(b, enclosing);
                }
            }
            ir::Statement0::For(f) => {
                assert_eq!(f.start.type_, ir::Type::Int);
                assert_eq!(f.end.type_, ir::Type::Int);
                assert_eq!(self.root.var_decls[f.index_decl.id].type_, ir::Type::Int);
                assert!(!self.root.var_decls[f.index_decl.id].is_array());
                self.expr(&f.start);
                self.expr(&f.end);
                self.vars.push(f.index_decl);
                self.loops.push(f.id);
                self.block(f.block.as_ref().unwrap(), Some(f.id));
            }
            ir::Statement0::Return(r) => {
                assert_eq!(r.func, self.method);
                let declared = self.root.method_decls[r.func.id].return_type;
                match &r.val {
                    Some(v) => {
                        assert_ne!(declared, ir::Type::Void);
                        assert_eq!(v.type_, declared);
                        self.expr(v);
                    }
                    None => assert_eq!(declared, ir::Type::Void),
                }
            }
            ir::Statement0::Break(b) => assert_eq!(Some(b.for_), enclosing),
            ir::Statement0::Continue(c) => assert_eq!(Some(c.for_), enclosing),
            ir::Statement0::Block(b) => self.block(b, enclosing),
        }
    }
}

fn walk(root: &ir::IRRoot) -> (usize, Vec<ir::VarDecl>, Vec<ir::For>, Vec<ir::IfElse>) {
    let mut w = Walker {
        root,
        method: ir::MethodDecl { id: 0 },
        exprs: 0,
        vars: root.root.field_decls.clone(),
        loops: vec![],
        conditionals: vec![],
    };
    for m in &root.root.method_decls {
        w.method = *m;
        let decl = &root.method_decls[m.id];
        for a in &decl.args {
            assert!(!root.var_decls[a.id].is_array());
            w.vars.push(*a);
        }
        w.block(decl.block.as_ref().unwrap(), None);
    }
    (w.exprs, w.vars, w.loops, w.conditionals)
}

#[test]
fn every_node_of_quicksort_is_well_formed() {
    let root = analyse(quicksort()).unwrap();
    let (exprs, _, _, _) = walk(&root);
    assert_eq!(exprs, 78);
}

#[test]
fn handles_are_numbered_in_the_order_of_the_walk() {
    let root = analyse(quicksort()).unwrap();
    let (_, vars, loops, conditionals) = walk(&root);
    let expected_vars: Vec<ir::VarDecl> =
        (0..root.var_decls.len()).map(|id| ir::VarDecl { id }).collect();
    assert_eq!(vars, expected_vars);
    let names: Vec<&str> = root.var_decls.iter().map(|d| d.name.as_str()).collect();
    assert_eq!(
        names,
        vec![
            "A", "length", "p", "r", "x", "i", "j", "t", "z", "z", "a", "a", "p", "r", "q", "temp",
            "i", "i", "i"
        ]
    );
    let expected_loops: Vec<ir::For> = (0..6).map(|id| ir::For { id }).collect();
    assert_eq!(loops, expected_loops);
    let expected_conditionals: Vec<ir::IfElse> = (0..4).map(|id| ir::IfElse { id }).collect();
    assert_eq!(conditionals, expected_conditionals);
    let methods: Vec<usize> = root.root.method_decls.iter().map(|m| m.id).collect();
    assert_eq!(methods, vec![0, 1, 2]);
    assert_eq!(root.method_decls.len(), 3);
}

#[test]
fn test_generate_llir() {
    let root = analyse(quicksort()).unwrap();
    let llir = generate_llir(&root);
    assert_eq!(llir.method_defs.len(), 3);
    let slots = |i: usize| -> Vec<String> {
        llir.method_defs[i]
            .insts
            .iter()
            .filter_map(|inst| match inst {
                Inst::Alloca(d) => Some(llir.defs[d.decl.id].name.clone()),
                _ => None,
            })
            .collect()
    };
    assert_eq!(slots(0), vec!["p", "r", "x", "i", "j", "t", "z", "z", "a", "a"]);
    assert_eq!(slots(1), vec!["p", "r", "q"]);
    assert_eq!(slots(2), vec!["temp", "i", "i", "i"]);
    let labels: Vec<String> = llir
        .method_defs
        .iter()
        .flat_map(|m| m.insts.iter())
        .filter_map(|inst| match inst {
            Inst::Label(l) if l.starts_with("__LForB") => Some(l.clone()),
            _ => None,
        })
        .collect();
    assert_eq!(
        labels,
        vec!["__LForB0", "__LForB1", "__LForB2", "__LForB3", "__LForB4", "__LForB5"]
    );
    let joins: Vec<String> = llir
        .method_defs
        .iter()
        .flat_map(|m| m.insts.iter())
        .filter_map(|inst| match inst {
            Inst::Label(l) if l.starts_with("__LIfJ") => Some(l.clone()),
            _ => None,
        })
        .collect();
    assert_eq!(joins, vec!["__LIfJ0", "__LIfJ1", "__LIfJ2", "__LIfJ3"]);
    let globals: Vec<&str> =
        llir.var_defs.iter().map(|d| llir.defs[d.decl.id].name.as_str()).collect();
    assert_eq!(globals, vec!["A", "length"]);
    assert_eq!(llir.defs[0].type_.get_bytesize(), 400);
    assert_eq!(llir.defs[1].type_.get_bytesize(), 4);
}

#[test]
fn void_variable_makes_a_void_expression() {
    let p = program(
        vec![field(Type::Void, "v", None)],
        vec![main_with(stmts(vec![assign(loc("v"), var("v"))]))],
    );
    let root = analyse(p).unwrap();
    match &body_of(&root, 0).statements[0] {
        ir::Statement0::Assign(a) => assert_eq!(a.val.type_, ir::Type::Void),
        other => panic!("{:?}", other),
    }
}

#[test]
fn repeated_argument_names_are_not_reported() {
    let p = program(
        vec![],
        vec![
            method(
                Type::Void,
                "f",
                vec![arg(Type::Int, "a"), arg(Type::Bool, "a")],
                stmts(vec![assign(loc("a"), boolean(true))]),
            ),
            main_with(stmts(vec![Statement::MethodCall(call("f", vec![num(1), boolean(false)]))])),
        ],
    );
    let root = analyse(p).unwrap();
    let f = &root.method_decls[root.root.method_decls[0].id];
    assert_eq!(f.args.len(), 2);
    match &body_of(&root, 0).statements[0] {
        ir::Statement0::Assign(a) => assert_eq!(a.dst.decl, f.args[1]),
        other => panic!("{:?}", other),
    }
}

#[test]
fn method_and_field_may_share_a_name() {
    let p = program(
        vec![field(Type::Int, "f", None)],
        vec![
            method(Type::Int, "f", vec![], stmts(vec![ret(Some(var("f")))])),
            main_with(stmts(vec![assign(loc("f"), call_expr("f", vec![]))])),
        ],
    );
    assert!(analyse(p).is_ok());
}

#[test]
fn errors_in_a_method_do_not_hide_it_from_later_calls() {
    let p = program(
        vec![],
        vec![
            method(Type::Int, "f", vec![], stmts(vec![ret(None)])),
            main_with(stmts(vec![Statement::MethodCall(call("f", vec![num(1)]))])),
        ],
    );
    assert_eq!(errors_of(p), vec!["ReturnTypeMismatch", "MethodArgumentNotMatch"]);
}
