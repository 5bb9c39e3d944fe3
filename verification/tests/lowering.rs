use decafc::semantic_analyzer::ir;
use decafc::semantic_analyzer::SemanticAnalyzer;
use decafc::ssagen::label_gen::LabelGenerator;
use decafc::ssagen::llir::generate_llir;
use decafc::ssagen::llir::inst::{Inst, Register, VarDef};
use decafc::ssagen::llir::llir_method_gen_context::{LLIRMethodGenContext, RegisterGenerator};
use decafc::ssagen::llir::{ToLLIRType, Type as LType, LLIR};
use decafc::token::{
    ArithOp, Assign, AssignOp, Binary, BinaryOp, Block, BoolLiteral, Callout, CalloutArg, CompareOp,
    CondOp, EqOp, Expr, Expr0, FieldDecl, FieldDecl0, IfElse, Literal, Location, Loop, Method,
    MethodArg, MethodCall, MethodDecl, Program, Return, Statement, Type, Unary, UnaryOp, VarDecl,
};

fn num(v: i32) -> Expr {
    Box::new(Expr0::Literal(Literal::Int(v)))
}

fn boolean(v: bool) -> Expr {
    Box::new(Expr0::Literal(Literal::Bool(if v { BoolLiteral::True } else { BoolLiteral::False })))
}

fn loc(name: &str) -> Location {
    Location { name: String::from(name), arr_size: None }
}

fn elem(name: &str, index: Expr) -> Location {
    Location { name: String::from(name), arr_size: Some(index) }
}

fn var(name: &str) -> Expr {
    Box::new(Expr0::Location(loc(name)))
}

fn at(name: &str, index: Expr) -> Expr {
    Box::new(Expr0::Location(elem(name, index)))
}

fn binary(op: BinaryOp, lhs: Expr, rhs: Expr) -> Expr {
    Box::new(Expr0::Binary(Binary { lhs, rhs, op }))
}

fn assign_with(op: AssignOp, dst: Location, val: Expr) -> Statement {
    Statement::Assign(Assign { dst, op, val })
}

fn assign(dst: Location, val: Expr) -> Statement {
    assign_with(AssignOp::Assign, dst, val)
}

fn block(var_decls: Vec<VarDecl>, statements: Vec<Statement>) -> Block {
    Block { var_decls, statements }
}

fn decl(type_: Type, names: &[&str]) -> VarDecl {
    VarDecl { type_, identifiers: names.iter().map(|n| String::from(*n)).collect() }
}

fn field(type_: Type, name: &str, arr_size: Option<i32>) -> FieldDecl {
    FieldDecl { type_, loc: vec![FieldDecl0 { name: String::from(name), arr_size }] }
}

fn method(return_type: Type, name: &str, args: Vec<MethodArg>, block: Block) -> MethodDecl {
    MethodDecl { return_type, name: String::from(name), args, block }
}

fn lower(p: Program) -> (ir::IRRoot, LLIR) {
    let root = SemanticAnalyzer::new().create_ir(p).unwrap();
    let llir = generate_llir(&root);
    (root, llir)
}

fn listing(insts: &[Inst]) -> Vec<String> {
    insts.iter().map(|i| format!("{:?}", i)).collect()
}


fn arg(type_: Type, name: &str) -> MethodArg {
    MethodArg { type_, name: String::from(name) }
}

fn for_loop(index: &str, start: Expr, end: Expr, block: Block) -> Statement {
    Statement::Loop(Loop { index_var: String::from(index), start, end, block })
}

fn if_else(cond: Expr, true_block: Block, false_block: Option<Block>) -> Statement {
    Statement::IfElse(IfElse { cond, true_block, false_block })
}

fn r(n: u32) -> String {
    format!("Register {{ id: {} }}", n)
}

fn read(n: u32) -> String {
    format!("Location(Register({}))", r(n))
}

fn write(n: u32) -> String {
    format!("Register({})", r(n))
}

fn def(id: usize) -> String {
    format!("VarDef {{ decl: VarDecl {{ id: {} }} }}", id)
}

fn mem(id: usize) -> String {
    format!("Memory {{ decl: {}, offset: None }}", def(id))
}

fn mem_at(id: usize, index: u32) -> String {
    format!("Memory {{ decl: {}, offset: Some({}) }}", def(id), write(index))
}

fn three(name: &str, dst: String, lhs: String, rhs: String) -> String {
    format!("{}(Binary {{ dst: {}, lhs: {}, rhs: {} }})", name, dst, lhs, rhs)
}

fn cmp(op: &str, dst: String, lhs: String, rhs: String) -> String {
    format!("Cmp(Compare {{ op: {}, dst: {}, lhs: {}, rhs: {} }})", op, dst, lhs, rhs)
}

fn literal(n: u32, v: i32) -> String {
    three("IAdd", write(n), String::from("Literal(0)"), format!("Literal({})", v))
}

fn load(n: u32, src: String) -> String {
    format!("Load(Load {{ dst: {}, src: {} }})", r(n), src)
}

fn branch_unless(n: u32, target: &str) -> String {
    format!("Branch(Branch {{ cond: {}, on: false, target: {:?} }})", read(n), target)
}

fn sample() -> Program {
    Program {
        field_decls: vec![field(Type::Int, "a", Some(4)), field(Type::Int, "n", None)],
        method_decls: vec![
            method(
                Type::Int,
                "f",
                vec![arg(Type::Int, "x")],
                block(
                    vec![],
                    vec![Statement::Return(Return {
                        val: Some(binary(BinaryOp::Arith(ArithOp::Add), var("x"), num(1))),
                    })],
                ),
            ),
            method(
                Type::Void,
                "main",
                vec![],
                block(
                    vec![decl(Type::Int, &["t"])],
                    vec![
                        assign(loc("t"), num(2)),
                        assign_with(AssignOp::SubAssign, elem("a", var("t")), num(3)),
                        for_loop(
                            "i",
                            num(0),
                            var("n"),
                            block(
                                vec![],
                                vec![if_else(
                                    binary(
                                        BinaryOp::Compare(CompareOp::LT),
                                        at("a", var("i")),
                                        num(0),
                                    ),
                                    block(vec![], vec![Statement::Continue]),
                                    Some(block(vec![], vec![Statement::Break])),
                                )],
                            ),
                        ),
                        Statement::MethodCall(MethodCall::Callout(Callout {
                            name: String::from("printf"),
                            args: vec![
                                CalloutArg::StringLiteral(String::from("%d")),
                                CalloutArg::Expr(Box::new(Expr0::MethodCall(MethodCall::Method(
                                    Method { name: String::from("f"), args: vec![var("t")] },
                                )))),
                            ],
                        })),
                        Statement::Return(Return { val: None }),
                    ],
                ),
            ),
        ],
    }
}

#[test]
fn a_method_with_an_argument() {
    let (root, llir) = lower(sample());
    let f = &llir.method_defs[0];
    assert_eq!(f.decl, root.root.method_decls[0]);
    assert_eq!(f.return_type, LType::Int { len: 1 });
    assert_eq!(f.args, vec![VarDef { decl: ir::VarDecl { id: 2 } }]);
    assert_eq!(
        listing(&f.insts),
        vec![
            format!("Alloca({})", def(2)),
            load(0, mem(2)),
            literal(1, 1),
            three("IAdd", write(2), read(0), read(1)),
            format!("Return(Some({}))", read(2)),
        ]
    );
}

#[test]
fn statements_of_every_kind() {
    let (root, llir) = lower(sample());
    let main = &llir.method_defs[1];
    assert_eq!(main.decl, root.root.method_decls[1]);
    assert_eq!(main.return_type, LType::Void);
    assert!(main.args.is_empty());
    assert_eq!(
        listing(&main.insts),
        vec![
            format!("Alloca({})", def(3)),
            literal(0, 2),
            three("IAdd", format!("Memory({})", mem(3)), String::from("Literal(0)"), read(0)),
            load(1, mem(3)),
            literal(2, 3),
            three(
                "ISub",
                format!("Memory({})", mem_at(0, 1)),
                format!("Location(Memory({}))", mem_at(0, 1)),
                read(2)
            ),
            literal(3, 0),
            format!("Alloca({})", def(4)),
            three("ISub", format!("Memory({})", mem(4)), read(3), String::from("Literal(1)")),
            String::from("Label(\"__LForB0\")"),
            three(
                "IAdd",
                format!("Memory({})", mem(4)),
                format!("Location(Memory({}))", mem(4)),
                String::from("Literal(1)")
            ),
            load(4, mem(1)),
            cmp("LT", write(5), format!("Location(Memory({}))", mem(4)), read(4)),
            branch_unless(5, "__LForE0"),
            load(6, mem(4)),
            load(7, mem_at(0, 6)),
            literal(8, 0),
            cmp("LT", write(9), read(7), read(8)),
            branch_unless(9, "__LIfT0"),
            String::from("Jump(\"__LForB0\")"),
            String::from("Jump(\"__LIfJ0\")"),
            String::from("Label(\"__LIfT0\")"),
            String::from("Jump(\"__LForE0\")"),
            String::from("Label(\"__LIfJ0\")"),
            String::from("Jump(\"__LForB0\")"),
            String::from("Label(\"__LForE0\")"),
            load(10, mem(3)),
            format!(
                "Call(Call {{ dst: Some({}), callee: Method(MethodDecl {{ id: 0 }}), args: [Value({})] }})",
                r(11),
                read(10)
            ),
            format!(
                "Call(Call {{ dst: None, callee: Callout(\"printf\"), args: [Text(\"%d\"), Value({})] }})",
                read(11)
            ),
            String::from("Return(None)"),
        ]
    );
}

#[test]
fn variables_keep_their_names_and_get_their_layout() {
    let (root, llir) = lower(sample());
    assert_eq!(llir.var_defs, vec![VarDef { decl: ir::VarDecl { id: 0 } }, VarDef { decl: ir::VarDecl { id: 1 } }]);
    assert_eq!(llir.defs.len(), root.var_decls.len());
    let shown: Vec<(String, LType)> = llir.defs.iter().map(|d| (d.name.clone(), d.type_)).collect();
    assert_eq!(
        shown,
        vec![
            (String::from("a"), LType::Int { len: 4 }),
            (String::from("n"), LType::Int { len: 1 }),
            (String::from("x"), LType::Int { len: 1 }),
            (String::from("t"), LType::Int { len: 1 }),
            (String::from("i"), LType::Int { len: 1 }),
        ]
    );
}

#[test]
fn operators_and_literals() {
    let p = Program {
        field_decls: vec![field(Type::Bool, "b", None), field(Type::Int, "n", None)],
        method_decls: vec![method(
            Type::Void,
            "main",
            vec![],
            block(
                vec![],
                vec![
                    assign(
                        loc("b"),
                        binary(
                            BinaryOp::Cond(CondOp::Or),
                            Box::new(Expr0::Unary(Unary { expr: boolean(true), op: UnaryOp::NegBool })),
                            binary(BinaryOp::Eq(EqOp::NE), num(1), num(2)),
                        ),
                    ),
                    assign_with(
                        AssignOp::MulAssign,
                        loc("n"),
                        Box::new(Expr0::Unary(Unary {
                            expr: binary(BinaryOp::Arith(ArithOp::Mod), num(7), num(4)),
                            op: UnaryOp::NegInt,
                        })),
                    ),
                    assign_with(AssignOp::AddAssign, loc("n"), binary(BinaryOp::Arith(ArithOp::Div), num(8), num(2))),
                    assign_with(AssignOp::DivAssign, loc("n"), binary(BinaryOp::Arith(ArithOp::Sub), num(8), num(2))),
                    assign(loc("b"), binary(BinaryOp::Cond(CondOp::And), boolean(false), binary(BinaryOp::Compare(CompareOp::GE), num(1), num(2)))),
                ],
            ),
        )],
    };
    let (_, llir) = lower(p);
    let b = format!("Memory({})", mem(0));
    let n = format!("Memory({})", mem(1));
    assert_eq!(
        listing(&llir.method_defs[0].insts),
        vec![
            literal(0, 1),
            cmp("EQ", write(1), read(0), String::from("Literal(0)")),
            literal(2, 1),
            literal(3, 2),
            cmp("NE", write(4), read(2), read(3)),
            three("Or", write(5), read(1), read(4)),
            three("IAdd", b.clone(), String::from("Literal(0)"), read(5)),
            literal(6, 7),
            literal(7, 4),
            three("IMod", write(8), read(6), read(7)),
            three("ISub", write(9), String::from("Literal(0)"), read(8)),
            three("IMul", n.clone(), format!("Location({})", n), read(9)),
            literal(10, 8),
            literal(11, 2),
            three("IDiv", write(12), read(10), read(11)),
            three("IAdd", n.clone(), format!("Location({})", n), read(12)),
            literal(13, 8),
            literal(14, 2),
            three("ISub", write(15), read(13), read(14)),
            three("IDiv", n.clone(), format!("Location({})", n), read(15)),
            literal(16, 0),
            literal(17, 1),
            literal(18, 2),
            cmp("GE", write(19), read(17), read(18)),
            three("And", write(20), read(16), read(19)),
            three("IAdd", b, String::from("Literal(0)"), read(20)),
        ]
    );
}

#[test]
fn conditional_without_second_arm() {
    let p = Program {
        field_decls: vec![field(Type::Int, "n", None)],
        method_decls: vec![method(
            Type::Void,
            "main",
            vec![],
            block(
                vec![],
                vec![
                    if_else(boolean(true), block(vec![], vec![assign(loc("n"), num(1))]), None),
                    if_else(boolean(false), block(vec![], vec![]), None),
                ],
            ),
        )],
    };
    let (_, llir) = lower(p);
    assert_eq!(
        listing(&llir.method_defs[0].insts),
        vec![
            literal(0, 1),
            branch_unless(0, "__LIfJ0"),
            literal(1, 1),
            three("IAdd", format!("Memory({})", mem(0)), String::from("Literal(0)"), read(1)),
            String::from("Label(\"__LIfJ0\")"),
            literal(2, 0),
            branch_unless(2, "__LIfJ1"),
            String::from("Label(\"__LIfJ1\")"),
        ]
    );
}

#[test]
fn labels_go_on_and_registers_restart_with_each_method() {
    let looping = |name: &str| {
        method(
            Type::Void,
            name,
            vec![],
            block(vec![], vec![for_loop("i", num(0), num(3), block(vec![], vec![]))]),
        )
    };
    let p = Program { field_decls: vec![], method_decls: vec![looping("first"), looping("main")] };
    let (_, llir) = lower(p);
    let labels = |insts: &[Inst]| -> Vec<String> {
        insts
            .iter()
            .filter_map(|i| match i {
                Inst::Label(l) => Some(l.clone()),
                _ => None,
            })
            .collect()
    };
    assert_eq!(labels(&llir.method_defs[0].insts), vec!["__LForB0", "__LForE0"]);
    assert_eq!(labels(&llir.method_defs[1].insts), vec!["__LForB1", "__LForE1"]);
    for m in &llir.method_defs {
        assert_eq!(format!("{:?}", m.insts[0]), literal(0, 0));
    }
}

#[test]
fn nested_loops_jump_to_their_own_labels() {
    let p = Program {
        field_decls: vec![],
        method_decls: vec![method(
            Type::Void,
            "main",
            vec![],
            block(
                vec![],
                vec![for_loop(
                    "i",
                    num(0),
                    num(3),
                    block(
                        vec![],
                        vec![
                            for_loop("j", num(0), num(3), block(vec![], vec![Statement::Break])),
                            Statement::Break,
                        ],
                    ),
                )],
            ),
        )],
    };
    let (_, llir) = lower(p);
    let jumps: Vec<String> = llir.method_defs[0]
        .insts
        .iter()
        .filter_map(|i| match i {
            Inst::Jump(l) => Some(l.clone()),
            _ => None,
        })
        .collect();
    assert_eq!(jumps, vec!["__LForE1", "__LForB1", "__LForE0", "__LForB0"]);
}

#[test]
fn every_local_and_argument_gets_a_stack_slot() {
    let p = Program {
        field_decls: vec![field(Type::Int, "g", None)],
        method_decls: vec![method(
            Type::Void,
            "main",
            vec![],
            block(
                vec![decl(Type::Int, &["a", "b"]), decl(Type::Bool, &["c"])],
                vec![
                    Statement::Block(block(vec![decl(Type::Int, &["d"])], vec![])),
                    for_loop("i", num(0), num(1), block(vec![decl(Type::Int, &["e"])], vec![])),
                ],
            ),
        ),
        ],
    };
    let (root, llir) = lower(p);
    let slots: Vec<String> = llir.method_defs[0]
        .insts
        .iter()
        .filter_map(|i| match i {
            Inst::Alloca(d) => Some(root.var_decls[d.decl.id].name.clone()),
            _ => None,
        })
        .collect();
    assert_eq!(slots, vec!["a", "b", "c", "d", "i", "e"]);
}

#[test]
fn sizes_in_bytes() {
    assert_eq!(LType::Int { len: 1 }.get_bytesize(), 4);
    assert_eq!(LType::Int { len: 100 }.get_bytesize(), 400);
    assert_eq!(LType::Bool { len: 3 }.get_bytesize(), 12);
    assert_eq!(LType::String { len: 5 }.get_bytesize(), 6);
    assert_eq!(LType::String { len: 0 }.get_bytesize(), 1);
    assert_eq!(LType::Void.get_bytesize(), 0);
    assert_eq!(LType::Int { len: 0 }.get_bytesize(), 0);
    assert_eq!(LType::Int { len: u32::MAX / 4 }.get_bytesize(), u32::MAX - 3);
    assert_eq!(LType::String { len: u32::MAX - 1 }.get_bytesize(), u32::MAX);
}

#[test]
fn lowered_types() {
    assert_eq!(ir::Type::Int.to_llir_type(7), LType::Int { len: 7 });
    assert_eq!(ir::Type::Bool.to_llir_type(1), LType::Bool { len: 1 });
    assert_eq!(ir::Type::Void.to_llir_type(9), LType::Void);
}

#[test]
fn labels_are_numbered_in_decimal() {
    let mut g = LabelGenerator::new();
    let mut last = (String::new(), String::new());
    for _ in 0..11 {
        last = g.get_for_labels();
    }
    assert_eq!(last, (String::from("__LForB10"), String::from("__LForE10")));
    assert_eq!(g.get_ifelse_labels(), (String::from("__LIfT0"), String::from("__LIfJ0")));
    assert_eq!(g.get_ifelse_labels(), (String::from("__LIfT1"), String::from("__LIfJ1")));
    assert_eq!(g.get_for_labels(), (String::from("__LForB11"), String::from("__LForE11")));
}

#[test]
fn first_labels() {
    let mut g = LabelGenerator::new();
    assert_eq!(g.get_for_labels(), (String::from("__LForB0"), String::from("__LForE0")));
    assert_eq!(g.get_for_labels(), (String::from("__LForB1"), String::from("__LForE1")));
}

#[test]
fn registers_are_numbered_from_zero() {
    let mut g = RegisterGenerator::new();
    assert_eq!(g.generate(), Register { id: 0 });
    assert_eq!(g.generate(), Register { id: 1 });
    assert_eq!(g.generate(), Register { id: 2 });
}

#[test]
fn context_lowers_one_method() {
    let root = SemanticAnalyzer::new().create_ir(sample()).unwrap();
    let globals = vec![VarDef { decl: root.root.field_decls[0] }, VarDef { decl: root.root.field_decls[1] }];
    let mut ctx = LLIRMethodGenContext::new(&globals);
    let main = ctx.generate_llir_method(&root, &root.root.method_decls[1]);
    assert_eq!(main.insts.len(), 30);
    assert!(matches!(&main.insts[9], Inst::Label(l) if l == "__LForB0"));
    let f = ctx.generate_llir_method(&root, &root.root.method_decls[0]);
    assert_eq!(f.insts.len(), 5);
    assert_eq!(f.args, vec![VarDef { decl: ir::VarDecl { id: 2 } }]);
    let again = ctx.generate_llir_method(&root, &root.root.method_decls[1]);
    assert!(matches!(&again.insts[9], Inst::Label(l) if l == "__LForB1"));
}

#[test]
fn context_keeps_definitions_and_instructions() {
    let mut ctx = LLIRMethodGenContext::new(&vec![]);
    let d = ir::VarDecl { id: 5 };
    ctx.add_var(&d);
    assert_eq!(ctx.get_var_def(&d), VarDef { decl: d });
    assert_eq!(ctx.new_register(), Register { id: 0 });
    ctx.push_inst(Inst::Return(None));
    assert!(ctx.find_for_labels(&ir::For { id: 3 }).is_none());
    let (begin, end) = ctx.enter_for(ir::For { id: 3 });
    assert_eq!((begin.as_str(), end.as_str()), ("__LForB0", "__LForE0"));
    ctx.enter_for(ir::For { id: 4 });
    assert_eq!(
        ctx.find_for_labels(&ir::For { id: 3 }),
        Some((String::from("__LForB0"), String::from("__LForE0")))
    );
    assert_eq!(
        ctx.find_for_labels(&ir::For { id: 4 }),
        Some((String::from("__LForB1"), String::from("__LForE1")))
    );
    ctx.leave_for();
    assert!(ctx.find_for_labels(&ir::For { id: 4 }).is_none());
    assert!(ctx.find_for_labels(&ir::For { id: 3 }).is_some());
    assert_eq!(ctx.new_ifelse_labels(), (String::from("__LIfT0"), String::from("__LIfJ0")));
}
