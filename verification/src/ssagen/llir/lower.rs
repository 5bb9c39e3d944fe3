//! What lowering has to produce, stated on the typed tree.
//!
//! Registers are numbered from zero within a method and labels are
//! numbered from zero within a program, both in the order of a
//! left-to-right, depth-first walk; each function here says which
//! instructions a construct becomes and which numbers are free after it.

use super::inst::{
    Binary, BranchView, CallArgView, CallView, CalleeView, Compare, CompareOp, InstView, Load,
    Location, Memory, Operand, Register, VarDef,
};
use crate::semantic_analyzer::ir;
use crate::ssagen::label_gen::{for_begin_label, for_end_label, if_join_label, if_then_label};
use vstd::prelude::*;

verus! {

/// The `n`-th register.
pub open spec fn reg(n: nat) -> Register {
    Register { id: n as u32 }
}

/// The `n`-th register as a place to write to.
pub open spec fn reg_loc(n: nat) -> Location {
    Location::Register(reg(n))
}

/// A register as a value to read.
pub open spec fn reg_value(r: Register) -> Operand {
    Operand::Location(Location::Register(r))
}

/// A variable as a whole, in memory.
pub open spec fn var_memory(d: ir::VarDecl) -> Memory {
    Memory { decl: VarDef { decl: d }, offset: None }
}

/// The instructions of an expression: `value` holds the result, and
/// `next` is the first register that is free after them.
pub struct LoweredExpr {
    pub insts: Seq<InstView>,
    pub next: nat,
    pub value: Register,
}

/// The instructions that compute the index of a use of a variable, and
/// the memory that the use stands for.
pub struct LoweredLocation {
    pub insts: Seq<InstView>,
    pub next: nat,
    pub memory: Memory,
}

/// The instructions that compute the arguments of a call.
pub struct LoweredArgs {
    pub insts: Seq<InstView>,
    pub next: nat,
    pub args: Seq<CallArgView>,
}

/// The numbers that are free: of registers, of loops and of conditionals.
pub struct Counters {
    pub regs: nat,
    pub fors: nat,
    pub ifs: nat,
}

impl Counters {
    /// Every number still fits the type that holds it.
    pub open spec fn fits(self) -> bool {
        self.regs <= u32::MAX && self.fors <= u32::MAX && self.ifs <= u32::MAX
    }

    pub open spec fn le(self, other: Counters) -> bool {
        self.regs <= other.regs && self.fors <= other.fors && self.ifs <= other.ifs
    }
}

/// The labels of a loop.
pub struct LoopLabels {
    pub begin: Seq<char>,
    pub end: Seq<char>,
}

/// A loop that encloses a statement, with its labels.
pub struct LoopEntry {
    pub for_: ir::For,
    pub labels: LoopLabels,
}

/// The labels of loop `f` among the first `n` of `loops`; where several
/// are of that loop, those of the last.
pub open spec fn find_loop(loops: Seq<LoopEntry>, f: ir::For, n: int) -> Option<LoopLabels>
    decreases n,
{
    if n <= 0 {
        None
    } else if loops[n - 1].for_ == f {
        Some(loops[n - 1].labels)
    } else {
        find_loop(loops, f, n - 1)
    }
}

/// The instructions of a statement, and the numbers free after them.
pub struct LoweredStmt {
    pub insts: Seq<InstView>,
    pub after: Counters,
}

pub open spec fn literal_value(l: ir::Literal) -> i32 {
    match l {
        ir::Literal::Int(v) => v,
        ir::Literal::Boolean(true) => 1,
        ir::Literal::Boolean(false) => 0,
    }
}

/// The instruction of a binary operator.
pub open spec fn binary_inst(op: ir::BinaryOp, b: Binary) -> InstView {
    match op {
        ir::BinaryOp::Add => InstView::IAdd(b),
        ir::BinaryOp::Sub => InstView::ISub(b),
        ir::BinaryOp::Mul => InstView::IMul(b),
        ir::BinaryOp::Div => InstView::IDiv(b),
        ir::BinaryOp::Mod => InstView::IMod(b),
        ir::BinaryOp::And => InstView::And(b),
        ir::BinaryOp::Or => InstView::Or(b),
        ir::BinaryOp::EQ => InstView::Cmp(compare(CompareOp::EQ, b)),
        ir::BinaryOp::NE => InstView::Cmp(compare(CompareOp::NE, b)),
        ir::BinaryOp::GT => InstView::Cmp(compare(CompareOp::GT, b)),
        ir::BinaryOp::LT => InstView::Cmp(compare(CompareOp::LT, b)),
        ir::BinaryOp::GE => InstView::Cmp(compare(CompareOp::GE, b)),
        ir::BinaryOp::LE => InstView::Cmp(compare(CompareOp::LE, b)),
    }
}

pub open spec fn compare(op: CompareOp, b: Binary) -> Compare {
    Compare { op: op, dst: b.dst, lhs: b.lhs, rhs: b.rhs }
}

/// The instruction of a unary operator: zero minus the operand, or the
/// comparison of the operand with zero.
pub open spec fn unary_inst(op: ir::UnaryOp, dst: Location, operand: Operand) -> InstView {
    match op {
        ir::UnaryOp::NegInt => InstView::ISub(
            Binary { dst: dst, lhs: Operand::Literal(0), rhs: operand },
        ),
        ir::UnaryOp::NegBool => InstView::Cmp(
            Compare { op: CompareOp::EQ, dst: dst, lhs: operand, rhs: Operand::Literal(0) },
        ),
    }
}

/// The instruction of an assignment: for `=`, zero plus the value.
pub open spec fn assign_inst(op: ir::AssignOp, dst: Location, value: Operand) -> InstView {
    match op {
        ir::AssignOp::Assign => InstView::IAdd(
            Binary { dst: dst, lhs: Operand::Literal(0), rhs: value },
        ),
        ir::AssignOp::AddAssign => InstView::IAdd(
            Binary { dst: dst, lhs: Operand::Location(dst), rhs: value },
        ),
        ir::AssignOp::SubAssign => InstView::ISub(
            Binary { dst: dst, lhs: Operand::Location(dst), rhs: value },
        ),
        ir::AssignOp::MulAssign => InstView::IMul(
            Binary { dst: dst, lhs: Operand::Location(dst), rhs: value },
        ),
        ir::AssignOp::DivAssign => InstView::IDiv(
            Binary { dst: dst, lhs: Operand::Location(dst), rhs: value },
        ),
    }
}

/// A use of a variable as a place in memory: the index, where there is
/// one, is computed into a register, which becomes the offset.
pub open spec fn lower_location(next: nat, l: ir::Location) -> LoweredLocation
    decreases l, 0nat,
{
    match l.arr_size {
        Some(index) => {
            let i = lower_expr(next, *index);
            LoweredLocation {
                insts: i.insts,
                next: i.next,
                memory: Memory {
                    decl: VarDef { decl: l.decl },
                    offset: Some(Box::new(Location::Register(i.value))),
                },
            }
        },
        None => LoweredLocation { insts: Seq::empty(), next: next, memory: var_memory(l.decl) },
    }
}

/// The first `n` arguments of a method call, each computed into a
/// register.
pub open spec fn lower_args(next: nat, args: Seq<ir::Expr>, n: int) -> LoweredArgs
    decreases args, n,
{
    if n <= 0 || n > args.len() {
        LoweredArgs { insts: Seq::empty(), next: next, args: Seq::empty() }
    } else {
        let before = lower_args(next, args, n - 1);
        let e = lower_expr(before.next, *args[n - 1]);
        LoweredArgs {
            insts: before.insts + e.insts,
            next: e.next,
            args: before.args.push(CallArgView::Value(reg_value(e.value))),
        }
    }
}

/// The first `n` arguments of a callout: an expression is computed into a
/// register, a text is passed as it is.
pub open spec fn lower_callout_args(next: nat, args: Seq<ir::CalloutArg>, n: int) -> LoweredArgs
    decreases args, n,
{
    if n <= 0 || n > args.len() {
        LoweredArgs { insts: Seq::empty(), next: next, args: Seq::empty() }
    } else {
        let before = lower_callout_args(next, args, n - 1);
        match args[n - 1] {
            ir::CalloutArg::Expr(e) => {
                let e = lower_expr(before.next, *e);
                LoweredArgs {
                    insts: before.insts + e.insts,
                    next: e.next,
                    args: before.args.push(CallArgView::Value(reg_value(e.value))),
                }
            },
            ir::CalloutArg::StringLiteral(s) => LoweredArgs {
                args: before.args.push(CallArgView::Text(s@)),
                ..before
            },
        }
    }
}

/// A call: the arguments in order, then the call itself. Where the
/// result is wanted, it goes to a new register.
pub open spec fn lower_call(next: nat, c: ir::Call, valued: bool) -> LoweredExpr
    decreases c, 0nat,
{
    let args = match c {
        ir::Call::Method(m) => lower_args(next, m.args@, m.args@.len() as int),
        ir::Call::Callout(c) => lower_callout_args(next, c.args@, c.args@.len() as int),
    };
    let callee = match c {
        ir::Call::Method(m) => CalleeView::Method(m.decl),
        ir::Call::Callout(c) => CalleeView::Callout(c.name@),
    };
    LoweredExpr {
        insts: args.insts.push(
            InstView::Call(
                CallView {
                    dst: if valued {
                        Some(reg(args.next))
                    } else {
                        None
                    },
                    callee: callee,
                    args: args.args,
                },
            ),
        ),
        next: if valued {
            args.next + 1
        } else {
            args.next
        },
        value: reg(args.next),
    }
}

/// An expression: its operands first, left to right, then one
/// instruction that puts the result into a new register. A variable is
/// loaded, a literal is added to zero.
pub open spec fn lower_expr(next: nat, e: ir::Expr0) -> LoweredExpr
    decreases e, 0nat,
{
    match e.expr {
        ir::ExprType::Location(l) => {
            let m = lower_location(next, l);
            LoweredExpr {
                insts: m.insts.push(InstView::Load(Load { dst: reg(m.next), src: m.memory })),
                next: m.next + 1,
                value: reg(m.next),
            }
        },
        ir::ExprType::Literal(l) => LoweredExpr {
            insts: seq![
                InstView::IAdd(
                    Binary {
                        dst: reg_loc(next),
                        lhs: Operand::Literal(0),
                        rhs: Operand::Literal(literal_value(l)),
                    },
                ),
            ],
            next: next + 1,
            value: reg(next),
        },
        ir::ExprType::Call(c) => lower_call(next, c, true),
        ir::ExprType::Unary(u) => {
            let x = lower_expr(next, *u.expr);
            LoweredExpr {
                insts: x.insts.push(unary_inst(u.op, reg_loc(x.next), reg_value(x.value))),
                next: x.next + 1,
                value: reg(x.next),
            }
        },
        ir::ExprType::Binary(b) => {
            let l = lower_expr(next, *b.lhs);
            let r = lower_expr(l.next, *b.rhs);
            LoweredExpr {
                insts: (l.insts + r.insts).push(
                    binary_inst(
                        b.op,
                        Binary {
                            dst: reg_loc(r.next),
                            lhs: reg_value(l.value),
                            rhs: reg_value(r.value),
                        },
                    ),
                ),
                next: r.next + 1,
                value: reg(r.next),
            }
        },
    }
}

/// An assignment: the place, then the value, then one instruction that
/// writes to the place.
pub open spec fn lower_assign(next: nat, a: ir::Assign) -> LoweredExpr {
    let dst = lower_location(next, a.dst);
    let val = lower_expr(dst.next, *a.val);
    LoweredExpr {
        insts: (dst.insts + val.insts).push(
            assign_inst(a.op, Location::Memory(dst.memory), reg_value(val.value)),
        ),
        next: val.next,
        value: val.value,
    }
}

/// One stack slot for each of the variables, in order.
pub open spec fn allocas(decls: Seq<ir::VarDecl>) -> Seq<InstView> {
    decls.map_values(|d: ir::VarDecl| InstView::Alloca(VarDef { decl: d }))
}

/// A conditional: the condition; a branch, where it is false, to the
/// second arm or, without one, behind the conditional; the first arm;
/// with a second arm, a jump behind the conditional, the label of the
/// second arm and that arm; the label behind the conditional.
pub open spec fn lower_ifelse(c: Counters, loops: Seq<LoopEntry>, i: ir::IfElse0) -> LoweredStmt
    decreases i, 0nat,
{
    let cond = lower_expr(c.regs, *i.cond);
    let then_label = if_then_label(c.ifs);
    let join_label = if_join_label(c.ifs);
    let first = lower_opt_block(
        Counters { regs: cond.next, ifs: c.ifs + 1, ..c },
        loops,
        i.true_block,
    );
    match i.false_block {
        Some(b) => {
            let second = lower_block(first.after, loops, b);
            LoweredStmt {
                insts: cond.insts.push(
                    InstView::Branch(
                        BranchView { cond: reg_value(cond.value), on: false, target: then_label },
                    ),
                ) + first.insts + seq![InstView::Jump(join_label), InstView::Label(then_label)]
                    + second.insts + seq![InstView::Label(join_label)],
                after: second.after,
            }
        },
        None => LoweredStmt {
            insts: cond.insts.push(
                InstView::Branch(
                    BranchView { cond: reg_value(cond.value), on: false, target: join_label },
                ),
            ) + first.insts + seq![InstView::Label(join_label)],
            after: first.after,
        },
    }
}

/// A loop. Before it, the first bound is computed and the index, in its
/// own stack slot, is set to one less. At the head, the index goes up by
/// one, the second bound is computed, and a branch leaves the loop where
/// the index is not below it. The body follows, then a jump to the head,
/// then the label behind the loop.
pub open spec fn lower_for(c: Counters, loops: Seq<LoopEntry>, f: ir::For0) -> LoweredStmt
    decreases f, 0nat,
{
    let start = lower_expr(c.regs, *f.start);
    let index = Location::Memory(var_memory(f.index_decl));
    let labels = LoopLabels { begin: for_begin_label(c.fors), end: for_end_label(c.fors) };
    let end = lower_expr(start.next, *f.end);
    let body = lower_opt_block(
        Counters { regs: end.next + 1, fors: c.fors + 1, ..c },
        loops.push(LoopEntry { for_: f.id, labels: labels }),
        f.block,
    );
    LoweredStmt {
        insts: start.insts + seq![
            InstView::Alloca(VarDef { decl: f.index_decl }),
            InstView::ISub(
                Binary { dst: index, lhs: reg_value(start.value), rhs: Operand::Literal(1) },
            ),
            InstView::Label(labels.begin),
            InstView::IAdd(
                Binary { dst: index, lhs: Operand::Location(index), rhs: Operand::Literal(1) },
            ),
        ] + end.insts + seq![
            InstView::Cmp(
                Compare {
                    op: CompareOp::LT,
                    dst: reg_loc(end.next),
                    lhs: Operand::Location(index),
                    rhs: reg_value(end.value),
                },
            ),
            InstView::Branch(
                BranchView { cond: reg_value(reg(end.next)), on: false, target: labels.end },
            ),
        ] + body.insts + seq![InstView::Jump(labels.begin), InstView::Label(labels.end)],
        after: body.after,
    }
}

/// A statement. `break` jumps behind the loop it names and `continue`
/// to its head; one that names no enclosing loop becomes nothing.
pub open spec fn lower_stmt(c: Counters, loops: Seq<LoopEntry>, s: ir::Statement0) -> LoweredStmt
    decreases s, 0nat,
{
    match s {
        ir::Statement0::Assign(a) => {
            let a = lower_assign(c.regs, a);
            LoweredStmt { insts: a.insts, after: Counters { regs: a.next, ..c } }
        },
        ir::Statement0::Call(call) => {
            let call = lower_call(c.regs, call, false);
            LoweredStmt { insts: call.insts, after: Counters { regs: call.next, ..c } }
        },
        ir::Statement0::IfElse(i) => lower_ifelse(c, loops, i),
        ir::Statement0::For(f) => lower_for(c, loops, f),
        ir::Statement0::Return(r) => match r.val {
            Some(e) => {
                let e = lower_expr(c.regs, *e);
                LoweredStmt {
                    insts: e.insts.push(InstView::Return(Some(reg_value(e.value)))),
                    after: Counters { regs: e.next, ..c },
                }
            },
            None => LoweredStmt { insts: seq![InstView::Return(None)], after: c },
        },
        ir::Statement0::Break(b) => LoweredStmt {
            insts: match find_loop(loops, b.for_, loops.len() as int) {
                Some(l) => seq![InstView::Jump(l.end)],
                None => Seq::empty(),
            },
            after: c,
        },
        ir::Statement0::Continue(b) => LoweredStmt {
            insts: match find_loop(loops, b.for_, loops.len() as int) {
                Some(l) => seq![InstView::Jump(l.begin)],
                None => Seq::empty(),
            },
            after: c,
        },
        ir::Statement0::Block(b) => lower_block(c, loops, b),
    }
}

/// The first `n` of the statements `ss`, one after the other.
pub open spec fn lower_stmts(
    c: Counters,
    loops: Seq<LoopEntry>,
    ss: Seq<ir::Statement0>,
    n: int,
) -> LoweredStmt
    decreases ss, n,
{
    if n <= 0 || n > ss.len() {
        LoweredStmt { insts: Seq::empty(), after: c }
    } else {
        let before = lower_stmts(c, loops, ss, n - 1);
        let s = lower_stmt(before.after, loops, ss[n - 1]);
        LoweredStmt { insts: before.insts + s.insts, after: s.after }
    }
}

/// A block: a stack slot for each of its variables, then its statements.
pub open spec fn lower_block(c: Counters, loops: Seq<LoopEntry>, b: ir::Block) -> LoweredStmt
    decreases b, 0nat,
{
    let ss = lower_stmts(c, loops, b.statements@, b.statements@.len() as int);
    LoweredStmt { insts: allocas(b.var_decls@) + ss.insts, after: ss.after }
}

/// A block that may be missing; a missing one is empty.
pub open spec fn lower_opt_block(
    c: Counters,
    loops: Seq<LoopEntry>,
    b: Option<ir::Block>,
) -> LoweredStmt
    decreases b, 1nat,
{
    match b {
        Some(b) => lower_block(c, loops, b),
        None => LoweredStmt { insts: Seq::empty(), after: c },
    }
}

/// A method: a stack slot for each argument, then the body, with the
/// registers numbered from zero.
pub open spec fn lower_method(labels: Counters, m: ir::MethodDecl0) -> LoweredStmt {
    let body = lower_opt_block(Counters { regs: 0, ..labels }, Seq::empty(), m.block);
    LoweredStmt { insts: allocas(m.args@) + body.insts, after: body.after }
}

/// Lowering never gives a register back.
pub proof fn lemma_expr_grows(next: nat, e: ir::Expr0)
    ensures
        lower_expr(next, e).next > next,
    decreases e, 0nat,
{
    match e.expr {
        ir::ExprType::Location(l) => {
            lemma_location_grows(next, l);
        },
        ir::ExprType::Literal(_) => {},
        ir::ExprType::Call(c) => {
            lemma_call_grows(next, c, true);
        },
        ir::ExprType::Unary(u) => {
            lemma_expr_grows(next, *u.expr);
        },
        ir::ExprType::Binary(b) => {
            lemma_expr_grows(next, *b.lhs);
            lemma_expr_grows(lower_expr(next, *b.lhs).next, *b.rhs);
        },
    }
}

/// Lowering never gives a register back.
pub proof fn lemma_location_grows(next: nat, l: ir::Location)
    ensures
        lower_location(next, l).next >= next,
    decreases l, 0nat,
{
    match l.arr_size {
        Some(index) => {
            lemma_expr_grows(next, *index);
        },
        None => {},
    }
}

/// Lowering never gives a register back.
pub proof fn lemma_args_grow(next: nat, args: Seq<ir::Expr>, n: int, m: int)
    requires
        0 <= n <= m <= args.len(),
    ensures
        next <= lower_args(next, args, n).next <= lower_args(next, args, m).next,
    decreases args, m,
{
    if m > 0 {
        if n < m {
            lemma_args_grow(next, args, n, m - 1);
        } else {
            lemma_args_grow(next, args, m - 1, m - 1);
        }
        lemma_expr_grows(lower_args(next, args, m - 1).next, *args[m - 1]);
    }
}

/// Lowering never gives a register back.
pub proof fn lemma_callout_args_grow(next: nat, args: Seq<ir::CalloutArg>, n: int, m: int)
    requires
        0 <= n <= m <= args.len(),
    ensures
        next <= lower_callout_args(next, args, n).next <= lower_callout_args(next, args, m).next,
    decreases args, m,
{
    if m > 0 {
        if n < m {
            lemma_callout_args_grow(next, args, n, m - 1);
        } else {
            lemma_callout_args_grow(next, args, m - 1, m - 1);
        }
        match args[m - 1] {
            ir::CalloutArg::Expr(e) => {
                lemma_expr_grows(lower_callout_args(next, args, m - 1).next, *e);
            },
            ir::CalloutArg::StringLiteral(_) => {},
        }
    }
}

/// Lowering never gives a register back.
pub proof fn lemma_call_grows(next: nat, c: ir::Call, valued: bool)
    ensures
        lower_call(next, c, valued).next >= next,
        valued ==> lower_call(next, c, valued).next > next,
    decreases c, 0nat,
{
    match c {
        ir::Call::Method(m) => {
            lemma_args_grow(next, m.args@, 0, m.args@.len() as int);
        },
        ir::Call::Callout(c) => {
            lemma_callout_args_grow(next, c.args@, 0, c.args@.len() as int);
        },
    }
}

/// Lowering never gives a number back.
pub proof fn lemma_stmt_grows(c: Counters, loops: Seq<LoopEntry>, s: ir::Statement0)
    ensures
        c.le(lower_stmt(c, loops, s).after),
    decreases s, 0nat,
{
    match s {
        ir::Statement0::Assign(a) => {
            lemma_location_grows(c.regs, a.dst);
            lemma_expr_grows(lower_location(c.regs, a.dst).next, *a.val);
        },
        ir::Statement0::Call(call) => {
            lemma_call_grows(c.regs, call, false);
        },
        ir::Statement0::IfElse(i) => {
            lemma_expr_grows(c.regs, *i.cond);
            let inner = Counters { regs: lower_expr(c.regs, *i.cond).next, ifs: c.ifs + 1, ..c };
            lemma_opt_block_grows(inner, loops, i.true_block);
            if i.false_block is Some {
                lemma_block_grows(
                    lower_opt_block(inner, loops, i.true_block).after,
                    loops,
                    i.false_block->0,
                );
            }
        },
        ir::Statement0::For(f) => {
            lemma_expr_grows(c.regs, *f.start);
            let start = lower_expr(c.regs, *f.start);
            lemma_expr_grows(start.next, *f.end);
            let end = lower_expr(start.next, *f.end);
            let labels = LoopLabels { begin: for_begin_label(c.fors), end: for_end_label(c.fors) };
            lemma_opt_block_grows(
                Counters { regs: end.next + 1, fors: c.fors + 1, ..c },
                loops.push(LoopEntry { for_: f.id, labels: labels }),
                f.block,
            );
        },
        ir::Statement0::Return(r) => {
            if r.val is Some {
                lemma_expr_grows(c.regs, *r.val->0);
            }
        },
        ir::Statement0::Break(_) => {},
        ir::Statement0::Continue(_) => {},
        ir::Statement0::Block(b) => {
            lemma_block_grows(c, loops, b);
        },
    }
}

/// Lowering never gives a number back.
pub proof fn lemma_stmts_grow(
    c: Counters,
    loops: Seq<LoopEntry>,
    ss: Seq<ir::Statement0>,
    n: int,
    m: int,
)
    requires
        0 <= n <= m <= ss.len(),
    ensures
        c.le(lower_stmts(c, loops, ss, n).after),
        lower_stmts(c, loops, ss, n).after.le(lower_stmts(c, loops, ss, m).after),
    decreases ss, m,
{
    if m > 0 {
        if n < m {
            lemma_stmts_grow(c, loops, ss, n, m - 1);
        } else {
            lemma_stmts_grow(c, loops, ss, m - 1, m - 1);
        }
        lemma_stmt_grows(lower_stmts(c, loops, ss, m - 1).after, loops, ss[m - 1]);
    }
}

/// Lowering never gives a number back.
pub proof fn lemma_block_grows(c: Counters, loops: Seq<LoopEntry>, b: ir::Block)
    ensures
        c.le(lower_block(c, loops, b).after),
    decreases b, 0nat,
{
    lemma_stmts_grow(c, loops, b.statements@, 0, b.statements@.len() as int);
}

/// Lowering never gives a number back.
pub proof fn lemma_opt_block_grows(c: Counters, loops: Seq<LoopEntry>, b: Option<ir::Block>)
    ensures
        c.le(lower_opt_block(c, loops, b).after),
    decreases b, 1nat,
{
    if b is Some {
        lemma_block_grows(c, loops, b->0);
    }
}

} // verus!
