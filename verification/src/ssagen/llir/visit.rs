//! The walk that lowers a method: every construct appends its
//! instructions to those of the context.

use super::inst::{
    InstView,
    insts_view, Binary, Branch, Call, CallArg, Callee, Compare, CompareOp, Inst, Load, Location,
    Memory, Operand, Register, VarDef,
};
use super::llir_method_gen_context::{ContextView, LLIRMethodGenContext};
use super::lower::{
    allocas, lemma_args_grow, lemma_block_grows, lemma_callout_args_grow, lemma_expr_grows,
    lemma_opt_block_grows, lemma_stmts_grow, lower_args, lower_assign, lower_block, lower_call,
    lower_callout_args, lower_expr, lower_for, lower_ifelse, lower_location, lower_method,
    lower_opt_block, lower_stmt, lower_stmts, Counters, LoweredStmt,
};
use super::{MethodDef0, ToLLIRType};
use crate::semantic_analyzer::ir as sir;
use crate::semantic_analyzer::scoping::{
    block_scoped, call_scoped, callout_arg_scoped, expr_scoped, lemma_opt_block_scoped_grows,
    lemma_stmt_scoped_grows, location_scoped, method_scoped, opt_block_scoped, stmt_scoped,
};
use vstd::prelude::*;

verus! {

/// `def` is the lowering of method `m` of `ir`, made with the labels that
/// were free in `labels`.
pub open spec fn is_lowering_of(
    def: MethodDef0,
    labels: Counters,
    ir: sir::IRRoot,
    m: sir::MethodDecl,
) -> bool {
    &&& def.decl == m
    &&& def.args@ == var_defs(ir.decls().method(m).args@)
    &&& def.return_type == ir.decls().method(m).return_type.llir_type(1)
    &&& insts_view(def.insts@) == lower_method(labels, ir.decls().method(m)).insts
}

/// The state after the instructions `insts` were emitted and the
/// registers up to `next` were used.
pub open spec fn after_expr(before: ContextView, insts: Seq<InstView>, next: nat) -> ContextView {
    ContextView {
        emitted: before.emitted + insts,
        counters: Counters { regs: next, ..before.counters },
        ..before
    }
}

/// The definitions of the variables `decls`, in order.
pub open spec fn var_defs(decls: Seq<sir::VarDecl>) -> Seq<VarDef> {
    decls.map_values(|d: sir::VarDecl| VarDef { decl: d })
}

/// The state after the instructions of a statement were emitted and the
/// variables that it declares got their definitions.
pub open spec fn after_stmt(before: ContextView, s: LoweredStmt, made: sir::Made) -> ContextView {
    ContextView {
        emitted: before.emitted + s.insts,
        counters: s.after,
        vars: before.vars + var_defs(made.vars),
        ..before
    }
}

/// The definitions of one list of variables after another are those of
/// the two lists, one after the other.
pub proof fn lemma_var_defs_join(a: Seq<sir::VarDecl>, b: Seq<sir::VarDecl>)
    ensures
        var_defs(a + b) == var_defs(a) + var_defs(b),
{
    assert(var_defs(a + b) =~= var_defs(a) + var_defs(b));
}

/// After the variables `decls` got definitions, they are visible
/// besides those that were.
pub proof fn lemma_visible_after(before: ContextView, after: ContextView, decls: Seq<sir::VarDecl>)
    requires
        after.vars == before.vars + var_defs(decls),
    ensures
        after.visible() == before.visible() + decls.to_set(),
        before.visible().subset_of(after.visible()),
{
    assert forall|d: sir::VarDecl| after.visible().contains(d) implies (before.visible()
        + decls.to_set()).contains(d) by {
        let i = choose|i: int| 0 <= i < after.vars.len() && after.vars[i] == (VarDef { decl: d });
        if i < before.vars.len() {
            assert(before.vars[i] == (VarDef { decl: d }));
        } else {
            assert(decls[i - before.vars.len()] == d);
        }
    }
    assert forall|d: sir::VarDecl| (before.visible() + decls.to_set()).contains(
        d,
    ) implies after.visible().contains(d) by {
        if before.visible().contains(d) {
            let i = choose|i: int|
                0 <= i < before.vars.len() && before.vars[i] == (VarDef { decl: d });
            assert(after.vars[i] == (VarDef { decl: d }));
        } else {
            let k = choose|k: int| 0 <= k < decls.len() && decls[k] == d;
            assert(after.vars[before.vars.len() + k] == (VarDef { decl: d }));
        }
    }
    assert(after.visible() =~= before.visible() + decls.to_set());
}

/// Where some variables are fresh, those that come first among them are.
pub proof fn lemma_fresh_prefix(c: ContextView, whole: Seq<sir::VarDecl>, part: Seq<sir::VarDecl>)
    requires
        c.fresh(whole),
        part.is_prefix_of(whole),
    ensures
        c.fresh(part),
{
    let a = c.vars + var_defs(part);
    let b = c.vars + var_defs(whole);
    assert forall|i: int, j: int| 0 <= i < a.len() && 0 <= j < a.len() && i != j implies a[i]
        != a[j] by {
        assert(a[i] == b[i]);
        assert(a[j] == b[j]);
    }
}

/// Where some variables are fresh, none of them has a definition after
/// those before it got theirs.
pub proof fn lemma_fresh_next(c: ContextView, decls: Seq<sir::VarDecl>, i: int)
    requires
        c.fresh(decls),
        0 <= i < decls.len(),
    ensures
        !(c.vars + var_defs(decls.take(i))).contains(VarDef { decl: decls[i] }),
{
    let b = c.vars + var_defs(decls);
    let a = c.vars + var_defs(decls.take(i));
    if a.contains(VarDef { decl: decls[i] }) {
        let k = choose|k: int| 0 <= k < a.len() && a[k] == (VarDef { decl: decls[i] });
        assert(b[k] == a[k]);
        assert(b[c.vars.len() + i] == (VarDef { decl: decls[i] }));
    }
}

/// Where some variables are fresh, those behind the first ones are fresh
/// after the first ones got their definitions.
pub proof fn lemma_fresh_rest(
    c: ContextView,
    after: ContextView,
    first: Seq<sir::VarDecl>,
    rest: Seq<sir::VarDecl>,
)
    requires
        c.fresh(first + rest),
        after.vars == c.vars + var_defs(first),
    ensures
        after.fresh(rest),
        c.fresh(first),
{
    assert(after.vars + var_defs(rest) =~= c.vars + var_defs(first + rest));
    assert(first =~= (first + rest).subrange(0, first.len() as int));
    lemma_fresh_prefix(c, first + rest, first);
}

impl LLIRMethodGenContext {
    /// Lowers a use of a variable to the memory it stands for.
    pub fn visit_location(&mut self, l: &sir::Location) -> (res: Memory)
        requires
            lower_location(old(self)@.counters.regs, *l).next <= u32::MAX,
            location_scoped(old(self)@.visible(), *l),
        ensures
            res == lower_location(old(self)@.counters.regs, *l).memory,
            final(self)@ == after_expr(
                old(self)@,
                lower_location(old(self)@.counters.regs, *l).insts,
                lower_location(old(self)@.counters.regs, *l).next,
            ),
        decreases l,
    {
        match &l.arr_size {
            Some(index) => {
                let r = self.visit_expr(&**index);
                Memory {
                    decl: self.get_var_def(&l.decl),
                    offset: Some(Box::new(Location::Register(r))),
                }
            },
            None => {
                assert(self@.emitted =~= old(self)@.emitted + Seq::empty());
                Memory { decl: self.get_var_def(&l.decl), offset: None }
            },
        }
    }

    /// Lowers the arguments of a method call.
    pub fn visit_args(&mut self, args: &Vec<sir::Expr>) -> (res: Vec<CallArg>)
        requires
            lower_args(old(self)@.counters.regs, args@, args@.len() as int).next <= u32::MAX,
            forall|i: int|
                0 <= i < args@.len() ==> expr_scoped(old(self)@.visible(), *#[trigger] args@[i]),
        ensures
            res@.map_values(|a: CallArg| a@) == lower_args(
                old(self)@.counters.regs,
                args@,
                args@.len() as int,
            ).args,
            final(self)@ == after_expr(
                old(self)@,
                lower_args(old(self)@.counters.regs, args@, args@.len() as int).insts,
                lower_args(old(self)@.counters.regs, args@, args@.len() as int).next,
            ),
        decreases args@,
    {
        let ghost start = old(self)@;
        let mut res: Vec<CallArg> = Vec::new();
        let mut i: usize = 0;
        assert(self@.emitted =~= start.emitted + Seq::empty());
        assert(res@.map_values(|a: CallArg| a@) =~= Seq::empty());
        while i < args.len()
            invariant
                i <= args@.len(),
                res@.len() == i,
                lower_args(start.counters.regs, args@, args@.len() as int).next <= u32::MAX,
                forall|k: int|
                    0 <= k < args@.len() ==> expr_scoped(start.visible(), *#[trigger] args@[k]),
                res@.map_values(|a: CallArg| a@) == lower_args(
                    start.counters.regs,
                    args@,
                    i as int,
                ).args,
                self@ == after_expr(
                    start,
                    lower_args(start.counters.regs, args@, i as int).insts,
                    lower_args(start.counters.regs, args@, i as int).next,
                ),
            decreases args@.len() - i,
        {
            let ghost before = lower_args(start.counters.regs, args@, i as int);
            proof {
                lemma_args_grow(start.counters.regs, args@, i + 1, args@.len() as int);
            }
            let r = self.visit_expr(&*args[i]);
            let ghost built = res@;
            res.push(CallArg::Value(Operand::Location(Location::Register(r))));
            assert(res@.map_values(|a: CallArg| a@) =~= built.map_values(|a: CallArg| a@).push(
                res@[i as int]@,
            ));
            assert(self@.emitted =~= start.emitted + lower_args(
                start.counters.regs,
                args@,
                i + 1,
            ).insts);
            i = i + 1;
        }
        res
    }

    /// Lowers the arguments of a callout.
    pub fn visit_callout_args(&mut self, args: &Vec<sir::CalloutArg>) -> (res: Vec<CallArg>)
        requires
            lower_callout_args(old(self)@.counters.regs, args@, args@.len() as int).next
                <= u32::MAX,
            forall|i: int|
                0 <= i < args@.len() ==> callout_arg_scoped(
                    old(self)@.visible(),
                    #[trigger] args@[i],
                ),
        ensures
            res@.map_values(|a: CallArg| a@) == lower_callout_args(
                old(self)@.counters.regs,
                args@,
                args@.len() as int,
            ).args,
            final(self)@ == after_expr(
                old(self)@,
                lower_callout_args(old(self)@.counters.regs, args@, args@.len() as int).insts,
                lower_callout_args(old(self)@.counters.regs, args@, args@.len() as int).next,
            ),
        decreases args@,
    {
        let ghost start = old(self)@;
        let mut res: Vec<CallArg> = Vec::new();
        let mut i: usize = 0;
        assert(self@.emitted =~= start.emitted + Seq::empty());
        assert(res@.map_values(|a: CallArg| a@) =~= Seq::empty());
        while i < args.len()
            invariant
                i <= args@.len(),
                res@.len() == i,
                lower_callout_args(start.counters.regs, args@, args@.len() as int).next
                    <= u32::MAX,
                forall|k: int|
                    0 <= k < args@.len() ==> callout_arg_scoped(
                        start.visible(),
                        #[trigger] args@[k],
                    ),
                res@.map_values(|a: CallArg| a@) == lower_callout_args(
                    start.counters.regs,
                    args@,
                    i as int,
                ).args,
                self@ == after_expr(
                    start,
                    lower_callout_args(start.counters.regs, args@, i as int).insts,
                    lower_callout_args(start.counters.regs, args@, i as int).next,
                ),
            decreases args@.len() - i,
        {
            proof {
                lemma_callout_args_grow(start.counters.regs, args@, i + 1, args@.len() as int);
            }
            let ghost built = res@;
            match &args[i] {
                sir::CalloutArg::Expr(e) => {
                    let r = self.visit_expr(&**e);
                    res.push(CallArg::Value(Operand::Location(Location::Register(r))));
                },
                sir::CalloutArg::StringLiteral(s) => {
                    res.push(CallArg::Text(s.clone()));
                },
            }
            assert(res@.map_values(|a: CallArg| a@) =~= built.map_values(|a: CallArg| a@).push(
                res@[i as int]@,
            ));
            assert(self@.emitted =~= start.emitted + lower_callout_args(
                start.counters.regs,
                args@,
                i + 1,
            ).insts);
            i = i + 1;
        }
        res
    }

    /// Lowers a call. The register that holds what the call returns comes
    /// back where `valued` asks for one.
    pub fn visit_call(&mut self, c: &sir::Call, valued: bool) -> (res: Option<Register>)
        requires
            lower_call(old(self)@.counters.regs, *c, valued).next <= u32::MAX,
            call_scoped(old(self)@.visible(), *c),
        ensures
            res == if valued {
                Some(lower_call(old(self)@.counters.regs, *c, valued).value)
            } else {
                None
            },
            final(self)@ == after_expr(
                old(self)@,
                lower_call(old(self)@.counters.regs, *c, valued).insts,
                lower_call(old(self)@.counters.regs, *c, valued).next,
            ),
        decreases c,
    {
        let (callee, args) = match c {
            sir::Call::Method(m) => (Callee::Method(m.decl), self.visit_args(&m.args)),
            sir::Call::Callout(c) => (
                Callee::Callout(c.name.clone()),
                self.visit_callout_args(&c.args),
            ),
        };
        let dst = if valued {
            Some(self.new_register())
        } else {
            None
        };
        self.push_inst(Inst::Call(Call { dst: dst, callee: callee, args: args }));
        assert(self@.emitted =~= old(self)@.emitted + lower_call(
            old(self)@.counters.regs,
            *c,
            valued,
        ).insts);
        dst
    }

    /// Lowers an expression; the register that holds its value comes
    /// back.
    pub fn visit_expr(&mut self, e: &sir::Expr0) -> (res: Register)
        requires
            lower_expr(old(self)@.counters.regs, *e).next <= u32::MAX,
            expr_scoped(old(self)@.visible(), *e),
        ensures
            res == lower_expr(old(self)@.counters.regs, *e).value,
            final(self)@ == after_expr(
                old(self)@,
                lower_expr(old(self)@.counters.regs, *e).insts,
                lower_expr(old(self)@.counters.regs, *e).next,
            ),
        decreases e,
    {
        let ghost regs = old(self)@.counters.regs;
        let res = match &e.expr {
            sir::ExprType::Location(l) => {
                let m = self.visit_location(l);
                let r = self.new_register();
                self.push_inst(Inst::Load(Load { dst: r, src: m }));
                r
            },
            sir::ExprType::Literal(l) => {
                let v: i32 = match l {
                    sir::Literal::Int(v) => *v,
                    sir::Literal::Boolean(b) => if *b {
                        1
                    } else {
                        0
                    },
                };
                let r = self.new_register();
                self.push_inst(
                    Inst::IAdd(
                        Binary {
                            dst: Location::Register(r),
                            lhs: Operand::Literal(0),
                            rhs: Operand::Literal(v),
                        },
                    ),
                );
                r
            },
            sir::ExprType::Call(c) => {
                let r = self.visit_call(c, true);
                r.unwrap()
            },
            sir::ExprType::Unary(u) => {
                let x = self.visit_expr(&*u.expr);
                let r = self.new_register();
                let operand = Operand::Location(Location::Register(x));
                let inst = match u.op {
                    sir::UnaryOp::NegInt => Inst::ISub(
                        Binary {
                            dst: Location::Register(r),
                            lhs: Operand::Literal(0),
                            rhs: operand,
                        },
                    ),
                    sir::UnaryOp::NegBool => Inst::Cmp(
                        Compare {
                            op: CompareOp::EQ,
                            dst: Location::Register(r),
                            lhs: operand,
                            rhs: Operand::Literal(0),
                        },
                    ),
                };
                self.push_inst(inst);
                r
            },
            sir::ExprType::Binary(b) => {
                proof {
                    lemma_expr_grows(lower_expr(regs, *b.lhs).next, *b.rhs);
                }
                let l = self.visit_expr(&*b.lhs);
                let r = self.visit_expr(&*b.rhs);
                let dst = self.new_register();
                let lhs = Operand::Location(Location::Register(l));
                let rhs = Operand::Location(Location::Register(r));
                let dst_loc = Location::Register(dst);
                let inst = match b.op {
                    sir::BinaryOp::Add => Inst::IAdd(Binary { dst: dst_loc, lhs: lhs, rhs: rhs }),
                    sir::BinaryOp::Sub => Inst::ISub(Binary { dst: dst_loc, lhs: lhs, rhs: rhs }),
                    sir::BinaryOp::Mul => Inst::IMul(Binary { dst: dst_loc, lhs: lhs, rhs: rhs }),
                    sir::BinaryOp::Div => Inst::IDiv(Binary { dst: dst_loc, lhs: lhs, rhs: rhs }),
                    sir::BinaryOp::Mod => Inst::IMod(Binary { dst: dst_loc, lhs: lhs, rhs: rhs }),
                    sir::BinaryOp::And => Inst::And(Binary { dst: dst_loc, lhs: lhs, rhs: rhs }),
                    sir::BinaryOp::Or => Inst::Or(Binary { dst: dst_loc, lhs: lhs, rhs: rhs }),
                    sir::BinaryOp::EQ => Inst::Cmp(
                        Compare { op: CompareOp::EQ, dst: dst_loc, lhs: lhs, rhs: rhs },
                    ),
                    sir::BinaryOp::NE => Inst::Cmp(
                        Compare { op: CompareOp::NE, dst: dst_loc, lhs: lhs, rhs: rhs },
                    ),
                    sir::BinaryOp::GT => Inst::Cmp(
                        Compare { op: CompareOp::GT, dst: dst_loc, lhs: lhs, rhs: rhs },
                    ),
                    sir::BinaryOp::LT => Inst::Cmp(
                        Compare { op: CompareOp::LT, dst: dst_loc, lhs: lhs, rhs: rhs },
                    ),
                    sir::BinaryOp::GE => Inst::Cmp(
                        Compare { op: CompareOp::GE, dst: dst_loc, lhs: lhs, rhs: rhs },
                    ),
                    sir::BinaryOp::LE => Inst::Cmp(
                        Compare { op: CompareOp::LE, dst: dst_loc, lhs: lhs, rhs: rhs },
                    ),
                };
                self.push_inst(inst);
                dst
            },
        };
        assert(self@.emitted =~= old(self)@.emitted + lower_expr(regs, *e).insts);
        res
    }

    /// Lowers an assignment.
    pub fn visit_assign(&mut self, a: &sir::Assign)
        requires
            lower_assign(old(self)@.counters.regs, *a).next <= u32::MAX,
            location_scoped(old(self)@.visible(), a.dst),
            expr_scoped(old(self)@.visible(), *a.val),
        ensures
            final(self)@ == after_expr(
                old(self)@,
                lower_assign(old(self)@.counters.regs, *a).insts,
                lower_assign(old(self)@.counters.regs, *a).next,
            ),
    {
        let ghost regs = old(self)@.counters.regs;
        proof {
            lemma_expr_grows(lower_location(regs, a.dst).next, *a.val);
        }
        let memory = self.visit_location(&a.dst);
        let value = self.visit_expr(&*a.val);
        let rhs = Operand::Location(Location::Register(value));
        let inst = match a.op {
            sir::AssignOp::Assign => Inst::IAdd(
                Binary { dst: Location::Memory(memory), lhs: Operand::Literal(0), rhs: rhs },
            ),
            sir::AssignOp::AddAssign => Inst::IAdd(
                Binary {
                    dst: Location::Memory(memory.clone()),
                    lhs: Operand::Location(Location::Memory(memory)),
                    rhs: rhs,
                },
            ),
            sir::AssignOp::SubAssign => Inst::ISub(
                Binary {
                    dst: Location::Memory(memory.clone()),
                    lhs: Operand::Location(Location::Memory(memory)),
                    rhs: rhs,
                },
            ),
            sir::AssignOp::MulAssign => Inst::IMul(
                Binary {
                    dst: Location::Memory(memory.clone()),
                    lhs: Operand::Location(Location::Memory(memory)),
                    rhs: rhs,
                },
            ),
            sir::AssignOp::DivAssign => Inst::IDiv(
                Binary {
                    dst: Location::Memory(memory.clone()),
                    lhs: Operand::Location(Location::Memory(memory)),
                    rhs: rhs,
                },
            ),
        };
        self.push_inst(inst);
        assert(self@.emitted =~= old(self)@.emitted + lower_assign(regs, *a).insts);
    }

    /// Emits a stack slot for each of the variables `decls`.
    pub fn visit_decls(&mut self, decls: &Vec<sir::VarDecl>)
        requires
            old(self)@.fresh(decls@),
        ensures
            final(self)@ == (ContextView {
                emitted: old(self)@.emitted + allocas(decls@),
                vars: old(self)@.vars + var_defs(decls@),
                ..old(self)@
            }),
    {
        let ghost start = old(self)@;
        let mut i: usize = 0;
        assert(start.emitted + allocas(decls@.take(0)) =~= start.emitted);
        assert(start.vars + var_defs(decls@.take(0)) =~= start.vars);
        while i < decls.len()
            invariant
                i <= decls@.len(),
                start.fresh(decls@),
                self@ == (ContextView {
                    emitted: start.emitted + allocas(decls@.take(i as int)),
                    vars: start.vars + var_defs(decls@.take(i as int)),
                    ..start
                }),
            decreases decls@.len() - i,
        {
            proof {
                lemma_fresh_next(start, decls@, i as int);
            }
            self.add_var(&decls[i]);
            self.push_inst(Inst::Alloca(VarDef { decl: decls[i] }));
            assert(self@.emitted =~= start.emitted + allocas(decls@.take(i + 1)));
            assert(self@.vars =~= start.vars + var_defs(decls@.take(i + 1)));
            i = i + 1;
        }
        assert(decls@.take(decls@.len() as int) =~= decls@);
    }

    /// Lowers a conditional.
    pub fn visit_ifelse(&mut self, i: &sir::IfElse0)
        requires
            lower_ifelse(old(self)@.counters, old(self)@.loops, *i).after.fits(),
            stmt_scoped(old(self)@.visible(), sir::Statement0::IfElse(*i)),
            old(self)@.fresh(sir::stmt_made(sir::Statement0::IfElse(*i)).vars),
        ensures
            final(self)@ == after_stmt(
                old(self)@,
                lower_ifelse(old(self)@.counters, old(self)@.loops, *i),
                sir::stmt_made(sir::Statement0::IfElse(*i)),
            ),
        decreases i,
    {
        let ghost start = old(self)@;
        let ghost c = start.counters;
        let ghost cond_low = lower_expr(c.regs, *i.cond);
        let ghost inner = Counters { regs: cond_low.next, ifs: c.ifs + 1, ..c };
        let ghost first = lower_opt_block(inner, start.loops, i.true_block);
        proof {
            lemma_expr_grows(c.regs, *i.cond);
            lemma_opt_block_grows(inner, start.loops, i.true_block);
            if i.false_block is Some {
                lemma_block_grows(first.after, start.loops, i.false_block->0);
            }
        }
        let cond = self.visit_expr(&*i.cond);
        let (then_label, join_label) = self.new_ifelse_labels();
        let target = match &i.false_block {
            Some(_) => then_label.clone(),
            None => join_label.clone(),
        };
        self.push_inst(
            Inst::Branch(
                Branch {
                    cond: Operand::Location(Location::Register(cond)),
                    on: false,
                    target: target,
                },
            ),
        );
        proof {
            lemma_fresh_rest(
                start,
                after_stmt(start, first, sir::opt_block_made(i.true_block)),
                sir::opt_block_made(i.true_block).vars,
                sir::opt_block_made(i.false_block).vars,
            );
            assert(self@.vars == start.vars);
        }
        self.visit_opt_block(&i.true_block);
        proof {
            lemma_visible_after(start, self@, sir::opt_block_made(i.true_block).vars);
            lemma_opt_block_scoped_grows(start.visible(), self@.visible(), i.false_block);
        }
        match &i.false_block {
            Some(b) => {
                self.push_inst(Inst::Jump(join_label.clone()));
                self.push_inst(Inst::Label(then_label));
                self.visit_block(b);
            },
            None => (),
        }
        self.push_inst(Inst::Label(join_label));
        assert(self@.emitted =~= start.emitted + lower_ifelse(c, start.loops, *i).insts);
        proof {
            lemma_var_defs_join(
                sir::opt_block_made(i.true_block).vars,
                sir::opt_block_made(i.false_block).vars,
            );
            assert(self@.vars =~= start.vars + var_defs(
                sir::stmt_made(sir::Statement0::IfElse(*i)).vars,
            ));
        }
    }

    /// Lowers a loop.
    pub fn visit_for(&mut self, f: &sir::For0)
        requires
            lower_for(old(self)@.counters, old(self)@.loops, *f).after.fits(),
            stmt_scoped(old(self)@.visible(), sir::Statement0::For(*f)),
            old(self)@.fresh(sir::stmt_made(sir::Statement0::For(*f)).vars),
        ensures
            final(self)@ == after_stmt(
                old(self)@,
                lower_for(old(self)@.counters, old(self)@.loops, *f),
                sir::stmt_made(sir::Statement0::For(*f)),
            ),
        decreases f,
    {
        let ghost start = old(self)@;
        let ghost c = start.counters;
        let ghost start_low = lower_expr(c.regs, *f.start);
        let ghost end_low = lower_expr(start_low.next, *f.end);
        proof {
            lemma_expr_grows(c.regs, *f.start);
            lemma_expr_grows(start_low.next, *f.end);
            lemma_opt_block_grows(
                Counters { regs: end_low.next + 1, fors: c.fors + 1, ..c },
                start.loops.push(
                    super::lower::LoopEntry {
                        for_: f.id,
                        labels: super::lower::LoopLabels {
                            begin: crate::ssagen::label_gen::for_begin_label(c.fors),
                            end: crate::ssagen::label_gen::for_end_label(c.fors),
                        },
                    },
                ),
                f.block,
            );
        }
        let first = self.visit_expr(&*f.start);
        proof {
            let made = sir::stmt_made(sir::Statement0::For(*f)).vars;
            assert(made[0] == f.index_decl);
            assert(made.take(0) =~= Seq::<sir::VarDecl>::empty());
            assert(start.vars + var_defs(made.take(0)) =~= start.vars);
            lemma_fresh_next(start, made, 0);
        }
        self.add_var(&f.index_decl);
        proof {
            assert(var_defs(seq![f.index_decl]) =~= seq![VarDef { decl: f.index_decl }]);
            assert(self@.vars =~= start.vars + var_defs(seq![f.index_decl]));
            lemma_visible_after(start, self@, seq![f.index_decl]);
            assert(start.visible() + seq![f.index_decl].to_set() =~= start.visible().insert(
                f.index_decl,
            )) by {
                assert forall|d: sir::VarDecl|
                    seq![f.index_decl].to_set().contains(d) <==> d == f.index_decl by {
                    if d == f.index_decl {
                        assert(seq![f.index_decl][0] == d);
                    }
                }
            }
            lemma_fresh_rest(start, self@, seq![f.index_decl], sir::opt_block_made(f.block).vars);
            crate::semantic_analyzer::scoping::lemma_expr_scoped_grows(
                start.visible(),
                self@.visible(),
                *f.end,
            );
        }
        assert(self@.vars.last() == (VarDef { decl: f.index_decl }));
        let index = self.get_var_def(&f.index_decl);
        self.push_inst(Inst::Alloca(index));
        self.push_inst(
            Inst::ISub(
                Binary {
                    dst: Location::Memory(Memory { decl: index, offset: None }),
                    lhs: Operand::Location(Location::Register(first)),
                    rhs: Operand::Literal(1),
                },
            ),
        );
        let (begin, end) = self.enter_for(f.id);
        self.push_inst(Inst::Label(begin.clone()));
        self.push_inst(
            Inst::IAdd(
                Binary {
                    dst: Location::Memory(Memory { decl: index, offset: None }),
                    lhs: Operand::Location(Location::Memory(Memory { decl: index, offset: None })),
                    rhs: Operand::Literal(1),
                },
            ),
        );
        let last = self.visit_expr(&*f.end);
        let below = self.new_register();
        self.push_inst(
            Inst::Cmp(
                Compare {
                    op: CompareOp::LT,
                    dst: Location::Register(below),
                    lhs: Operand::Location(Location::Memory(Memory { decl: index, offset: None })),
                    rhs: Operand::Location(Location::Register(last)),
                },
            ),
        );
        self.push_inst(
            Inst::Branch(
                Branch {
                    cond: Operand::Location(Location::Register(below)),
                    on: false,
                    target: end.clone(),
                },
            ),
        );
        self.visit_opt_block(&f.block);
        self.leave_for();
        self.push_inst(Inst::Jump(begin));
        self.push_inst(Inst::Label(end));
        assert(self@.emitted =~= start.emitted + lower_for(c, start.loops, *f).insts);
        assert(self@.loops =~= start.loops);
        proof {
            lemma_var_defs_join(seq![f.index_decl], sir::opt_block_made(f.block).vars);
            assert(var_defs(seq![f.index_decl]) =~= seq![VarDef { decl: f.index_decl }]);
            assert(self@.vars =~= start.vars + var_defs(
                sir::stmt_made(sir::Statement0::For(*f)).vars,
            ));
        }
    }

    /// Lowers a statement.
    pub fn visit_stmt(&mut self, s: &sir::Statement0)
        requires
            lower_stmt(old(self)@.counters, old(self)@.loops, *s).after.fits(),
            stmt_scoped(old(self)@.visible(), *s),
            old(self)@.fresh(sir::stmt_made(*s).vars),
        ensures
            final(self)@ == after_stmt(
                old(self)@,
                lower_stmt(old(self)@.counters, old(self)@.loops, *s),
                sir::stmt_made(*s),
            ),
        decreases s,
    {
        let ghost start = old(self)@;
        match s {
            sir::Statement0::Assign(a) => {
                self.visit_assign(a);
            },
            sir::Statement0::Call(c) => {
                let _ = self.visit_call(c, false);
            },
            sir::Statement0::IfElse(i) => {
                self.visit_ifelse(i);
            },
            sir::Statement0::For(f) => {
                self.visit_for(f);
            },
            sir::Statement0::Return(r) => match &r.val {
                Some(e) => {
                    let v = self.visit_expr(&**e);
                    self.push_inst(Inst::Return(Some(Operand::Location(Location::Register(v)))));
                },
                None => {
                    self.push_inst(Inst::Return(None));
                },
            },
            sir::Statement0::Break(b) => match self.find_for_labels(&b.for_) {
                Some(labels) => {
                    self.push_inst(Inst::Jump(labels.1));
                },
                None => (),
            },
            sir::Statement0::Continue(c) => match self.find_for_labels(&c.for_) {
                Some(labels) => {
                    self.push_inst(Inst::Jump(labels.0));
                },
                None => (),
            },
            sir::Statement0::Block(b) => {
                self.visit_block(b);
            },
        }
        assert(self@.emitted =~= start.emitted + lower_stmt(start.counters, start.loops, *s).insts);
    }

    /// Lowers a block.
    pub fn visit_block(&mut self, b: &sir::Block)
        requires
            lower_block(old(self)@.counters, old(self)@.loops, *b).after.fits(),
            block_scoped(old(self)@.visible(), *b),
            old(self)@.fresh(sir::block_made(*b).vars),
        ensures
            final(self)@ == after_stmt(
                old(self)@,
                lower_block(old(self)@.counters, old(self)@.loops, *b),
                sir::block_made(*b),
            ),
        decreases b,
    {
        let ghost start = old(self)@;
        let ghost all = sir::stmts_made(b.statements@, b.statements@.len() as int).vars;
        proof {
            lemma_fresh_rest(
                start,
                ContextView { vars: start.vars + var_defs(b.var_decls@), ..start },
                b.var_decls@,
                all,
            );
        }
        self.visit_decls(&b.var_decls);
        let ghost declared = self@;
        proof {
            lemma_visible_after(start, declared, b.var_decls@);
        }
        let mut i: usize = 0;
        assert(self@.emitted =~= declared.emitted + Seq::empty());
        while i < b.statements.len()
            invariant
                i <= b.statements@.len(),
                declared.counters == start.counters,
                declared.loops == start.loops,
                lower_block(start.counters, start.loops, *b).after.fits(),
                self@.emitted == declared.emitted + lower_stmts(
                    start.counters,
                    start.loops,
                    b.statements@,
                    i as int,
                ).insts,
                self@.counters == lower_stmts(
                    start.counters,
                    start.loops,
                    b.statements@,
                    i as int,
                ).after,
                self@.loops == start.loops,
                self@.globals == start.globals,
                self@.method == start.method,
                self@.vars == declared.vars + var_defs(
                    sir::stmts_made(b.statements@, i as int).vars,
                ),
                declared.vars == start.vars + var_defs(b.var_decls@),
                declared.visible() == start.visible() + b.var_decls@.to_set(),
                declared.fresh(all),
                all == sir::stmts_made(b.statements@, b.statements@.len() as int).vars,
                block_scoped(start.visible(), *b),
            decreases b.statements@.len() - i,
        {
            proof {
                let done = sir::stmts_made(b.statements@, i as int).vars;
                let next = sir::stmt_made(b.statements@[i as int]).vars;
                sir::lemma_stmts_made_grow(b.statements@, i + 1, b.statements@.len() as int);
                lemma_fresh_prefix(declared, all, done + next);
                lemma_fresh_rest(declared, self@, done, next);
                lemma_visible_after(declared, self@, done);
                lemma_stmt_scoped_grows(
                    declared.visible(),
                    self@.visible(),
                    b.statements@[i as int],
                );
            }
            proof {
                lemma_stmts_grow(
                    start.counters,
                    start.loops,
                    b.statements@,
                    i + 1,
                    b.statements@.len() as int,
                );
            }
            self.visit_stmt(&b.statements[i]);
            assert(self@.emitted =~= declared.emitted + lower_stmts(
                start.counters,
                start.loops,
                b.statements@,
                i + 1,
            ).insts);
            proof {
                lemma_var_defs_join(
                    sir::stmts_made(b.statements@, i as int).vars,
                    sir::stmt_made(b.statements@[i as int]).vars,
                );
                assert(self@.vars =~= declared.vars + var_defs(
                    sir::stmts_made(b.statements@, i + 1).vars,
                ));
            }
            i = i + 1;
        }
        assert(self@.emitted =~= start.emitted + lower_block(
            start.counters,
            start.loops,
            *b,
        ).insts);
        proof {
            lemma_var_defs_join(
                b.var_decls@,
                sir::stmts_made(b.statements@, b.statements@.len() as int).vars,
            );
            assert(self@.vars =~= start.vars + var_defs(sir::block_made(*b).vars));
        }
    }

    /// Lowers a block that may be missing.
    pub fn visit_opt_block(&mut self, b: &Option<sir::Block>)
        requires
            lower_opt_block(old(self)@.counters, old(self)@.loops, *b).after.fits(),
            opt_block_scoped(old(self)@.visible(), *b),
            old(self)@.fresh(sir::opt_block_made(*b).vars),
        ensures
            final(self)@ == after_stmt(
                old(self)@,
                lower_opt_block(old(self)@.counters, old(self)@.loops, *b),
                sir::opt_block_made(*b),
            ),
        decreases b,
    {
        match b {
            Some(b) => {
                self.visit_block(b);
            },
            None => {
                assert(self@.emitted =~= old(self)@.emitted + Seq::empty());
            },
        }
    }

    /// Lowers a method: a stack slot for each argument, then the body.
    pub fn visit_method(&mut self, m: &sir::MethodDecl0)
        requires
            old(self)@.counters.regs == 0,
            old(self)@.loops.len() == 0,
            lower_method(old(self)@.counters, *m).after.fits(),
            method_scoped(old(self)@.visible(), *m),
            old(self)@.fresh(sir::method_made(*m).vars),
        ensures
            final(self)@ == after_stmt(
                old(self)@,
                lower_method(old(self)@.counters, *m),
                sir::method_made(*m),
            ),
    {
        let ghost start = old(self)@;
        assert(start.loops =~= Seq::empty());
        assert(Counters { regs: 0, ..start.counters } == start.counters);
        proof {
            lemma_fresh_rest(
                start,
                ContextView { vars: start.vars + var_defs(m.args@), ..start },
                m.args@,
                sir::opt_block_made(m.block).vars,
            );
        }
        self.visit_decls(&m.args);
        proof {
            lemma_visible_after(start, self@, m.args@);
        }
        self.visit_opt_block(&m.block);
        assert(self@.emitted =~= start.emitted + lower_method(start.counters, *m).insts);
        proof {
            lemma_var_defs_join(m.args@, sir::opt_block_made(m.block).vars);
            assert(self@.vars =~= start.vars + var_defs(sir::method_made(*m).vars));
        }
    }
}

} // verus!
