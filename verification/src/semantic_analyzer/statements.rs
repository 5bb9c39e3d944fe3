//! Building statements and blocks: scopes are entered and left, types
//! are checked, and `return`, `break` and `continue` are tied to what
//! encloses them.

use super::bridge::{
    lemma_bind_var_lookups, lemma_pop_declared, lemma_push_lookups, lemma_type_env_bind_var,
    lemma_type_env_extended, lemma_type_env_push,
};
use super::elaborate::{
    block_elaborates, expr_elaborates, lemma_block_elaborates_extended, location_elaborates,
    stmt_elaborates,
};
use super::env::{EnvContext, EnvType};
use super::ir;
use super::ir::{
    block_made, block_wf, expr_wf, lemma_block_wf_extended, lemma_expr_wf_extended,
    lemma_range_empty, lemma_range_grows, lemma_ranges_join, location_wf, stmt_wf, Made,
};
use super::passes::{diagnostics, extend_errors, reports, IRResult, SemanticCheckError};
use super::typing::{
    assign_errors, block_errors, break_errors, continue_errors, expr_errors,
    lemma_var_items_not_arrays, location_errors, return_errors, typed_expr_errors, var_items,
};
use super::{one_error, type_mismatch, SemanticAnalyzer};
use crate::token;
use vstd::prelude::*;

verus! {

impl SemanticAnalyzer {
    /// Builds an assignment. What the two sides earn is reported together.
    /// Then both sides have to be of the same type, and integers for every
    /// operator but `=`.
    pub(super) fn get_ir_assign(&self, t: &token::Assign) -> (res: IRResult<ir::Assign>)
        requires
            self.inv(),
        ensures
            reports(res, assign_errors(self.type_env(), *t)),
            res matches Ok(a) ==> {
                &&& a.op == ir::AssignOp::spec_from(t.op)
                &&& location_elaborates(self.scopes(), t.dst, a.dst)
                &&& expr_elaborates(self.scopes(), *t.val, *a.val)
                &&& location_wf(self.decls(), a.dst)
                &&& expr_wf(self.decls(), *a.val)
                &&& self.decls().var(a.dst.decl).type_ == a.val.type_
                &&& a.op != ir::AssignOp::Assign ==> a.val.type_ == ir::Type::Int
            },
    {
        let mut errors: Vec<SemanticCheckError> = Vec::new();
        let dst = match self.get_ir_location(&t.dst) {
            Ok(d) => Some(d),
            Err(e) => {
                extend_errors(&mut errors, e);
                None
            },
        };
        let op = match t.op {
            token::AssignOp::Assign => ir::AssignOp::Assign,
            token::AssignOp::AddAssign => ir::AssignOp::AddAssign,
            token::AssignOp::SubAssign => ir::AssignOp::SubAssign,
            token::AssignOp::MulAssign => ir::AssignOp::MulAssign,
            token::AssignOp::DivAssign => ir::AssignOp::DivAssign,
        };
        let val = match self.get_ir_expr(&*t.val) {
            Ok(d) => Some(d),
            Err(e) => {
                extend_errors(&mut errors, e);
                None
            },
        };
        assert(diagnostics(errors@) =~= location_errors(self.type_env(), t.dst) + expr_errors(
            self.type_env(),
            *t.val,
        ));
        if errors.len() != 0 {
            return Err(errors);
        }
        let dst = dst.unwrap();
        let val = val.unwrap();
        let dst_type = self.var_decls[dst.decl.id].type_;
        let val_type = val.type_;
        if dst_type != val_type {
            return Err(type_mismatch("assign type not match"));
        }
        if op != ir::AssignOp::Assign && dst_type != ir::Type::Int {
            return Err(type_mismatch("non-int assign"));
        }
        Ok(ir::Assign { dst: dst, op: op, val: val })
    }

    /// Builds an expression that has to be of type `expected`.
    pub(super) fn get_typed_expr(&self, t: &token::Expr0, expected: ir::Type) -> (res: IRResult<
        ir::Expr,
    >)
        requires
            self.inv(),
        ensures
            reports(res, typed_expr_errors(self.type_env(), *t, expected)),
            res matches Ok(e) ==> {
                &&& expr_elaborates(self.scopes(), *t, *e)
                &&& expr_wf(self.decls(), *e)
                &&& e.type_ == expected
            },
    {
        let e = match self.get_ir_expr(t) {
            Ok(e) => e,
            Err(errors) => {
                return Err(errors);
            },
        };
        if e.type_ != expected {
            return Err(type_mismatch("Early return"));
        }
        Ok(e)
    }

    /// Builds a conditional. The condition has to be a boolean. The arms are
    /// walked each in a scope of its own; the second one only where the
    /// first earned nothing.
    pub(super) fn get_ir_ifelse(&mut self, t: &token::IfElse) -> (res: IRResult<ir::IfElse0>)
        requires
            old(self).inv(),
            old(self).in_method(),
        ensures
            final(self).stmt_built(*old(self), token::Statement::IfElse(*t), match res {
                Ok(i) => Ok(ir::Statement0::IfElse(i)),
                Err(e) => Err(e),
            }),
        decreases t,
    {
        let cond = match self.get_typed_expr(&*t.cond, ir::Type::Bool) {
            Ok(c) => c,
            Err(e) => {
                return Err(e);
            },
        };
        let ifelse = ir::IfElse { id: self.next_ifelse };
        if self.next_ifelse < usize::MAX {
            self.next_ifelse = self.next_ifelse + 1;
        }
        self.ifs = Ghost(self.ifs@ + 1);
        let ghost start = *old(self);
        let ghost numbered = *self;
        proof {
            lemma_type_env_extended(start.scopes(), start.decls(), numbered.decls());
            lemma_range_empty(start.counts());
            ir::lemma_if_range_grows(start.counts().ifs, start.counts().ifs);
            assert(seq![ifelse] =~= Seq::<ir::IfElse>::empty().push(ifelse));
            assert((Made { vars: Seq::empty(), fors: Seq::empty(), ifs: seq![ifelse] })
                == Made::range(start.counts(), numbered.counts()));
        }
        let true_block = match self.get_ir_block(&t.true_block, EnvType::If(ifelse)) {
            Ok(b) => b,
            Err(e) => {
                return Err(e);
            },
        };
        let ghost mid = *self;
        let false_block = match &t.false_block {
            Some(b) => match self.get_ir_block(b, EnvType::Else(ifelse)) {
                Ok(b) => Some(b),
                Err(e) => {
                    proof {
                        mid.lemma_walked(numbered);
                    }
                    return Err(e);
                },
            },
            None => None,
        };
        proof {
            mid.lemma_walked(numbered);
            lemma_range_empty(mid.counts());
            lemma_ranges_join(start.counts(), numbered.counts(), mid.counts());
            lemma_ranges_join(start.counts(), mid.counts(), self.counts());
            lemma_expr_wf_extended(start.decls(), self.decls(), *cond);
            lemma_block_wf_extended(mid.decls(), self.decls(), start.place(), true_block);
            lemma_block_elaborates_extended(
                start.scopes().push(EnvType::If(ifelse)),
                mid.decls(),
                self.decls(),
                t.true_block,
                true_block,
            );
        }
        Ok(
            ir::IfElse0 {
                id: ifelse,
                cond: cond,
                true_block: Some(true_block),
                false_block: false_block,
            },
        )
    }

    /// Builds a `return` in the method that encloses it: without a value in
    /// a method that returns nothing, else with a value of the type that
    /// the method returns.
    pub(super) fn get_ir_return(&self, t: &token::Return) -> (res: IRResult<ir::Return>)
        requires
            self.inv(),
            self.in_method(),
        ensures
            reports(res, return_errors(self.type_env(), *t)),
            res matches Ok(r) ==> {
                &&& stmt_elaborates(
                    self.scopes(),
                    self.decls(),
                    token::Statement::Return(*t),
                    ir::Statement0::Return(r),
                )
                &&& stmt_wf(self.decls(), self.place(), ir::Statement0::Return(r))
            },
    {
        let val = match &t.val {
            Some(e) => match self.get_ir_expr(&**e) {
                Ok(e) => Some(e),
                Err(e) => {
                    return Err(e);
                },
            },
            None => None,
        };
        proof {
            self.lemma_in_method();
        }
        let decl = self.envs.get_current_scope_method_decl().unwrap();
        let decl_return_type = self.method_decls[decl.id].return_type;
        match val {
            Some(v) => if decl_return_type != ir::Type::Void && decl_return_type == v.type_ {
                Ok(ir::Return { func: decl, val: Some(v) })
            } else {
                Err(one_error(SemanticCheckError::ReturnTypeMismatch))
            },
            None => if decl_return_type == ir::Type::Void {
                Ok(ir::Return { func: decl, val: None })
            } else {
                Err(one_error(SemanticCheckError::ReturnTypeMismatch))
            },
        }
    }

    /// Builds a `break` out of the innermost loop; outside every loop it is
    /// reported.
    pub(super) fn get_ir_break(&self) -> (res: IRResult<ir::Break>)
        ensures
            reports(res, break_errors(self.type_env())),
            res matches Ok(b) ==> self.scopes().current_for() == Some(b.for_),
    {
        match self.envs.find_for() {
            Some(f) => Ok(ir::Break { for_: f }),
            None => Err(one_error(SemanticCheckError::BreakOutOfForScope)),
        }
    }

    /// Builds a `continue` of the innermost loop; outside every loop it is
    /// reported.
    pub(super) fn get_ir_continue(&self) -> (res: IRResult<ir::Continue>)
        ensures
            reports(res, continue_errors(self.type_env())),
            res matches Ok(c) ==> self.scopes().current_for() == Some(c.for_),
    {
        match self.envs.find_for() {
            Some(f) => Ok(ir::Continue { for_: f }),
            None => Err(one_error(SemanticCheckError::ContinueOutOfForScope)),
        }
    }

    /// Builds a loop. Both bounds have to be integers and do not see the
    /// index variable. The body is walked in the scope of the loop, which
    /// holds the index variable and takes the body's own variables too.
    pub(super) fn get_ir_for(&mut self, t: &token::Loop) -> (res: IRResult<ir::For0>)
        requires
            old(self).inv(),
            old(self).in_method(),
        ensures
            final(self).stmt_built(*old(self), token::Statement::Loop(*t), match res {
                Ok(f) => Ok(ir::Statement0::For(f)),
                Err(e) => Err(e),
            }),
        decreases t,
    {
        let start = match self.get_typed_expr(&*t.start, ir::Type::Int) {
            Ok(e) => e,
            Err(e) => {
                return Err(e);
            },
        };
        let end = match self.get_typed_expr(&*t.end, ir::Type::Int) {
            Ok(e) => e,
            Err(e) => {
                return Err(e);
            },
        };
        let ghost before = *old(self);
        proof {
            before.lemma_in_method();
        }
        let index_decl = ir::VarDecl { id: self.var_decls.len() };
        self.var_decls.push(
            ir::VarDecl0 { type_: ir::Type::Int, name: t.index_var.clone(), arr_size: None },
        );
        let declared = self.var_decls.len();
        let for_ = ir::For { id: self.next_for };
        self.next_for = self.next_for + 1;
        proof {
            lemma_type_env_extended(before.scopes(), before.decls(), self.decls());
            lemma_type_env_push(before.scopes(), self.decls(), EnvType::For(for_));
            lemma_push_lookups(before.scopes(), EnvType::For(for_), Seq::empty());
            let pushed = before.scopes().push(EnvType::For(for_));
            lemma_type_env_bind_var(pushed, self.decls(), t.index_var@, index_decl);
            lemma_bind_var_lookups(pushed, t.index_var@, index_decl, Seq::empty());
        }
        let env_ctx = EnvContext::new(&mut self.envs, EnvType::For(for_));
        let _ = env_ctx.add_var(&mut self.envs, &t.index_var, &index_decl);
        let ghost inside = *self;
        assert(inside.type_env() == before.type_env().enter_for(t.index_var@));
        let block = self.get_ir_block(&t.block, EnvType::NoEnv);
        let ghost done = *self;
        env_ctx.leave(&mut self.envs);
        proof {
            lemma_range_empty(before.counts());
            lemma_range_grows(before.counts().vars, before.counts().vars);
            lemma_range_grows(before.counts().fors, before.counts().fors);
            assert(seq![index_decl] =~= Seq::<ir::VarDecl>::empty().push(index_decl));
            assert(seq![for_] =~= Seq::<ir::For>::empty().push(for_));
            lemma_ranges_join(before.counts(), inside.counts(), done.counts());
            lemma_pop_declared(done.scopes(), done.decls());
            lemma_expr_wf_extended(before.decls(), self.decls(), *start);
            lemma_expr_wf_extended(before.decls(), self.decls(), *end);
        }
        match block {
            Ok(b) => Ok(
                ir::For0 {
                    id: for_,
                    index_decl: index_decl,
                    start: start,
                    end: end,
                    block: Some(b),
                },
            ),
            Err(e) => Err(e),
        }
    }

    /// Builds a statement of any kind. A block that stands as a statement
    /// gets a scope of its own.
    pub(super) fn get_ir_statement(&mut self, t: &token::Statement) -> (res: IRResult<
        ir::Statement,
    >)
        requires
            old(self).inv(),
            old(self).in_method(),
        ensures
            final(self).stmt_built(*old(self), *t, res),
        decreases t,
    {
        proof {
            lemma_range_empty(old(self).counts());
        }
        match t {
            token::Statement::Assign(a) => match self.get_ir_assign(a) {
                Ok(a) => Ok(ir::Statement0::Assign(a)),
                Err(e) => Err(e),
            },
            token::Statement::MethodCall(a) => match self.get_ir_call(a) {
                Ok(a) => Ok(ir::Statement0::Call(a)),
                Err(e) => Err(e),
            },
            token::Statement::IfElse(a) => match self.get_ir_ifelse(a) {
                Ok(a) => Ok(ir::Statement0::IfElse(a)),
                Err(e) => Err(e),
            },
            token::Statement::Loop(a) => match self.get_ir_for(a) {
                Ok(a) => Ok(ir::Statement0::For(a)),
                Err(e) => Err(e),
            },
            token::Statement::Return(a) => match self.get_ir_return(a) {
                Ok(a) => Ok(ir::Statement0::Return(a)),
                Err(e) => Err(e),
            },
            token::Statement::Break => match self.get_ir_break() {
                Ok(a) => Ok(ir::Statement0::Break(a)),
                Err(e) => Err(e),
            },
            token::Statement::Continue => match self.get_ir_continue() {
                Ok(a) => Ok(ir::Statement0::Continue(a)),
                Err(e) => Err(e),
            },
            token::Statement::Block(a) => match self.get_ir_block(a, EnvType::Anon) {
                Ok(a) => Ok(ir::Statement0::Block(a)),
                Err(e) => Err(e),
            },
        }
    }

    /// Builds the statements `t`, all of them; what they earn is reported
    /// together, in order.
    pub(super) fn get_ir_statements(&mut self, t: &Vec<token::Statement>) -> (res: IRResult<
        Vec<ir::Statement>,
    >)
        requires
            old(self).inv(),
            old(self).in_method(),
        ensures
            final(self).stmts_built(*old(self), t@, t@.len() as int, match res {
                Ok(ss) => ss@,
                Err(_) => Seq::empty(),
            }, match res {
                Ok(_) => Seq::empty(),
                Err(errors) => errors@,
            }),
            res matches Err(errors) ==> errors@.len() > 0,
        decreases t@,
    {
        let mut errors: Vec<SemanticCheckError> = Vec::new();
        let mut statements: Vec<ir::Statement> = Vec::new();
        let ghost start = *self;
        let mut i: usize = 0;
        proof {
            assert(diagnostics(errors@) =~= Seq::empty());
            lemma_range_empty(start.counts());
        }
        while i < t.len()
            invariant
                start.inv(),
                start.in_method(),
                i <= t@.len(),
                self.stmts_built(start, t@, i as int, statements@, errors@),
            decreases t@.len() - i,
        {
            let ghost before = *self;
            let ghost built = statements@;
            let ghost errors_before = errors@;
            proof {
                before.lemma_walked(start);
            }
            let res = self.get_ir_statement(&t[i]);
            let ghost shown = res;
            match res {
                Ok(s) => {
                    statements.push(s);
                },
                Err(e) => {
                    extend_errors(&mut errors, e);
                },
            }
            proof {
                self.lemma_stmts_step(
                    before,
                    start,
                    t@,
                    i as int,
                    built,
                    errors_before,
                    shown,
                    statements@,
                    errors@,
                );
            }
            i = i + 1;
        }
        if errors.len() != 0 {
            return Err(errors);
        }
        assert(errors@ =~= Seq::empty());
        Ok(statements)
    }

    /// Builds a block in a scope of kind `scope_type`, or, for `NoEnv`, in
    /// the innermost scope as it is: the declarations first, then the
    /// statements. What both earn is reported together. The scope is left
    /// again whatever was found.
    pub(super) fn get_ir_block(&mut self, t: &token::Block, scope_type: EnvType) -> (res: IRResult<
        ir::Block,
    >)
        requires
            old(self).inv(),
            old(self).in_method(),
            !(scope_type is Method),
            !(scope_type is For),
        ensures
            final(self).block_walked(*old(self), scope_type),
            reports(
                res,
                block_errors(
                    if scope_type == EnvType::NoEnv {
                        old(self).type_env()
                    } else {
                        old(self).type_env().enter()
                    },
                    *t,
                ),
            ),
            res matches Ok(b) ==> {
                &&& block_elaborates(
                    old(self).scopes().enter(scope_type),
                    final(self).decls(),
                    *t,
                    b,
                )
                &&& block_wf(final(self).decls(), old(self).place(), b)
                &&& block_made(b) == Made::range(old(self).counts(), final(self).counts())
            },
        decreases t,
    {
        let ghost before = *self;
        proof {
            before.lemma_in_method();
            lemma_type_env_push(before.scopes(), before.decls(), scope_type);
            lemma_push_lookups(before.scopes(), scope_type, Seq::empty());
        }
        let env_ctx = EnvContext::new(&mut self.envs, scope_type);
        let ghost inside = *self;
        let mut errors: Vec<SemanticCheckError> = Vec::new();
        let var_decls = match self.get_ir_var_decls(&t.var_decls) {
            Ok(v) => Some(v),
            Err(e) => {
                extend_errors(&mut errors, e);
                None
            },
        };
        let ghost declared = *self;
        let statements = match self.get_ir_statements(&t.statements) {
            Ok(s) => Some(s),
            Err(e) => {
                extend_errors(&mut errors, e);
                None
            },
        };
        let ghost done = *self;
        env_ctx.leave(&mut self.envs);
        assert(diagnostics(errors@) =~= block_errors(inside.type_env(), *t));
        proof {
            lemma_type_env_extended(declared.scopes(), declared.decls(), done.decls());
            lemma_pop_declared(done.scopes(), done.decls());
        }
        if errors.len() != 0 {
            Err(errors)
        } else {
            let b = ir::Block { var_decls: var_decls.unwrap(), statements: statements.unwrap() };
            assert forall|k: int| 0 <= k < b.var_decls@.len() implies self.decls().has_var(
                #[trigger] b.var_decls@[k],
            ) && !self.decls().var(b.var_decls@[k]).is_array() by {
                assert(declared.decls().has_var(b.var_decls@[k]));
                assert(declared.decls().var(b.var_decls@[k])@ == var_items(t.var_decls@)[k]);
                lemma_var_items_not_arrays(t.var_decls@, k);
            }
            assert forall|k: int| 0 <= k < b.statements@.len() implies stmt_wf(
                self.decls(),
                before.place(),
                #[trigger] b.statements@[k],
            ) by {
                assert(stmt_elaborates(
                    declared.scopes(),
                    done.decls(),
                    t.statements@[k],
                    b.statements@[k],
                ));
            }
            assert(block_wf(self.decls(), before.place(), b));
            assert(block_elaborates(before.scopes().enter(scope_type), self.decls(), *t, b));
            assert(block_made(b) == Made::range(before.counts(), self.counts())) by {
                assert(Made::of_vars(b.var_decls@) == Made::range(
                    before.counts(),
                    declared.counts(),
                )) by {
                    lemma_range_empty(before.counts());
                }
                lemma_ranges_join(before.counts(), declared.counts(), self.counts());
            }
            Ok(b)
        }
    }
}

} // verus!
