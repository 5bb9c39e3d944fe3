//! Building expressions: names are resolved, operand types are checked,
//! and every expression gets its type.

use super::bridge::lemma_found_is_declared;
use super::elaborate::{
    call_elaborates, callout_arg_elaborates, expr_elaborates, literal_elaborates,
};
use super::ir;
use super::ir::{call_wf, callout_arg_wf, expr_wf, method_call_wf};
use super::passes::{diagnostics, extend_errors, reports, IRResult, SemanticCheckError};
use super::typing::{
    callout_arg_errors, expr_errors, expr_type, exprs_types, first_failing, first_failing_arg,
    literal_errors, location_errors,
};
use super::{get_ir_expr_type, one_error, type_mismatch, SemanticAnalyzer};
use crate::token;
use vstd::prelude::*;

verus! {

impl SemanticAnalyzer {
    /// Resolves a use of a variable. An unknown name is reported at once.
    /// With an index, the index is built first; then a variable that is no
    /// array and an index that is no integer are both reported. Without
    /// one, an array is reported: it can be used by element only.
    pub(super) fn get_ir_location(&self, t: &token::Location) -> (res: IRResult<ir::Location>)
        requires
            self.inv(),
        ensures
            self.location_built(*t, res),
        decreases t,
    {
        let var_decl = match self.envs.find_var_decl(&t.name) {
            Some(d) => d,
            None => {
                return Err(one_error(SemanticCheckError::UnknownSymbol(t.name.clone())));
            },
        };
        proof {
            lemma_found_is_declared(
                self.scopes(),
                self.decls(),
                t.name@,
                self.scopes().envs.len() as int,
            );
        }
        let is_array = self.var_decls[var_decl.id].is_array();
        match &t.arr_size {
            Some(index) => match self.get_ir_expr(&**index) {
                Ok(e) => {
                    let mut errors: Vec<SemanticCheckError> = Vec::new();
                    if !is_array {
                        errors.push(SemanticCheckError::ArrayLocationOnNonArrayVar);
                    }
                    let ghost first = diagnostics(errors@);
                    if e.type_ != ir::Type::Int {
                        errors.push(SemanticCheckError::ArrayLocationOffsetTypeError);
                    }
                    assert(diagnostics(errors@) =~= location_errors(self.type_env(), *t));
                    if errors.len() == 0 {
                        Ok(ir::Location { decl: var_decl, arr_size: Some(e) })
                    } else {
                        Err(errors)
                    }
                },
                Err(errors) => Err(errors),
            },
            None => if is_array {
                Err(type_mismatch("location does not have offset, but delc is an array"))
            } else {
                Ok(ir::Location { decl: var_decl, arr_size: None })
            },
        }
    }

    /// Builds an expression and gives it the type that its shape has. A
    /// call of a method that returns nothing is reported.
    pub(super) fn get_ir_expr(&self, t: &token::Expr0) -> (res: IRResult<ir::Expr>)
        requires
            self.inv(),
        ensures
            self.expr_built(*t, res),
        decreases t,
    {
        let expr_type = match t {
            token::Expr0::Location(t) => match self.get_ir_location(t) {
                Ok(a) => ir::ExprType::Location(a),
                Err(e) => {
                    return Err(e);
                },
            },
            token::Expr0::MethodCall(t) => match self.get_ir_call(t) {
                Ok(a) => ir::ExprType::Call(a),
                Err(e) => {
                    return Err(e);
                },
            },
            token::Expr0::Literal(t) => match self.get_ir_literal(t) {
                Ok(a) => ir::ExprType::Literal(a),
                Err(e) => {
                    return Err(e);
                },
            },
            token::Expr0::Unary(t) => match self.get_ir_unary(t) {
                Ok(a) => ir::ExprType::Unary(a),
                Err(e) => {
                    return Err(e);
                },
            },
            token::Expr0::Binary(t) => match self.get_ir_binary(t) {
                Ok(a) => ir::ExprType::Binary(a),
                Err(e) => {
                    return Err(e);
                },
            },
        };
        let type_ = match get_ir_expr_type(&self.var_decls, &self.method_decls, &expr_type) {
            Ok(t) => t,
            Err(e) => {
                return Err(one_error(e));
            },
        };
        Ok(Box::new(ir::Expr0 { type_: type_, expr: expr_type }))
    }

    /// Builds a literal. A character becomes its ASCII code; one beyond
    /// ASCII is reported.
    pub(super) fn get_ir_literal(&self, t: &token::Literal) -> (res: IRResult<ir::Literal>)
        ensures
            reports(res, literal_errors(*t)),
            res matches Ok(l) ==> literal_elaborates(*t, l),
    {
        match t {
            token::Literal::Int(l) => Ok(ir::Literal::Int(*l)),
            token::Literal::Bool(l) => match l {
                token::BoolLiteral::True => Ok(ir::Literal::Boolean(true)),
                token::BoolLiteral::False => Ok(ir::Literal::Boolean(false)),
            },
            token::Literal::Char(l) => {
                let code = *l as u32;
                if code < 128 {
                    Ok(ir::Literal::Int(code as i32))
                } else {
                    Err(one_error(SemanticCheckError::NonAsciiCharLiteral(*l)))
                }
            },
        }
    }

    /// Builds a negation: `-` takes an integer, `!` a boolean.
    pub(super) fn get_ir_unary(&self, t: &token::Unary) -> (res: IRResult<ir::Unary>)
        requires
            self.inv(),
        ensures
            reports(res, expr_errors(self.type_env(), token::Expr0::Unary(*t))),
            res matches Ok(u) ==> {
                &&& u.op == ir::UnaryOp::spec_from(t.op)
                &&& expr_elaborates(self.scopes(), *t.expr, *u.expr)
                &&& expr_wf(self.decls(), *u.expr)
                &&& u.expr.type_ == u.op.operand_type()
            },
        decreases t,
    {
        let expr = match self.get_ir_expr(&*t.expr) {
            Ok(e) => e,
            Err(e) => {
                return Err(e);
            },
        };
        let type_ = expr.type_;
        match t.op {
            token::UnaryOp::NegInt => if type_ == ir::Type::Int {
                Ok(ir::Unary { expr: expr, op: ir::UnaryOp::NegInt })
            } else {
                Err(type_mismatch("unary op is not supported"))
            },
            token::UnaryOp::NegBool => if type_ == ir::Type::Bool {
                Ok(ir::Unary { expr: expr, op: ir::UnaryOp::NegBool })
            } else {
                Err(type_mismatch("unary op is not supported"))
            },
        }
    }

    /// Builds a binary operation. What both operands earn is reported
    /// together. Then the operands have to be of the same type, and of the
    /// type that the operator takes.
    pub(super) fn get_ir_binary(&self, t: &token::Binary) -> (res: IRResult<ir::Binary>)
        requires
            self.inv(),
        ensures
            reports(res, expr_errors(self.type_env(), token::Expr0::Binary(*t))),
            res matches Ok(b) ==> {
                &&& b.op == ir::BinaryOp::spec_from(t.op)
                &&& expr_elaborates(self.scopes(), *t.lhs, *b.lhs)
                &&& expr_elaborates(self.scopes(), *t.rhs, *b.rhs)
                &&& expr_wf(self.decls(), *b.lhs)
                &&& expr_wf(self.decls(), *b.rhs)
                &&& b.lhs.type_ == b.rhs.type_
                &&& b.op.takes(b.lhs.type_)
            },
        decreases t,
    {
        let mut errors: Vec<SemanticCheckError> = Vec::new();
        let lhs = match self.get_ir_expr(&*t.lhs) {
            Ok(l) => Some(l),
            Err(e) => {
                extend_errors(&mut errors, e);
                None
            },
        };
        let rhs = match self.get_ir_expr(&*t.rhs) {
            Ok(l) => Some(l),
            Err(e) => {
                extend_errors(&mut errors, e);
                None
            },
        };
        assert(diagnostics(errors@) =~= expr_errors(self.type_env(), *t.lhs) + expr_errors(
            self.type_env(),
            *t.rhs,
        ));
        if errors.len() != 0 {
            return Err(errors);
        }
        let lhs = lhs.unwrap();
        let rhs = rhs.unwrap();
        if lhs.type_ != rhs.type_ {
            return Err(type_mismatch("binary lhs rhs type is not matched"));
        }
        let op = ir::BinaryOp::from(&t.op);
        let operand_type = lhs.type_;
        let fits = match op {
            ir::BinaryOp::EQ | ir::BinaryOp::NE => true,
            ir::BinaryOp::Or | ir::BinaryOp::And => operand_type == ir::Type::Bool,
            _ => operand_type == ir::Type::Int,
        };
        if !fits {
            return Err(type_mismatch("binary op is not supported"));
        }
        Ok(ir::Binary { lhs: lhs, rhs: rhs, op: op })
    }

    /// Builds a call of a declared method. An unknown name is reported at
    /// once, and so is the first argument that earns a diagnostic. Then the
    /// arguments have to match the declared ones in number and in type.
    #[verifier::loop_isolation(false)]
    pub(super) fn get_ir_method(&self, t: &token::Method) -> (res: IRResult<ir::Method>)
        requires
            self.inv(),
        ensures
            self.call_built(token::MethodCall::Method(*t), match res {
                Ok(m) => Ok(ir::Call::Method(m)),
                Err(e) => Err(e),
            }),
        decreases t,
    {
        let method_decl = match self.envs.find_method_decl(&t.name) {
            Some(m) => m,
            None => {
                return Err(one_error(SemanticCheckError::UnknownSymbol(t.name.clone())));
            },
        };
        let mut args: Vec<ir::Expr> = Vec::new();
        let mut i: usize = 0;
        while i < t.args.len()
            invariant
                self.inv(),
                i <= t.args@.len(),
                args@.len() == i,
                first_failing(self.type_env(), t.args@, 0) == first_failing(
                    self.type_env(),
                    t.args@,
                    i as int,
                ),
                forall|k: int|
                    0 <= k < i ==> {
                        &&& expr_elaborates(self.scopes(), *#[trigger] t.args@[k], *args@[k])
                        &&& expr_wf(self.decls(), *args@[k])
                        &&& args@[k].type_ == expr_type(self.type_env(), *t.args@[k])
                    },
            decreases t.args@.len() - i,
        {
            let expr = match self.get_ir_expr(&*t.args[i]) {
                Ok(e) => e,
                Err(e) => {
                    return Err(e);
                },
            };
            args.push(expr);
            i = i + 1;
        }
        let decl = &self.method_decls[method_decl.id];
        let ghost expected = self.type_env().methods[t.name@].args;
        let ghost found = exprs_types(self.type_env(), t.args@);
        assert(first_failing(self.type_env(), t.args@, t.args@.len() as int).len() == 0);
        assert(expected == self.decls().arg_types(method_decl));
        assert(expected.len() == decl.args@.len());
        assert(found.len() == t.args@.len());
        if args.len() != decl.args.len() {
            return Err(one_error(SemanticCheckError::MethodArgumentNotMatch));
        }
        let mut j: usize = 0;
        while j < args.len()
            invariant
                self.inv(),
                j <= args@.len(),
                args@.len() == t.args@.len(),
                args@.len() == decl.args@.len(),
                method_decl.id < self.method_decls@.len(),
                decl == self.method_decls@[method_decl.id as int],
                expected == self.decls().arg_types(method_decl),
                found == exprs_types(self.type_env(), t.args@),
                forall|k: int|
                    0 <= k < args@.len() ==> (#[trigger] args@[k]).type_ == expr_type(
                        self.type_env(),
                        *t.args@[k],
                    ),
                forall|k: int| 0 <= k < j ==> found[k] == expected[k],
            decreases args@.len() - j,
        {
            let arg_decl = decl.args[j];
            assert(self.decls().has_var(
                self.decls().methods[method_decl.id as int].args@[j as int],
            ));
            if args[j].type_ != self.var_decls[arg_decl.id].type_ {
                assert(found[j as int] != expected[j as int]);
                return Err(one_error(SemanticCheckError::MethodArgumentNotMatch));
            }
            j = j + 1;
        }
        assert(found =~= expected);
        assert forall|k: int| 0 <= k < args@.len() implies {
            &&& self.decls().has_var(self.decls().method(method_decl).args@[k])
            &&& expr_wf(self.decls(), *#[trigger] args@[k])
            &&& args@[k].type_ == self.decls().var(self.decls().method(method_decl).args@[k]).type_
        } by {
            assert(self.decls().has_var(self.decls().methods[method_decl.id as int].args@[k]));
            assert(expr_elaborates(self.scopes(), *t.args@[k], *args@[k]));
            assert(found[k] == expected[k]);
        }
        let res = ir::Method { decl: method_decl, args: args };
        assert(method_call_wf(self.decls(), res));
        assert(call_elaborates(
            self.scopes(),
            token::MethodCall::Method(*t),
            ir::Call::Method(res),
        ));
        Ok(res)
    }

    /// Builds a callout. Texts are taken as they are; the first expression
    /// that earns a diagnostic is reported.
    #[verifier::loop_isolation(false)]
    pub(super) fn get_ir_callout(&self, t: &token::Callout) -> (res: IRResult<ir::Callout>)
        requires
            self.inv(),
        ensures
            self.call_built(token::MethodCall::Callout(*t), match res {
                Ok(c) => Ok(ir::Call::Callout(c)),
                Err(e) => Err(e),
            }),
        decreases t,
    {
        let mut args: Vec<ir::CalloutArg> = Vec::new();
        let mut i: usize = 0;
        while i < t.args.len()
            invariant
                self.inv(),
                i <= t.args@.len(),
                args@.len() == i,
                first_failing_arg(self.type_env(), t.args@, 0) == first_failing_arg(
                    self.type_env(),
                    t.args@,
                    i as int,
                ),
                forall|k: int|
                    0 <= k < i ==> {
                        &&& callout_arg_elaborates(self.scopes(), #[trigger] t.args@[k], args@[k])
                        &&& callout_arg_wf(self.decls(), args@[k])
                    },
            decreases t.args@.len() - i,
        {
            let arg = match &t.args[i] {
                token::CalloutArg::Expr(e) => match self.get_ir_expr(&**e) {
                    Ok(e) => ir::CalloutArg::Expr(e),
                    Err(errors) => {
                        assert(callout_arg_errors(self.type_env(), t.args@[i as int])
                            == expr_errors(self.type_env(), **e));
                        return Err(errors);
                    },
                },
                token::CalloutArg::StringLiteral(s) => ir::CalloutArg::StringLiteral(s.clone()),
            };
            assert(callout_arg_errors(self.type_env(), t.args@[i as int]).len() == 0);
            args.push(arg);
            i = i + 1;
        }
        assert(first_failing_arg(self.type_env(), t.args@, t.args@.len() as int).len() == 0);
        let res = ir::Callout { name: t.name.clone(), args: args };
        assert forall|k: int| 0 <= k < res.args@.len() implies callout_arg_wf(
            self.decls(),
            #[trigger] res.args@[k],
        ) by {
            assert(callout_arg_elaborates(self.scopes(), t.args@[k], res.args@[k]));
        }
        assert(call_wf(self.decls(), ir::Call::Callout(res)));
        assert(call_elaborates(
            self.scopes(),
            token::MethodCall::Callout(*t),
            ir::Call::Callout(res),
        ));
        Ok(res)
    }

    /// Builds a call, of a method or of a callout.
    pub(super) fn get_ir_call(&self, t: &token::MethodCall) -> (res: IRResult<ir::Call>)
        requires
            self.inv(),
        ensures
            self.call_built(*t, res),
        decreases t,
    {
        match t {
            token::MethodCall::Method(t) => match self.get_ir_method(t) {
                Ok(m) => Ok(ir::Call::Method(m)),
                Err(e) => Err(e),
            },
            token::MethodCall::Callout(t) => match self.get_ir_callout(t) {
                Ok(m) => Ok(ir::Call::Callout(m)),
                Err(e) => Err(e),
            },
        }
    }
}

} // verus!
