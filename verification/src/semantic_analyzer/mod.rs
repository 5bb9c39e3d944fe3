//! Semantic analysis: from the syntax tree to the typed tree, or to the
//! list of what is wrong with the program.

pub mod bridge;
pub mod callout;
mod declarations;
pub mod elaborate;
pub mod env;
mod expressions;
pub mod ir;
pub mod laws;
pub mod passes;
pub mod scoping;
mod statements;
pub mod typing;

use bridge::{
    lemma_bind_all_lookups, lemma_found_is_declared, lemma_pop_declared, lemma_push_lookups,
    lemma_type_env_bind_method, lemma_type_env_bind_var, lemma_type_env_extended,
    lemma_type_env_push, method_sig_of, scopes_declared, type_env_of,
};
use crate::token;
use elaborate::{
    bind_all, call_elaborates, declares, expr_elaborates, global_scopes,
    lemma_block_elaborates_extended, lemma_method_elaborates_extended, lemma_methods_scopes_prefix,
    lemma_stmt_elaborates_extended, location_elaborates, method_elaborates, methods_scopes,
    program_elaborates, stmt_elaborates,
};
use env::{EnvContext, EnvStack, EnvStackView, EnvType};
use ir::{
    call_wf, expr_wf, lemma_block_wf_extended, lemma_method_wf_extended, lemma_methods_made_prefix,
    lemma_range_empty, lemma_range_grows, lemma_ranges_join, lemma_stmt_wf_extended,
    lemma_stmts_made_prefix, location_wf, method_made, method_wf, methods_made, shape_type,
    stmt_made, stmt_wf, stmts_made, var_range, Counts, Decls, Made, Place,
};
use passes::pre_ir_check::{array_sizes_positive, has_main, is_array_size_positive};
use passes::{diagnostics, extend_errors, reports, Diagnostic, IRResult, SemanticCheckError};
use typing::{
    arg_items, build_errors, call_errors, declare_errors, expr_errors, expr_type,
    lemma_declare_all_frame, location_errors, method_decl_errors, method_decls_errors, method_sig,
    methods_env, pre_check_errors, program_errors, stmt_errors, stmts_errors, Declared, TypeEnv,
};
use vstd::prelude::*;
use vstd::string::StringExecFns;

verus! {

fn one_error(e: SemanticCheckError) -> (res: Vec<SemanticCheckError>)
    ensures
        diagnostics(res@) == seq![e@],
        res@.len() == 1,
{
    let mut errors = Vec::new();
    errors.push(e);
    assert(diagnostics(errors@) =~= seq![e@]);
    errors
}

fn type_mismatch(msg: &str) -> (res: Vec<SemanticCheckError>)
    ensures
        diagnostics(res@) == seq![Diagnostic::TypeMismatch(msg@)],
        res@.len() == 1,
{
    one_error(SemanticCheckError::TypeMismatch(String::from_str(msg)))
}

/// The type of an expression of shape `e`, read off the shape and the
/// declarations it names; a call of a method that returns nothing has
/// none.
fn get_ir_expr_type(
    var_decls: &Vec<ir::VarDecl0>,
    method_decls: &Vec<ir::MethodDecl0>,
    e: &ir::ExprType,
) -> (res: Result<ir::Type, SemanticCheckError>)
    requires
        e matches ir::ExprType::Location(l) ==> l.decl.id < var_decls@.len(),
        e matches ir::ExprType::Call(ir::Call::Method(m)) ==> m.decl.id < method_decls@.len(),
    ensures
        ({
            let t = shape_type(Decls { vars: var_decls@, methods: method_decls@ }, *e);
            match res {
                Ok(found) => found == t && !(e is Call && t == ir::Type::Void),
                Err(error) => error@ == Diagnostic::ExprCallNoReturn && e is Call && t
                    == ir::Type::Void,
            }
        }),
{
    match e {
        ir::ExprType::Location(l) => Ok(var_decls[l.decl.id].type_),
        ir::ExprType::Literal(l) => match l {
            ir::Literal::Int(_) => Ok(ir::Type::Int),
            ir::Literal::Boolean(_) => Ok(ir::Type::Bool),
        },
        ir::ExprType::Call(c) => match c {
            ir::Call::Method(m) => match method_decls[m.decl.id].return_type {
                ir::Type::Void => Err(SemanticCheckError::ExprCallNoReturn),
                t => Ok(t),
            },
            ir::Call::Callout(_) => Ok(ir::Type::Int),
        },
        ir::ExprType::Unary(u) => Ok(u.expr.type_),
        ir::ExprType::Binary(b) => Ok(b.op.get_return_type()),
    }
}

/// Builds the typed tree of a program, or finds what is wrong with it.
pub struct SemanticAnalyzer {
    envs: EnvStack,
    var_decls: Vec<ir::VarDecl0>,
    method_decls: Vec<ir::MethodDecl0>,
    next_for: usize,
    next_ifelse: usize,
    /// How many conditionals were built so far.
    ifs: Ghost<int>,
}

impl SemanticAnalyzer {
    /// The scope stack at this point of the walk.
    spec fn scopes(&self) -> EnvStackView {
        self.envs@
    }

    /// The declarations made so far.
    spec fn decls(&self) -> Decls {
        Decls { vars: self.var_decls@, methods: self.method_decls@ }
    }

    /// How many variables and loops were made so far.
    spec fn counts(&self) -> Counts {
        Counts { vars: self.var_decls@.len() as int, fors: self.next_for as int, ifs: self.ifs@ }
    }

    /// The typing environment at this point of the walk.
    spec fn type_env(&self) -> TypeEnv {
        type_env_of(self.scopes(), self.decls())
    }

    /// The scope stack names only declarations made so far, and so do the
    /// argument lists of the methods.
    spec fn inv(&self) -> bool {
        &&& scopes_declared(self.scopes(), self.decls())
        &&& self.decls().args_declared()
        &&& self.decls().sizes_positive()
        &&& self.next_for <= self.var_decls@.len()
        &&& self.ifs@ >= 0
        &&& ir::IfElse { id: self.next_ifelse } == ir::nth_if(self.ifs@)
    }

    spec fn location_built(&self, t: token::Location, res: IRResult<ir::Location>) -> bool {
        &&& reports(res, location_errors(self.type_env(), t))
        &&& res matches Ok(l) ==> {
            &&& location_elaborates(self.scopes(), t, l)
            &&& location_wf(self.decls(), l)
            &&& self.decls().var(l.decl).type_ == self.type_env().vars[t.name@].type_
        }
    }

    spec fn expr_built(&self, t: token::Expr0, res: IRResult<ir::Expr>) -> bool {
        &&& reports(res, expr_errors(self.type_env(), t))
        &&& res matches Ok(e) ==> {
            &&& expr_elaborates(self.scopes(), t, *e)
            &&& expr_wf(self.decls(), *e)
            &&& e.type_ == expr_type(self.type_env(), t)
        }
    }

    spec fn call_built(&self, t: token::MethodCall, res: IRResult<ir::Call>) -> bool {
        &&& reports(res, call_errors(self.type_env(), t))
        &&& res matches Ok(c) ==> {
            &&& call_elaborates(self.scopes(), t, c)
            &&& call_wf(self.decls(), c)
        }
    }

    /// What declaring the names `items`, in order, in the scope of
    /// `before` has to leave behind: the scope holds them, `errors` grew
    /// by a `DuplicatedSymbol` for each name that was taken, and, where
    /// none was, `handles` are the new declarations.
    spec fn declared(
        &self,
        before: Self,
        items: Seq<Declared>,
        handles: Seq<ir::VarDecl>,
        errors: Seq<SemanticCheckError>,
    ) -> bool {
        &&& self.inv()
        &&& self.next_for == before.next_for
        &&& self.next_ifelse == before.next_ifelse
        &&& self.ifs == before.ifs
        &&& self.decls().methods == before.decls().methods
        &&& before.decls().extended_by(self.decls())
        &&& self.scopes().envs.len() == before.scopes().envs.len()
        &&& self.scopes().pop() == before.scopes().pop()
        &&& self.scopes().current_method() == before.scopes().current_method()
        &&& self.scopes().current_for() == before.scopes().current_for()
        &&& self.type_env() == before.type_env().declare_all(items)
        &&& diagnostics(errors) == declare_errors(before.type_env(), items)
        &&& errors.len() == 0 ==> {
            &&& self.scopes() == bind_all(before.scopes(), items, handles)
            &&& declares(self.decls(), handles, items)
            &&& handles == var_range(before.counts().vars, self.counts().vars)
        }
    }

    /// The walk is inside the body of a method.
    spec fn in_method(&self) -> bool {
        self.scopes().current_method() is Some
    }

    /// Where the walk is: in which method, and in which loop.
    spec fn place(&self) -> Place {
        Place { method: self.scopes().current_method().unwrap(), for_: self.scopes().current_for() }
    }

    /// What every walk of a statement leaves behind: the scope stack as
    /// it was, every earlier declaration in place, no method touched.
    spec fn walked(&self, before: Self) -> bool {
        &&& self.inv()
        &&& self.scopes() == before.scopes()
        &&& self.decls().methods == before.decls().methods
        &&& before.decls().extended_by(self.decls())
        &&& before.counts().le(self.counts())
    }

    /// What the walk of a block leaves behind: as for a statement, but
    /// that a block walked in the scope it was found in, with `NoEnv`,
    /// leaves its variables in the innermost environment.
    spec fn block_walked(&self, before: Self, scope_type: EnvType) -> bool {
        &&& self.inv()
        &&& self.decls().methods == before.decls().methods
        &&& before.decls().extended_by(self.decls())
        &&& before.counts().le(self.counts())
        &&& if scope_type == EnvType::NoEnv {
            &&& self.scopes().pop() == before.scopes().pop()
            &&& self.scopes().envs.len() == before.scopes().envs.len()
        } else {
            self.scopes() == before.scopes()
        }
    }

    spec fn stmt_built(
        &self,
        before: Self,
        t: token::Statement,
        res: IRResult<ir::Statement>,
    ) -> bool {
        &&& self.walked(before)
        &&& reports(res, stmt_errors(before.type_env(), t))
        &&& res matches Ok(s) ==> {
            &&& stmt_elaborates(before.scopes(), self.decls(), t, s)
            &&& stmt_wf(self.decls(), before.place(), s)
            &&& stmt_made(s) == Made::range(before.counts(), self.counts())
        }
    }

    /// What building the first `n` of the statements `t` leaves behind.
    spec fn stmts_built(
        &self,
        before: Self,
        t: Seq<token::Statement>,
        n: int,
        ss: Seq<ir::Statement0>,
        errors: Seq<SemanticCheckError>,
    ) -> bool {
        &&& self.walked(before)
        &&& diagnostics(errors) == stmts_errors(before.type_env(), t, n)
        &&& errors.len() == 0 ==> {
            &&& ss.len() == n
            &&& stmts_made(ss, n) == Made::range(before.counts(), self.counts())
            &&& forall|k: int|
                0 <= k < n ==> {
                    &&& stmt_elaborates(before.scopes(), self.decls(), #[trigger] t[k], ss[k])
                    &&& stmt_wf(self.decls(), before.place(), ss[k])
                }
        }
    }

    /// One more statement built.
    proof fn lemma_stmts_step(
        &self,
        before: Self,
        start: Self,
        t: Seq<token::Statement>,
        i: int,
        built: Seq<ir::Statement0>,
        errors_before: Seq<SemanticCheckError>,
        res: IRResult<ir::Statement>,
        statements: Seq<ir::Statement0>,
        errors: Seq<SemanticCheckError>,
    )
        requires
            start.inv(),
            start.in_method(),
            0 <= i < t.len(),
            before.stmts_built(start, t, i, built, errors_before),
            self.stmt_built(before, t[i], res),
            match res {
                Ok(s) => statements == built.push(s) && errors == errors_before,
                Err(e) => {
                    &&& statements == built
                    &&& diagnostics(errors) == diagnostics(errors_before) + diagnostics(e@)
                    &&& errors.len() == errors_before.len() + e@.len()
                },
            },
        ensures
            self.stmts_built(start, t, i + 1, statements, errors),
    {
        before.lemma_walked(start);
        lemma_type_env_extended(start.scopes(), start.decls(), self.decls());
        match res {
            Ok(s) => {
                assert(diagnostics(errors) + Seq::<Diagnostic>::empty() =~= diagnostics(errors));
            },
            Err(e) => {},
        }
        if errors.len() == 0 {
            lemma_stmts_made_prefix(built, statements, i);
            lemma_ranges_join(start.counts(), before.counts(), self.counts());
            assert forall|k: int| 0 <= k < i + 1 implies {
                &&& stmt_elaborates(start.scopes(), self.decls(), #[trigger] t[k], statements[k])
                &&& stmt_wf(self.decls(), start.place(), statements[k])
            } by {
                if k < i {
                    assert(statements[k] == built[k]);
                    lemma_stmt_elaborates_extended(
                        start.scopes(),
                        before.decls(),
                        self.decls(),
                        t[k],
                        built[k],
                    );
                    lemma_stmt_wf_extended(before.decls(), self.decls(), start.place(), built[k]);
                }
            }
        }
    }

    proof fn lemma_in_method(&self)
        requires
            self.inv(),
            self.in_method(),
        ensures
            self.scopes().envs.len() > 0,
            self.decls().has_method(self.place().method),
            self.type_env().return_type == self.decls().method(self.place().method).return_type,
            self.type_env().in_for == self.place().for_ is Some,
    {
        lemma_found_is_declared(
            self.scopes(),
            self.decls(),
            Seq::empty(),
            self.scopes().envs.len() as int,
        );
    }

    proof fn lemma_walked(&self, before: Self)
        requires
            before.inv(),
            self.walked(before),
        ensures
            self.type_env() == before.type_env(),
            self.place() == before.place(),
            self.in_method() == before.in_method(),
    {
        lemma_type_env_extended(before.scopes(), before.decls(), self.decls());
    }

    /// Declares one argument of a method.
    fn get_ir_method_arg(&mut self, t: &token::MethodArg) -> (res: ir::VarDecl)
        requires
            old(self).inv(),
        ensures
            final(self).inv(),
            final(self).scopes() == old(self).scopes(),
            final(self).next_for == old(self).next_for,
            final(self).next_ifelse == old(self).next_ifelse,
            final(self).ifs == old(self).ifs,
            final(self).decls().methods == old(self).decls().methods,
            final(self).decls().vars == old(self).decls().vars.push(final(self).decls().var(res)),
            res.id == old(self).decls().vars.len(),
            final(self).decls().var(res)@ == (Declared {
                type_: ir::Type::spec_from(t.type_),
                name: t.name@,
                arr_size: None,
            }),
    {
        let handle = ir::VarDecl { id: self.var_decls.len() };
        self.var_decls.push(
            ir::VarDecl0 { type_: ir::Type::from(&t.type_), name: t.name.clone(), arr_size: None },
        );
        proof {
            lemma_type_env_extended(old(self).scopes(), old(self).decls(), self.decls());
        }
        handle
    }

    /// What building one method declaration leaves behind.
    spec fn method_built(
        &self,
        before: Self,
        t: token::MethodDecl,
        res: IRResult<ir::MethodDecl>,
    ) -> bool {
        let m = ir::MethodDecl { id: before.decls().methods.len() as usize };
        &&& m.id == before.decls().methods.len()
        &&& self.inv()
        &&& before.decls().extended_by(self.decls())
        &&& self.decls().methods.len() == before.decls().methods.len() + 1
        &&& forall|i: int|
            0 <= i < before.decls().methods.len() ==> #[trigger] self.decls().methods[i]
                == before.decls().methods[i]
        &&& self.scopes() == before.scopes().bind_method(t.name@, m)
        &&& self.type_env() == before.type_env().bind_method(t.name@, method_sig(t))
        &&& reports(res, method_decl_errors(before.type_env(), t))
        &&& res matches Ok(r) ==> {
            &&& r == m
            &&& method_wf(self.decls(), m)
            &&& method_elaborates(before.scopes(), self.decls(), t, m)
            &&& method_made(self.decls().method(m)) == Made::range(before.counts(), self.counts())
        }
        &&& before.counts().le(self.counts())
    }

    /// Builds a method. Its arguments are declared in a scope of its own,
    /// and the method itself before its body is walked, so that it can call
    /// itself. A name that another method has is reported; the body is
    /// walked all the same, in the scope that holds the arguments.
    #[verifier::loop_isolation(false)]
    fn get_ir_method_decl(&mut self, t: &token::MethodDecl) -> (res: IRResult<ir::MethodDecl>)
        requires
            old(self).inv(),
            old(self).scopes().current_for() is None,
        ensures
            final(self).method_built(*old(self), *t, res),
    {
        let ghost before = *self;
        let ghost items = arg_items(t.args@);
        proof {
            lemma_range_empty(before.counts());
        }
        let mut errors: Vec<SemanticCheckError> = Vec::new();
        let return_type = ir::Type::from(&t.return_type);
        let mut args: Vec<ir::VarDecl> = Vec::new();
        let mut i: usize = 0;
        while i < t.args.len()
            invariant
                i <= t.args@.len(),
                args@.len() == i,
                self.inv(),
                self.scopes() == before.scopes(),
                self.next_for == before.next_for,
                self.next_ifelse == before.next_ifelse,
                self.ifs == before.ifs,
                self.decls().methods == before.decls().methods,
                before.decls().extended_by(self.decls()),
                args@ == var_range(before.counts().vars, self.counts().vars),
                forall|k: int|
                    0 <= k < i ==> self.decls().has_var(#[trigger] args@[k]) && self.decls().var(
                        args@[k],
                    )@ == items[k],
            decreases t.args@.len() - i,
        {
            let arg = self.get_ir_method_arg(&t.args[i]);
            proof {
                lemma_range_grows(before.counts().vars, arg.id as int);
            }
            args.push(arg);
            i = i + 1;
        }
        let mut entry_args: Vec<ir::VarDecl> = Vec::new();
        let mut j: usize = 0;
        while j < args.len()
            invariant
                j <= args@.len(),
                entry_args@ == args@.take(j as int),
            decreases args@.len() - j,
        {
            entry_args.push(args[j]);
            assert(args@.take(j + 1) =~= args@.take(j as int).push(args@[j as int]));
            j = j + 1;
        }
        assert(args@.take(args@.len() as int) =~= args@);
        let ghost arena = *self;
        let m = ir::MethodDecl { id: self.method_decls.len() };
        self.method_decls.push(
            ir::MethodDecl0 {
                return_type: return_type,
                name: t.name.clone(),
                args: entry_args,
                block: None,
            },
        );
        let ghost ds = self.decls();
        proof {
            assert(ds.args_declared()) by {
                assert forall|a: int, b: int|
                    0 <= a < ds.methods.len() && 0 <= b < ds.methods[a].args@.len()
                    implies ds.has_var(#[trigger] ds.methods[a].args@[b]) by {
                    if a < arena.decls().methods.len() {
                        assert(arena.decls().has_var(arena.decls().methods[a].args@[b]));
                    } else {
                        assert(ds.methods[a].args@[b] == args@[b]);
                    }
                }
            }
            lemma_type_env_extended(before.scopes(), before.decls(), ds);
            lemma_type_env_push(before.scopes(), ds, EnvType::Method(m));
            lemma_push_lookups(before.scopes(), EnvType::Method(m), Seq::empty());
        }
        let env_ctx = EnvContext::new(&mut self.envs, EnvType::Method(m));
        let ghost entered = self.scopes();
        let ghost base = type_env_of(entered, ds);
        let mut k: usize = 0;
        assert(items.take(0) =~= Seq::empty());
        while k < args.len()
            invariant
                k <= args@.len(),
                args@.len() == items.len(),
                self.decls() == ds,
                self.next_for == before.next_for,
                self.next_ifelse == before.next_ifelse,
                self.ifs == before.ifs,
                scopes_declared(self.scopes(), ds),
                self.scopes() == bind_all(entered, items.take(k as int), args@.take(k as int)),
                type_env_of(self.scopes(), ds) == base.declare_all(items.take(k as int)),
            decreases args@.len() - k,
        {
            proof {
                lemma_bind_all_lookups(entered, items.take(k as int), args@.take(k as int));
                lemma_type_env_bind_var(
                    self.scopes(),
                    ds,
                    t.args@[k as int].name@,
                    args@[k as int],
                );
                assert(items.take(k + 1).drop_last() =~= items.take(k as int));
                assert(args@.take(k + 1).drop_last() =~= args@.take(k as int));
            }
            let _ = env_ctx.add_var(&mut self.envs, &t.args[k].name, &args[k]);
            k = k + 1;
        }
        proof {
            assert(items.take(items.len() as int) =~= items);
            assert(args@.take(args@.len() as int) =~= args@);
            lemma_bind_all_lookups(entered, items, args@);
            lemma_type_env_bind_method(self.scopes(), ds, t.name@, m);
            assert(method_sig_of(ds, m).args =~= method_sig(*t).args);
        }
        match env_ctx.add_method(&mut self.envs, &t.name, &m) {
            Err(_) => {
                errors.push(SemanticCheckError::DuplicatedSymbol(t.name.clone()));
            },
            Ok(_) => (),
        }
        let ghost inside = *self;
        proof {
            lemma_declare_all_frame(base, before.type_env().enter(), items);
            lemma_declare_all_frame(before.type_env().enter(), base, items);
        }
        assert(inside.type_env() == before.type_env().enter_method(*t));
        assert(inside.place() == Place { method: m, for_: None });
        let ghost own = diagnostics(errors@);
        assert(own =~= if before.type_env().methods.contains_key(t.name@) {
            seq![Diagnostic::DuplicatedSymbol(t.name@)]
        } else {
            Seq::empty()
        });
        let block = self.get_ir_block(&t.block, EnvType::NoEnv);
        let ghost done = *self;
        env_ctx.leave(&mut self.envs);
        proof {
            lemma_pop_declared(done.scopes(), done.decls());
            assert(self.scopes().envs =~= before.scopes().envs);
        }
        match block {
            Err(e) => {
                extend_errors(&mut errors, e);
            },
            Ok(b) => {
                let mut entry = self.method_decls.pop().unwrap();
                entry.block = Some(b);
                self.method_decls.push(entry);
                assert(own + Seq::<Diagnostic>::empty() =~= own);
                proof {
                    assert(done.decls().extended_by(self.decls()));
                    lemma_type_env_extended(self.scopes(), done.decls(), self.decls());
                    lemma_block_wf_extended(
                        done.decls(),
                        self.decls(),
                        Place { method: m, for_: None },
                        b,
                    );
                    lemma_block_elaborates_extended(
                        inside.scopes(),
                        done.decls(),
                        self.decls(),
                        t.block,
                        b,
                    );
                    assert(Made::of_vars(args@) == Made::range(
                        before.counts(),
                        inside.counts(),
                    ));
                    lemma_ranges_join(before.counts(), inside.counts(), done.counts());
                }
            },
        }
        proof {
            lemma_type_env_extended(before.scopes(), before.decls(), self.decls());
            lemma_type_env_bind_method(before.scopes(), self.decls(), t.name@, m);
            assert(method_sig_of(self.decls(), m).args =~= method_sig(*t).args);
        }
        if errors.len() == 0 {
            proof {
                let declared = self.decls();
                assert forall|a: int|
                    0 <= a < declared.method(m).args@.len() implies declared.has_var(
                    #[trigger] declared.method(m).args@[a],
                ) && !declared.var(declared.method(m).args@[a]).is_array() by {
                    assert(declared.method(m).args@[a] == args@[a]);
                }
            }
            Ok(m)
        } else {
            Err(errors)
        }
    }

    /// What building the first `n` method declarations leaves behind.
    spec fn methods_built(
        &self,
        before: Self,
        ms: Seq<token::MethodDecl>,
        n: int,
        handles: Seq<ir::MethodDecl>,
        errors: Seq<SemanticCheckError>,
    ) -> bool {
        &&& self.inv()
        &&& before.decls().extended_by(self.decls())
        &&& self.scopes().envs == before.scopes().envs
        &&& self.type_env() == methods_env(before.type_env(), ms, n)
        &&& diagnostics(errors) == method_decls_errors(before.type_env(), ms, n)
        &&& before.counts().le(self.counts())
        &&& self.decls().methods.len() == before.decls().methods.len() + n
        &&& errors.len() == 0 ==> {
            &&& handles.len() == n
            &&& self.scopes() == methods_scopes(before.scopes(), ms, handles, n)
            &&& methods_made(self.decls(), handles, n) == Made::range(
                before.counts(),
                self.counts(),
            )
            &&& forall|k: int|
                0 <= k < n ==> {
                    &&& (#[trigger] handles[k]).id == before.decls().methods.len() + k
                    &&& method_wf(self.decls(), handles[k])
                    &&& method_elaborates(
                        methods_scopes(before.scopes(), ms, handles, k),
                        self.decls(),
                        ms[k],
                        handles[k],
                    )
                }
        }
    }

    /// Builds the methods `decls`, all of them; what they earn is reported
    /// together, in order.
    fn get_ir_method_decls(&mut self, decls: &Vec<token::MethodDecl>) -> (res: IRResult<
        Vec<ir::MethodDecl>,
    >)
        requires
            old(self).inv(),
            old(self).scopes().current_for() is None,
        ensures
            final(self).methods_built(*old(self), decls@, decls@.len() as int, match res {
                Ok(handles) => handles@,
                Err(_) => Seq::empty(),
            }, match res {
                Ok(_) => Seq::empty(),
                Err(errors) => errors@,
            }),
            res matches Err(errors) ==> errors@.len() > 0,
    {
        let mut methods: Vec<ir::MethodDecl> = Vec::new();
        let mut errors: Vec<SemanticCheckError> = Vec::new();
        let ghost start = *self;
        let mut i: usize = 0;
        assert(diagnostics(errors@) =~= Seq::empty());
        proof {
            lemma_range_empty(start.counts());
        }
        while i < decls.len()
            invariant
                start.inv(),
                start.scopes().current_for() is None,
                i <= decls@.len(),
                self.methods_built(start, decls@, i as int, methods@, errors@),
            decreases decls@.len() - i,
        {
            let ghost before = *self;
            let ghost built = methods@;
            let ghost errors_before = errors@;
            assert(before.scopes().current_for() == start.scopes().current_for());
            match self.get_ir_method_decl(&decls[i]) {
                Ok(d) => {
                    methods.push(d);
                    assert(diagnostics(errors@) + Seq::<Diagnostic>::empty() =~= diagnostics(
                        errors@,
                    ));
                },
                Err(e) => {
                    extend_errors(&mut errors, e);
                },
            }
            proof {
                if errors@.len() == 0 {
                    assert(errors_before.len() == 0);
                    assert(methods@.drop_last() =~= built);
                    lemma_methods_scopes_prefix(start.scopes(), decls@, built, methods@, i as int);
                    lemma_methods_made_prefix(
                        before.decls(),
                        self.decls(),
                        built,
                        methods@,
                        i as int,
                    );
                    lemma_ranges_join(start.counts(), before.counts(), self.counts());
                    assert forall|k: int| 0 <= k < i + 1 implies {
                        &&& (#[trigger] methods@[k]).id == start.decls().methods.len() + k
                        &&& method_wf(self.decls(), methods@[k])
                        &&& method_elaborates(
                            methods_scopes(start.scopes(), decls@, methods@, k),
                            self.decls(),
                            decls@[k],
                            methods@[k],
                        )
                    } by {
                        if k < i {
                            assert(methods@[k] == built[k]);
                            assert(built[k].id == start.decls().methods.len() + k);
                            lemma_methods_scopes_prefix(start.scopes(), decls@, built, methods@, k);
                            lemma_method_wf_extended(before.decls(), self.decls(), built[k]);
                            lemma_method_elaborates_extended(
                                methods_scopes(start.scopes(), decls@, built, k),
                                before.decls(),
                                self.decls(),
                                decls@[k],
                                built[k],
                            );
                        } else {
                            assert(methods@[k].id == before.decls().methods.len());
                            assert(method_wf(self.decls(), methods@[k]));
                            assert(method_elaborates(
                                before.scopes(),
                                self.decls(),
                                decls@[k],
                                methods@[k],
                            ));
                        }
                    }
                }
            }
            i = i + 1;
        }
        if errors.len() != 0 {
            Err(errors)
        } else {
            assert(errors@ =~= Seq::empty());
            Ok(methods)
        }
    }

    /// Nothing is declared and no scope is open.
    pub closed spec fn is_new(&self) -> bool {
        &&& self.envs@.envs.len() == 0
        &&& self.envs@.methods == Map::<Seq<char>, ir::MethodDecl>::empty()
        &&& self.var_decls@.len() == 0
        &&& self.method_decls@.len() == 0
        &&& self.next_for == 0
        &&& self.next_ifelse == 0
        &&& self.ifs@ == 0
    }

    pub fn new() -> (res: Self)
        ensures
            res.is_new(),
    {
        Self {
            envs: EnvStack::new(),
            var_decls: Vec::new(),
            method_decls: Vec::new(),
            next_for: 0,
            next_ifelse: 0,
            ifs: Ghost(0),
        }
    }

    /// Builds the typed tree of `p`: the fields in one global scope, then
    /// the methods.
    fn construct_ir(self, p: &token::Program) -> (res: IRResult<ir::IRRoot>)
        requires
            self.is_new(),
            array_sizes_positive(*p),
        ensures
            reports(res, build_errors(*p)),
            res matches Ok(root) ==> root.wf() && root.numbered() && program_elaborates(*p, root),
    {
        let mut this = self;
        let ghost empty = this.scopes();
        proof {
            lemma_type_env_push(empty, this.decls(), EnvType::Global);
            lemma_push_lookups(empty, EnvType::Global, Seq::empty());
            assert(type_env_of(empty, this.decls()).vars =~= TypeEnv::empty().vars);
            assert(type_env_of(empty, this.decls()).methods =~= TypeEnv::empty().methods);
            assert(empty.envs =~= Seq::empty());
            assert(empty == (EnvStackView { methods: Map::empty(), envs: Seq::empty() }));
        }
        let env_ctx = EnvContext::new(&mut this.envs, EnvType::Global);
        let ghost global = this;
        assert(global.type_env() == TypeEnv::empty());
        let mut errors: Vec<SemanticCheckError> = Vec::new();
        let field_decls = match this.get_ir_field_decls(&p.field_decls) {
            Err(e) => {
                extend_errors(&mut errors, e);
                None
            },
            Ok(m) => Some(m),
        };
        let ghost fields = this;
        let method_decls = match this.get_ir_method_decls(&p.method_decls) {
            Err(e) => {
                extend_errors(&mut errors, e);
                None
            },
            Ok(m) => Some(m),
        };
        env_ctx.leave(&mut this.envs);
        assert(diagnostics(errors@) =~= build_errors(*p));
        if errors.len() != 0 {
            return Err(errors);
        }
        let program_decl = ir::ProgramClassDecl {
            field_decls: field_decls.unwrap(),
            method_decls: method_decls.unwrap(),
        };
        let root = ir::IRRoot {
            root: program_decl,
            var_decls: this.var_decls,
            method_decls: this.method_decls,
        };
        proof {
            lemma_ranges_join(global.counts(), fields.counts(), this.counts());
            let made = methods_made(
                root.decls(),
                root.root.method_decls@,
                root.root.method_decls@.len() as int,
            );
            assert(root.root.field_decls@ + made.vars == var_range(
                0,
                root.var_decls@.len() as int,
            ));
            assert(made.fors.len() == this.counts().fors);
            assert(fields.scopes() == global_scopes(*p, root));
            assert forall|k: int|
                0 <= k < root.root.field_decls@.len() implies root.decls().has_var(
                #[trigger] root.root.field_decls@[k],
            ) by {
                assert(fields.decls().has_var(root.root.field_decls@[k]));
            }
        }
        Ok(root)
    }

    /// Runs the checks that need no typing; all of them run, and what
    /// they find is put together.
    fn pre_ir_check(&self, p: &token::Program) -> (res: Result<(), Vec<SemanticCheckError>>)
        ensures
            reports(res, pre_check_errors(*p)),
    {
        let mut errors: Vec<SemanticCheckError> = Vec::new();
        match has_main(p) {
            Err(e) => {
                errors.push(e);
            },
            Ok(_) => (),
        }
        match is_array_size_positive(p) {
            Err(e) => {
                errors.push(e);
            },
            Ok(_) => (),
        }
        assert(diagnostics(errors@) =~= pre_check_errors(*p));
        if errors.len() == 0 {
            Ok(())
        } else {
            Err(errors)
        }
    }

    /// Runs the checks on the built tree. There are none yet: every tree
    /// passes.
    fn post_ir_check(&self, p: &ir::IRRoot) -> (res: Result<(), Vec<SemanticCheckError>>)
        ensures
            res is Ok,
    {
        Ok(())
    }

    /// Analyses a program. The result is its typed tree exactly when
    /// nothing is wrong with it; else it is the list, never empty, of
    /// everything that is: what the checks on the syntax find, or, where
    /// they find nothing, what typing finds, in the order of a
    /// left-to-right, depth-first walk.
    pub fn create_ir(&self, p: token::Program) -> (res: Result<
        ir::IRRoot,
        Vec<SemanticCheckError>,
    >)
        ensures
            reports(res, program_errors(p)),
            res matches Ok(root) ==> {
                &&& root.wf()
                &&& root.numbered()
                &&& root.scoped()
                &&& program_elaborates(p, root)
            },
    {
        match self.pre_ir_check(&p) {
            Err(errors) => {
                return Err(errors);
            },
            Ok(_) => (),
        }
        let root = match SemanticAnalyzer::new().construct_ir(&p) {
            Err(errors) => {
                return Err(errors);
            },
            Ok(root) => root,
        };
        match self.post_ir_check(&root) {
            Err(errors) => {
                return Err(errors);
            },
            Ok(_) => (),
        }
        proof {
            laws::lemma_uses_are_in_scope(p, root);
        }
        Ok(root)
    }
}

} // verus!
