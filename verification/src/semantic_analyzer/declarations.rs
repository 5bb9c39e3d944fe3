//! Building declarations: each declared name gets a declaration of its
//! own and is bound in the innermost scope.

use super::bridge::{lemma_bind_var_lookups, lemma_type_env_bind_var, lemma_type_env_extended};
use super::env::{EnvContext, EnvType};
use super::ir;
use super::ir::{lemma_range_empty, lemma_range_grows};
use super::passes::{diagnostics, Diagnostic, IRResult, SemanticCheckError};
use super::typing::{
    declare_errors, field_items, field_line_items, line_items, var_items, Declared,
};
use super::SemanticAnalyzer;
use crate::token;
use vstd::prelude::*;

verus! {

impl SemanticAnalyzer {
    /// Declares one variable in the innermost scope.
    pub(super) fn declare_item(
        &mut self,
        type_: ir::Type,
        name: &String,
        arr_size: Option<i32>,
        res: &mut Vec<ir::VarDecl>,
        errors: &mut Vec<SemanticCheckError>,
        Ghost(start): Ghost<Self>,
        Ghost(items): Ghost<Seq<Declared>>,
    )
        requires
            start.inv(),
            start.scopes().envs.len() > 0,
            old(self).declared(start, items, old(res)@, old(errors)@),
            arr_size matches Some(n) ==> n > 0,
        ensures
            final(self).declared(
                start,
                items.push(Declared { type_, name: name@, arr_size }),
                final(res)@,
                final(errors)@,
            ),
    {
        let ghost item = Declared { type_, name: name@, arr_size };
        let ghost before = *self;
        let d = ir::VarDecl0 { type_: type_, name: name.clone(), arr_size: arr_size };
        let handle = ir::VarDecl { id: self.var_decls.len() };
        self.var_decls.push(d);
        proof {
            lemma_type_env_extended(before.scopes(), before.decls(), self.decls());
            lemma_type_env_bind_var(self.scopes(), self.decls(), name@, handle);
            lemma_bind_var_lookups(self.scopes(), name@, handle, name@);
            assert(items.push(item).drop_last() =~= items);
        }
        let env_ctx = EnvContext::new(&mut self.envs, EnvType::NoEnv);
        match env_ctx.add_var(&mut self.envs, name, &handle) {
            Err(_) => {
                errors.push(SemanticCheckError::DuplicatedSymbol(name.clone()));
                assert(diagnostics(errors@) =~= declare_errors(start.type_env(), items) + seq![
                    Diagnostic::DuplicatedSymbol(name@),
                ]);
            },
            Ok(_) => {
                res.push(handle);
                assert(diagnostics(errors@) =~= declare_errors(start.type_env(), items)
                    + Seq::empty());
                assert(res@.drop_last() =~= old(res)@);
                proof {
                    if errors@.len() == 0 {
                        lemma_range_grows(start.counts().vars, before.counts().vars);
                    }
                }
            },
        }
        env_ctx.leave(&mut self.envs);
    }

    /// Declares the fields, each in the innermost scope. A name that is
    /// taken there is reported, and the walk goes on.
    #[verifier::loop_isolation(false)]
    pub(super) fn get_ir_field_decls(&mut self, decls: &Vec<token::FieldDecl>) -> (res: IRResult<
        Vec<ir::VarDecl>,
    >)
        requires
            old(self).inv(),
            old(self).scopes().envs.len() > 0,
            forall|i: int, j: int|
                0 <= i < decls@.len() && 0 <= j < decls@[i].loc@.len() ==> (
                #[trigger] decls@[i].loc@[j].arr_size matches Some(n) ==> n > 0),
        ensures
            final(self).declared(*old(self), field_items(decls@), match res {
                Ok(handles) => handles@,
                Err(_) => Seq::empty(),
            }, match res {
                Ok(_) => Seq::empty(),
                Err(errors) => errors@,
            }),
            res matches Err(errors) ==> errors@.len() > 0,
    {
        let mut res: Vec<ir::VarDecl> = Vec::new();
        let mut errors: Vec<SemanticCheckError> = Vec::new();
        let ghost start = *self;
        proof {
            lemma_bind_var_lookups(
                start.scopes(),
                Seq::empty(),
                ir::VarDecl { id: 0 },
                Seq::empty(),
            );
        }
        let mut i: usize = 0;
        assert(diagnostics(errors@) =~= Seq::empty());
        assert(decls@.take(0) =~= Seq::empty());
        proof {
            lemma_range_empty(start.counts());
        }
        while i < decls.len()
            invariant
                start.inv(),
                start.scopes().envs.len() > 0,
                i <= decls@.len(),
                self.declared(start, field_items(decls@.take(i as int)), res@, errors@),
            decreases decls@.len() - i,
        {
            let line = &decls[i];
            let t = ir::Type::from(&line.type_);
            let ghost done = field_items(decls@.take(i as int));
            let mut j: usize = 0;
            while j < line.loc.len()
                invariant
                    start.inv(),
                    start.scopes().envs.len() > 0,
                    j <= line.loc@.len(),
                    t == ir::Type::spec_from(line.type_),
                    self.declared(
                        start,
                        done + field_line_items(*line).take(j as int),
                        res@,
                        errors@,
                    ),
                decreases line.loc@.len() - j,
            {
                let field = &line.loc[j];
                self.declare_item(
                    t,
                    &field.name,
                    field.arr_size,
                    &mut res,
                    &mut errors,
                    Ghost(start),
                    Ghost(done + field_line_items(*line).take(j as int)),
                );
                assert((done + field_line_items(*line).take(j as int)).push(
                    field_line_items(*line)[j as int],
                ) =~= done + field_line_items(*line).take(j + 1));
                j = j + 1;
            }
            assert(field_line_items(*line).take(line.loc@.len() as int) =~= field_line_items(
                *line,
            ));
            assert(decls@.take(i + 1).drop_last() =~= decls@.take(i as int));
            i = i + 1;
        }
        assert(decls@.take(decls@.len() as int) =~= decls@);
        if errors.len() != 0 {
            Err(errors)
        } else {
            assert(errors@ =~= Seq::empty());
            Ok(res)
        }
    }

    /// Declares the local variables, each in the innermost scope. A name
    /// that is taken there is reported, and the walk goes on.
    pub(super) fn get_ir_var_decls(&mut self, decls: &Vec<token::VarDecl>) -> (res: IRResult<
        Vec<ir::VarDecl>,
    >)
        requires
            old(self).inv(),
            old(self).scopes().envs.len() > 0,
        ensures
            final(self).declared(*old(self), var_items(decls@), match res {
                Ok(handles) => handles@,
                Err(_) => Seq::empty(),
            }, match res {
                Ok(_) => Seq::empty(),
                Err(errors) => errors@,
            }),
            res matches Err(errors) ==> errors@.len() > 0,
    {
        let mut res: Vec<ir::VarDecl> = Vec::new();
        let mut errors: Vec<SemanticCheckError> = Vec::new();
        let ghost start = *self;
        proof {
            lemma_bind_var_lookups(
                start.scopes(),
                Seq::empty(),
                ir::VarDecl { id: 0 },
                Seq::empty(),
            );
        }
        let mut i: usize = 0;
        assert(diagnostics(errors@) =~= Seq::empty());
        assert(decls@.take(0) =~= Seq::empty());
        proof {
            lemma_range_empty(start.counts());
        }
        while i < decls.len()
            invariant
                start.inv(),
                start.scopes().envs.len() > 0,
                i <= decls@.len(),
                self.declared(start, var_items(decls@.take(i as int)), res@, errors@),
            decreases decls@.len() - i,
        {
            let line = &decls[i];
            let t = ir::Type::from(&line.type_);
            let ghost done = var_items(decls@.take(i as int));
            let mut j: usize = 0;
            while j < line.identifiers.len()
                invariant
                    start.inv(),
                    start.scopes().envs.len() > 0,
                    j <= line.identifiers@.len(),
                    t == ir::Type::spec_from(line.type_),
                    self.declared(start, done + line_items(*line).take(j as int), res@, errors@),
                decreases line.identifiers@.len() - j,
            {
                self.declare_item(
                    t,
                    &line.identifiers[j],
                    None,
                    &mut res,
                    &mut errors,
                    Ghost(start),
                    Ghost(done + line_items(*line).take(j as int)),
                );
                assert((done + line_items(*line).take(j as int)).push(line_items(*line)[j as int])
                    =~= done + line_items(*line).take(j + 1));
                j = j + 1;
            }
            assert(line_items(*line).take(line.identifiers@.len() as int) =~= line_items(*line));
            assert(decls@.take(i + 1).drop_last() =~= decls@.take(i as int));
            i = i + 1;
        }
        assert(decls@.take(decls@.len() as int) =~= decls@);
        if errors.len() != 0 {
            Err(errors)
        } else {
            assert(errors@ =~= Seq::empty());
            Ok(res)
        }
    }
}

} // verus!
