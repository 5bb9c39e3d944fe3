//! What it means for a typed tree to be the elaboration of a syntax
//! tree: the same shape, with every name replaced by the declaration that
//! the scope stack resolves it to.

use super::env::{EnvStackView, EnvType};
use super::ir;
use super::ir::{AssignOp, BinaryOp, Decls, UnaryOp};
use super::typing::{arg_items, field_items, var_items, Declared};
use crate::token;
use vstd::prelude::*;

verus! {

pub open spec fn literal_elaborates(t: token::Literal, l: ir::Literal) -> bool {
    match t {
        token::Literal::Int(v) => l == ir::Literal::Int(v),
        token::Literal::Bool(token::BoolLiteral::True) => l == ir::Literal::Boolean(true),
        token::Literal::Bool(token::BoolLiteral::False) => l == ir::Literal::Boolean(false),
        token::Literal::Char(c) => l == ir::Literal::Int(c as i32),
    }
}

/// `l` names the declaration that the name of `t` resolves to, and its
/// index elaborates that of `t`.
pub open spec fn location_elaborates(
    scopes: EnvStackView,
    t: token::Location,
    l: ir::Location,
) -> bool
    decreases t,
{
    &&& scopes.find_var(t.name@) == Some(l.decl)
    &&& match (t.arr_size, l.arr_size) {
        (Some(ti), Some(i)) => expr_elaborates(scopes, *ti, *i),
        (None, None) => true,
        _ => false,
    }
}

pub open spec fn callout_arg_elaborates(
    scopes: EnvStackView,
    t: token::CalloutArg,
    a: ir::CalloutArg,
) -> bool
    decreases t,
{
    match (t, a) {
        (token::CalloutArg::Expr(te), ir::CalloutArg::Expr(e)) => expr_elaborates(scopes, *te, *e),
        (token::CalloutArg::StringLiteral(ts), ir::CalloutArg::StringLiteral(s)) => s@ == ts@,
        _ => false,
    }
}

/// `c` calls the method that the name in `t` resolves to, or the callout
/// of the same name, with the elaborations of the arguments of `t`.
pub open spec fn call_elaborates(scopes: EnvStackView, t: token::MethodCall, c: ir::Call) -> bool
    decreases t,
{
    match (t, c) {
        (token::MethodCall::Method(tm), ir::Call::Method(m)) => {
            &&& scopes.find_method(tm.name@) == Some(m.decl)
            &&& m.args@.len() == tm.args@.len()
            &&& forall|i: int|
                0 <= i < tm.args@.len() ==> expr_elaborates(
                    scopes,
                    *#[trigger] tm.args@[i],
                    *m.args@[i],
                )
        },
        (token::MethodCall::Callout(tc), ir::Call::Callout(c)) => {
            &&& c.name@ == tc.name@
            &&& c.args@.len() == tc.args@.len()
            &&& forall|i: int|
                0 <= i < tc.args@.len() ==> callout_arg_elaborates(
                    scopes,
                    #[trigger] tc.args@[i],
                    c.args@[i],
                )
        },
        _ => false,
    }
}

/// `e` has the shape of `t`, with every name resolved in `scopes`.
pub open spec fn expr_elaborates(scopes: EnvStackView, t: token::Expr0, e: ir::Expr0) -> bool
    decreases t,
{
    match (t, e.expr) {
        (token::Expr0::Location(tl), ir::ExprType::Location(l)) => location_elaborates(
            scopes,
            tl,
            l,
        ),
        (token::Expr0::MethodCall(tc), ir::ExprType::Call(c)) => call_elaborates(scopes, tc, c),
        (token::Expr0::Literal(tl), ir::ExprType::Literal(l)) => literal_elaborates(tl, l),
        (token::Expr0::Unary(tu), ir::ExprType::Unary(u)) => {
            &&& u.op == UnaryOp::spec_from(tu.op)
            &&& expr_elaborates(scopes, *tu.expr, *u.expr)
        },
        (token::Expr0::Binary(tb), ir::ExprType::Binary(b)) => {
            &&& b.op == BinaryOp::spec_from(tb.op)
            &&& expr_elaborates(scopes, *tb.lhs, *b.lhs)
            &&& expr_elaborates(scopes, *tb.rhs, *b.rhs)
        },
        _ => false,
    }
}

/// The handles `handles` name, one for one and in order, declarations
/// that say what `items` say.
pub open spec fn declares(ds: Decls, handles: Seq<ir::VarDecl>, items: Seq<Declared>) -> bool {
    &&& handles.len() == items.len()
    &&& forall|k: int|
        0 <= k < handles.len() ==> ds.has_var(#[trigger] handles[k]) && ds.var(handles[k])@
            == items[k]
}

/// The scope stack after each of `items` was bound, in order, to the
/// handle at its place in `handles`.
pub open spec fn bind_all(
    scopes: EnvStackView,
    items: Seq<Declared>,
    handles: Seq<ir::VarDecl>,
) -> EnvStackView
    decreases items.len(),
{
    if items.len() == 0 {
        scopes
    } else {
        bind_all(scopes, items.drop_last(), handles.drop_last()).bind_var(
            items.last().name,
            handles.last(),
        )
    }
}

/// `s` has the shape of `t`, with every name resolved in the scopes it
/// stands in and every construct pointing at what encloses it.
pub open spec fn stmt_elaborates(
    scopes: EnvStackView,
    ds: Decls,
    t: token::Statement,
    s: ir::Statement0,
) -> bool
    decreases t,
{
    match (t, s) {
        (token::Statement::Assign(ta), ir::Statement0::Assign(a)) => {
            &&& a.op == AssignOp::spec_from(ta.op)
            &&& location_elaborates(scopes, ta.dst, a.dst)
            &&& expr_elaborates(scopes, *ta.val, *a.val)
        },
        (token::Statement::MethodCall(tc), ir::Statement0::Call(c)) => call_elaborates(
            scopes,
            tc,
            c,
        ),
        (token::Statement::IfElse(ti), ir::Statement0::IfElse(i)) => {
            &&& expr_elaborates(scopes, *ti.cond, *i.cond)
            &&& i.true_block matches Some(b) && block_elaborates(
                scopes.push(EnvType::If(i.id)),
                ds,
                ti.true_block,
                b,
            )
            &&& match (ti.false_block, i.false_block) {
                (Some(tb), Some(b)) => block_elaborates(
                    scopes.push(EnvType::Else(i.id)),
                    ds,
                    tb,
                    b,
                ),
                (None, None) => true,
                _ => false,
            }
        },
        (token::Statement::Loop(tl), ir::Statement0::For(f)) => {
            &&& expr_elaborates(scopes, *tl.start, *f.start)
            &&& expr_elaborates(scopes, *tl.end, *f.end)
            &&& ds.has_var(f.index_decl)
            &&& ds.var(f.index_decl)@ == (Declared {
                type_: ir::Type::Int,
                name: tl.index_var@,
                arr_size: None,
            })
            &&& f.block matches Some(b) && block_elaborates(
                scopes.push(EnvType::For(f.id)).bind_var(tl.index_var@, f.index_decl),
                ds,
                tl.block,
                b,
            )
        },
        (token::Statement::Return(tr), ir::Statement0::Return(r)) => {
            &&& scopes.current_method() == Some(r.func)
            &&& match (tr.val, r.val) {
                (Some(te), Some(e)) => expr_elaborates(scopes, *te, *e),
                (None, None) => true,
                _ => false,
            }
        },
        (token::Statement::Break, ir::Statement0::Break(b)) => scopes.current_for() == Some(
            b.for_,
        ),
        (token::Statement::Continue, ir::Statement0::Continue(c)) => scopes.current_for() == Some(
            c.for_,
        ),
        (token::Statement::Block(tb), ir::Statement0::Block(b)) => block_elaborates(
            scopes.push(EnvType::Anon),
            ds,
            tb,
            b,
        ),
        _ => false,
    }
}

/// `b` elaborates `t` in the scope `scopes`, which the block does not
/// open itself: its variables are the declarations of `t`, and its
/// statements elaborate those of `t` with these variables in scope.
pub open spec fn block_elaborates(
    scopes: EnvStackView,
    ds: Decls,
    t: token::Block,
    b: ir::Block,
) -> bool
    decreases t,
{
    &&& declares(ds, b.var_decls@, var_items(t.var_decls@))
    &&& b.statements@.len() == t.statements@.len()
    &&& forall|i: int|
        0 <= i < t.statements@.len() ==> stmt_elaborates(
            bind_all(scopes, var_items(t.var_decls@), b.var_decls@),
            ds,
            #[trigger] t.statements@[i],
            b.statements@[i],
        )
}

/// Elaboration does not depend on declarations made later.
pub proof fn lemma_stmt_elaborates_extended(
    scopes: EnvStackView,
    ds: Decls,
    later: Decls,
    t: token::Statement,
    s: ir::Statement0,
)
    requires
        stmt_elaborates(scopes, ds, t, s),
        ds.extended_by(later),
    ensures
        stmt_elaborates(scopes, later, t, s),
    decreases t,
{
    match (t, s) {
        (token::Statement::IfElse(ti), ir::Statement0::IfElse(i)) => {
            lemma_block_elaborates_extended(
                scopes.push(EnvType::If(i.id)),
                ds,
                later,
                ti.true_block,
                i.true_block->0,
            );
            if ti.false_block is Some {
                lemma_block_elaborates_extended(
                    scopes.push(EnvType::Else(i.id)),
                    ds,
                    later,
                    ti.false_block->0,
                    i.false_block->0,
                );
            }
        },
        (token::Statement::Loop(tl), ir::Statement0::For(f)) => {
            lemma_block_elaborates_extended(
                scopes.push(EnvType::For(f.id)).bind_var(tl.index_var@, f.index_decl),
                ds,
                later,
                tl.block,
                f.block->0,
            );
        },
        (token::Statement::Block(tb), ir::Statement0::Block(b)) => {
            lemma_block_elaborates_extended(scopes.push(EnvType::Anon), ds, later, tb, b);
        },
        _ => {},
    }
}

/// Elaboration does not depend on declarations made later.
pub proof fn lemma_block_elaborates_extended(
    scopes: EnvStackView,
    ds: Decls,
    later: Decls,
    t: token::Block,
    b: ir::Block,
)
    requires
        block_elaborates(scopes, ds, t, b),
        ds.extended_by(later),
    ensures
        block_elaborates(scopes, later, t, b),
    decreases t,
{
    let inner = bind_all(scopes, var_items(t.var_decls@), b.var_decls@);
    assert forall|i: int| 0 <= i < t.statements@.len() implies stmt_elaborates(
        inner,
        later,
        #[trigger] t.statements@[i],
        b.statements@[i],
    ) by {
        lemma_stmt_elaborates_extended(inner, ds, later, t.statements@[i], b.statements@[i]);
    }
}

/// Method `m` elaborates the declaration `t` found in `scopes`: it has
/// the name, return type and arguments of `t`, and its body elaborates
/// that of `t` in the scope that holds the arguments, with the method
/// itself declared.
pub open spec fn method_elaborates(
    scopes: EnvStackView,
    ds: Decls,
    t: token::MethodDecl,
    m: ir::MethodDecl,
) -> bool {
    &&& ds.has_method(m)
    &&& ds.method(m).return_type == ir::Type::spec_from(t.return_type)
    &&& ds.method(m).name@ == t.name@
    &&& declares(ds, ds.method(m).args@, arg_items(t.args@))
    &&& ds.method(m).block matches Some(b) && block_elaborates(
        bind_all(
            scopes.push(EnvType::Method(m)),
            arg_items(t.args@),
            ds.method(m).args@,
        ).bind_method(t.name@, m),
        ds,
        t.block,
        b,
    )
}

/// Elaboration of a method does not depend on declarations made later,
/// as long as the method itself stays as it is.
pub proof fn lemma_method_elaborates_extended(
    scopes: EnvStackView,
    ds: Decls,
    later: Decls,
    t: token::MethodDecl,
    m: ir::MethodDecl,
)
    requires
        method_elaborates(scopes, ds, t, m),
        ds.extended_by(later),
        later.method(m) == ds.method(m),
    ensures
        method_elaborates(scopes, later, t, m),
{
    lemma_block_elaborates_extended(
        bind_all(
            scopes.push(EnvType::Method(m)),
            arg_items(t.args@),
            ds.method(m).args@,
        ).bind_method(t.name@, m),
        ds,
        later,
        t.block,
        ds.method(m).block->0,
    );
}

/// The scope stack after the first `n` of the methods `ms` were declared,
/// each under the handle at its place in `handles`.
pub open spec fn methods_scopes(
    scopes: EnvStackView,
    ms: Seq<token::MethodDecl>,
    handles: Seq<ir::MethodDecl>,
    n: int,
) -> EnvStackView
    decreases n,
{
    if n <= 0 {
        scopes
    } else {
        methods_scopes(scopes, ms, handles, n - 1).bind_method(ms[n - 1].name@, handles[n - 1])
    }
}

/// The scope of the class body: one global environment that holds the
/// fields.
pub open spec fn global_scopes(p: token::Program, ir: ir::IRRoot) -> EnvStackView {
    bind_all(
        (EnvStackView { methods: Map::empty(), envs: Seq::empty() }).push(EnvType::Global),
        field_items(p.field_decls@),
        ir.root.field_decls@,
    )
}

/// `ir` is the elaboration of the program `p`: its fields are the fields
/// that `p` declares, and its methods elaborate those of `p`, each seeing
/// the fields, the methods before it and itself.
pub open spec fn program_elaborates(p: token::Program, ir: ir::IRRoot) -> bool {
    &&& declares(ir.decls(), ir.root.field_decls@, field_items(p.field_decls@))
    &&& ir.root.method_decls@.len() == p.method_decls@.len()
    &&& forall|i: int|
        0 <= i < p.method_decls@.len() ==> method_elaborates(
            methods_scopes(global_scopes(p, ir), p.method_decls@, ir.root.method_decls@, i),
            ir.decls(),
            #[trigger] p.method_decls@[i],
            ir.root.method_decls@[i],
        )
}

/// The scope stack after the first `n` methods does not depend on the
/// handles after them.
pub proof fn lemma_methods_scopes_prefix(
    scopes: EnvStackView,
    ms: Seq<token::MethodDecl>,
    a: Seq<ir::MethodDecl>,
    b: Seq<ir::MethodDecl>,
    n: int,
)
    requires
        n <= a.len(),
        n <= b.len(),
        forall|i: int| 0 <= i < n ==> a[i] == b[i],
    ensures
        methods_scopes(scopes, ms, a, n) == methods_scopes(scopes, ms, b, n),
    decreases n,
{
    if n > 0 {
        lemma_methods_scopes_prefix(scopes, ms, a, b, n - 1);
    }
}

} // verus!
