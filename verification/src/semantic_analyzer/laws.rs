//! What holds of every typed tree that elaborates a program.

use super::elaborate::{
    bind_all, block_elaborates, call_elaborates, declares, expr_elaborates, global_scopes,
    location_elaborates, method_elaborates, methods_scopes, program_elaborates, stmt_elaborates,
};
use super::env::{find_var_below, EnvStackView, EnvType};
use super::ir;
use super::ir::{block_wf, call_wf, expr_wf, location_wf, method_wf, stmt_wf, Decls, Place, Type};
use super::scoping::{
    block_scoped, call_scoped, callout_arg_scoped, expr_scoped, lemma_block_scoped_grows,
    lemma_stmt_scoped_grows, location_scoped, method_scoped, stmt_scoped,
};
use super::typing::{arg_items, field_items, var_items, Declared};
use crate::token;
use vstd::prelude::*;

verus! {

/// The expression and every expression in it have type `Int` or `Bool`.
pub open spec fn expr_valued(e: ir::Expr0) -> bool
    decreases e,
{
    &&& e.type_ != Type::Void
    &&& match e.expr {
        ir::ExprType::Location(l) => location_valued(l),
        ir::ExprType::Literal(_) => true,
        ir::ExprType::Call(c) => call_valued(c),
        ir::ExprType::Unary(u) => expr_valued(*u.expr),
        ir::ExprType::Binary(b) => expr_valued(*b.lhs) && expr_valued(*b.rhs),
    }
}

pub open spec fn location_valued(l: ir::Location) -> bool
    decreases l,
{
    l.arr_size matches Some(index) ==> expr_valued(*index)
}

pub open spec fn callout_arg_valued(a: ir::CalloutArg) -> bool
    decreases a,
{
    a matches ir::CalloutArg::Expr(e) ==> expr_valued(*e)
}

pub open spec fn call_valued(c: ir::Call) -> bool
    decreases c,
{
    match c {
        ir::Call::Method(m) => forall|i: int|
            0 <= i < m.args@.len() ==> expr_valued(*#[trigger] m.args@[i]),
        ir::Call::Callout(c) => forall|i: int|
            0 <= i < c.args@.len() ==> callout_arg_valued(#[trigger] c.args@[i]),
    }
}

/// Every expression in the statement has type `Int` or `Bool`.
pub open spec fn stmt_valued(s: ir::Statement0) -> bool
    decreases s,
{
    match s {
        ir::Statement0::Assign(a) => location_valued(a.dst) && expr_valued(*a.val),
        ir::Statement0::Call(c) => call_valued(c),
        ir::Statement0::IfElse(i) => {
            &&& expr_valued(*i.cond)
            &&& i.true_block matches Some(b) ==> block_valued(b)
            &&& i.false_block matches Some(b) ==> block_valued(b)
        },
        ir::Statement0::For(f) => {
            &&& expr_valued(*f.start)
            &&& expr_valued(*f.end)
            &&& f.block matches Some(b) ==> block_valued(b)
        },
        ir::Statement0::Return(r) => r.val matches Some(e) ==> expr_valued(*e),
        ir::Statement0::Break(_) => true,
        ir::Statement0::Continue(_) => true,
        ir::Statement0::Block(b) => block_valued(b),
    }
}

/// Every expression in the block has type `Int` or `Bool`.
pub open spec fn block_valued(b: ir::Block) -> bool
    decreases b,
{
    forall|i: int| 0 <= i < b.statements@.len() ==> stmt_valued(#[trigger] b.statements@[i])
}

/// Every expression in the program has type `Int` or `Bool`.
pub open spec fn program_valued(root: ir::IRRoot) -> bool {
    forall|i: int|
        0 <= i < root.root.method_decls@.len() ==> (root.decls().method(
            #[trigger] root.root.method_decls@[i],
        ).block matches Some(b) ==> block_valued(b))
}

/// No variable declared in the statement is of type `Void`.
pub open spec fn stmt_vars_valued(t: token::Statement) -> bool
    decreases t,
{
    match t {
        token::Statement::IfElse(i) => {
            &&& block_vars_valued(i.true_block)
            &&& i.false_block matches Some(b) ==> block_vars_valued(b)
        },
        token::Statement::Loop(l) => block_vars_valued(l.block),
        token::Statement::Block(b) => block_vars_valued(b),
        _ => true,
    }
}

/// No variable declared in the block is of type `Void`.
pub open spec fn block_vars_valued(t: token::Block) -> bool
    decreases t,
{
    &&& forall|i: int|
        0 <= i < t.var_decls@.len() ==> !((#[trigger] t.var_decls@[i]).type_ is Void)
    &&& forall|i: int|
        0 <= i < t.statements@.len() ==> stmt_vars_valued(#[trigger] t.statements@[i])
}

/// No field, argument or local variable of the program is declared with
/// type `Void`.
pub open spec fn program_vars_valued(p: token::Program) -> bool {
    &&& forall|i: int|
        0 <= i < p.field_decls@.len() ==> !((#[trigger] p.field_decls@[i]).type_ is Void)
    &&& forall|i: int, j: int|
        0 <= i < p.method_decls@.len() && 0 <= j < p.method_decls@[i].args@.len() ==> !((
        #[trigger] p.method_decls@[i].args@[j]).type_ is Void)
    &&& forall|i: int|
        0 <= i < p.method_decls@.len() ==> block_vars_valued(
            (#[trigger] p.method_decls@[i]).block,
        )
}

/// Every variable in scope is declared with type `Int` or `Bool`.
pub open spec fn scopes_valued(scopes: EnvStackView, ds: Decls) -> bool {
    forall|i: int, n: Seq<char>|
        0 <= i < scopes.envs.len() && #[trigger] scopes.envs[i].table.contains_key(n) ==> ds.var(
            scopes.envs[i].table[n],
        ).type_ != Type::Void
}

proof fn lemma_found_is_valued(scopes: EnvStackView, ds: Decls, name: Seq<char>, n: int)
    requires
        scopes_valued(scopes, ds),
        n <= scopes.envs.len(),
    ensures
        find_var_below(scopes.envs, name, n) matches Some(d) ==> ds.var(d).type_ != Type::Void,
    decreases n,
{
    if n > 0 {
        lemma_found_is_valued(scopes, ds, name, n - 1);
    }
}

proof fn lemma_bind_all_valued(
    scopes: EnvStackView,
    ds: Decls,
    items: Seq<Declared>,
    handles: Seq<ir::VarDecl>,
)
    requires
        scopes_valued(scopes, ds),
        scopes.envs.len() > 0,
        declares(ds, handles, items),
        forall|k: int| 0 <= k < items.len() ==> (#[trigger] items[k]).type_ != Type::Void,
    ensures
        scopes_valued(bind_all(scopes, items, handles), ds),
        bind_all(scopes, items, handles).envs.len() == scopes.envs.len(),
    decreases items.len(),
{
    if items.len() > 0 {
        let rest = bind_all(scopes, items.drop_last(), handles.drop_last());
        assert forall|k: int| 0 <= k < items.drop_last().len() implies (
        #[trigger] items.drop_last()[k]).type_ != Type::Void by {
            assert(items.drop_last()[k] == items[k]);
        }
        assert forall|k: int| 0 <= k < handles.drop_last().len() implies ds.has_var(
            #[trigger] handles.drop_last()[k],
        ) && ds.var(handles.drop_last()[k])@ == items.drop_last()[k] by {
            assert(handles.drop_last()[k] == handles[k]);
        }
        lemma_bind_all_valued(scopes, ds, items.drop_last(), handles.drop_last());
        assert(ds.var(handles.last())@ == items.last());
    }
}

proof fn lemma_var_items_valued(decls: Seq<token::VarDecl>, k: int)
    requires
        forall|i: int| 0 <= i < decls.len() ==> !((#[trigger] decls[i]).type_ is Void),
        0 <= k < var_items(decls).len(),
    ensures
        var_items(decls)[k].type_ != Type::Void,
    decreases decls.len(),
{
    if decls.len() > 0 {
        if k < var_items(decls.drop_last()).len() {
            assert forall|i: int| 0 <= i < decls.drop_last().len() implies !((
            #[trigger] decls.drop_last()[i]).type_ is Void) by {
                assert(decls.drop_last()[i] == decls[i]);
            }
            lemma_var_items_valued(decls.drop_last(), k);
        } else {
            assert(!(decls[decls.len() - 1].type_ is Void));
        }
    }
}

proof fn lemma_field_items_valued(decls: Seq<token::FieldDecl>, k: int)
    requires
        forall|i: int| 0 <= i < decls.len() ==> !((#[trigger] decls[i]).type_ is Void),
        0 <= k < field_items(decls).len(),
    ensures
        field_items(decls)[k].type_ != Type::Void,
    decreases decls.len(),
{
    if decls.len() > 0 {
        if k < field_items(decls.drop_last()).len() {
            assert forall|i: int| 0 <= i < decls.drop_last().len() implies !((
            #[trigger] decls.drop_last()[i]).type_ is Void) by {
                assert(decls.drop_last()[i] == decls[i]);
            }
            lemma_field_items_valued(decls.drop_last(), k);
        } else {
            assert(!(decls[decls.len() - 1].type_ is Void));
        }
    }
}

proof fn lemma_push_valued(scopes: EnvStackView, ds: Decls, t: EnvType)
    requires
        scopes_valued(scopes, ds),
    ensures
        scopes_valued(scopes.push(t), ds),
        scopes.push(t).envs.len() > 0,
{
    let pushed = scopes.push(t);
    assert forall|i: int, n: Seq<char>|
        0 <= i < pushed.envs.len() && #[trigger] pushed.envs[i].table.contains_key(
            n,
        ) implies ds.var(pushed.envs[i].table[n]).type_ != Type::Void by {
        if i < scopes.envs.len() {
            assert(pushed.envs[i] == scopes.envs[i]);
        }
    }
}

proof fn lemma_expr_valued(scopes: EnvStackView, ds: Decls, t: token::Expr0, e: ir::Expr0)
    requires
        expr_elaborates(scopes, t, e),
        expr_wf(ds, e),
        scopes_valued(scopes, ds),
    ensures
        expr_valued(e),
    decreases t,
{
    match (t, e.expr) {
        (token::Expr0::Location(tl), ir::ExprType::Location(l)) => {
            lemma_location_valued(scopes, ds, tl, l);
        },
        (token::Expr0::MethodCall(tc), ir::ExprType::Call(c)) => {
            lemma_call_valued(scopes, ds, tc, c);
        },
        (token::Expr0::Unary(tu), ir::ExprType::Unary(u)) => {
            lemma_expr_valued(scopes, ds, *tu.expr, *u.expr);
        },
        (token::Expr0::Binary(tb), ir::ExprType::Binary(b)) => {
            lemma_expr_valued(scopes, ds, *tb.lhs, *b.lhs);
            lemma_expr_valued(scopes, ds, *tb.rhs, *b.rhs);
        },
        _ => {},
    }
}

proof fn lemma_location_valued(
    scopes: EnvStackView,
    ds: Decls,
    t: token::Location,
    l: ir::Location,
)
    requires
        location_elaborates(scopes, t, l),
        location_wf(ds, l),
        scopes_valued(scopes, ds),
    ensures
        location_valued(l),
        ds.var(l.decl).type_ != Type::Void,
    decreases t,
{
    lemma_found_is_valued(scopes, ds, t.name@, scopes.envs.len() as int);
    match (t.arr_size, l.arr_size) {
        (Some(ti), Some(i)) => {
            lemma_expr_valued(scopes, ds, *ti, *i);
        },
        _ => {},
    }
}

proof fn lemma_call_valued(scopes: EnvStackView, ds: Decls, t: token::MethodCall, c: ir::Call)
    requires
        call_elaborates(scopes, t, c),
        call_wf(ds, c),
        scopes_valued(scopes, ds),
    ensures
        call_valued(c),
    decreases t,
{
    match (t, c) {
        (token::MethodCall::Method(tm), ir::Call::Method(m)) => {
            assert forall|i: int| 0 <= i < m.args@.len() implies expr_valued(
                *#[trigger] m.args@[i],
            ) by {
                assert(expr_elaborates(scopes, *tm.args@[i], *m.args@[i]));
                lemma_expr_valued(scopes, ds, *tm.args@[i], *m.args@[i]);
            }
        },
        (token::MethodCall::Callout(tc), ir::Call::Callout(c)) => {
            assert forall|i: int| 0 <= i < c.args@.len() implies callout_arg_valued(
                #[trigger] c.args@[i],
            ) by {
                assert(super::elaborate::callout_arg_elaborates(scopes, tc.args@[i], c.args@[i]));
                assert(ir::callout_arg_wf(ds, c.args@[i]));
                match (tc.args@[i], c.args@[i]) {
                    (token::CalloutArg::Expr(te), ir::CalloutArg::Expr(e)) => {
                        lemma_expr_valued(scopes, ds, *te, *e);
                    },
                    _ => {},
                }
            }
        },
        _ => {},
    }
}

proof fn lemma_stmt_valued(
    scopes: EnvStackView,
    ds: Decls,
    place: Place,
    t: token::Statement,
    s: ir::Statement0,
)
    requires
        stmt_elaborates(scopes, ds, t, s),
        stmt_wf(ds, place, s),
        scopes_valued(scopes, ds),
        stmt_vars_valued(t),
    ensures
        stmt_valued(s),
    decreases t,
{
    match (t, s) {
        (token::Statement::Assign(ta), ir::Statement0::Assign(a)) => {
            lemma_location_valued(scopes, ds, ta.dst, a.dst);
            lemma_expr_valued(scopes, ds, *ta.val, *a.val);
        },
        (token::Statement::MethodCall(tc), ir::Statement0::Call(c)) => {
            lemma_call_valued(scopes, ds, tc, c);
        },
        (token::Statement::IfElse(ti), ir::Statement0::IfElse(i)) => {
            lemma_expr_valued(scopes, ds, *ti.cond, *i.cond);
            lemma_push_valued(scopes, ds, EnvType::If(i.id));
            lemma_block_valued(
                scopes.push(EnvType::If(i.id)),
                ds,
                place,
                ti.true_block,
                i.true_block->0,
            );
            if ti.false_block is Some {
                lemma_push_valued(scopes, ds, EnvType::Else(i.id));
                lemma_block_valued(
                    scopes.push(EnvType::Else(i.id)),
                    ds,
                    place,
                    ti.false_block->0,
                    i.false_block->0,
                );
            }
        },
        (token::Statement::Loop(tl), ir::Statement0::For(f)) => {
            lemma_expr_valued(scopes, ds, *tl.start, *f.start);
            lemma_expr_valued(scopes, ds, *tl.end, *f.end);
            lemma_push_valued(scopes, ds, EnvType::For(f.id));
            let index = Declared { type_: Type::Int, name: tl.index_var@, arr_size: None };
            assert(bind_all(scopes.push(EnvType::For(f.id)), seq![index], seq![f.index_decl])
                == scopes.push(EnvType::For(f.id)).bind_var(tl.index_var@, f.index_decl)) by {
                reveal_with_fuel(bind_all, 2);
                assert(seq![index].drop_last() =~= Seq::<Declared>::empty());
                assert(seq![f.index_decl].drop_last() =~= Seq::<ir::VarDecl>::empty());
                assert(seq![index].last() == index);
                assert(seq![f.index_decl].last() == f.index_decl);
            }
            lemma_bind_all_valued(
                scopes.push(EnvType::For(f.id)),
                ds,
                seq![index],
                seq![f.index_decl],
            );
            lemma_block_valued(
                scopes.push(EnvType::For(f.id)).bind_var(tl.index_var@, f.index_decl),
                ds,
                Place { for_: Some(f.id), ..place },
                tl.block,
                f.block->0,
            );
        },
        (token::Statement::Return(tr), ir::Statement0::Return(r)) => {
            match (tr.val, r.val) {
                (Some(te), Some(e)) => {
                    lemma_expr_valued(scopes, ds, *te, *e);
                },
                _ => {},
            }
        },
        (token::Statement::Block(tb), ir::Statement0::Block(b)) => {
            lemma_push_valued(scopes, ds, EnvType::Anon);
            lemma_block_valued(scopes.push(EnvType::Anon), ds, place, tb, b);
        },
        _ => {},
    }
}

proof fn lemma_block_valued(
    scopes: EnvStackView,
    ds: Decls,
    place: Place,
    t: token::Block,
    b: ir::Block,
)
    requires
        block_elaborates(scopes, ds, t, b),
        block_wf(ds, place, b),
        scopes_valued(scopes, ds),
        scopes.envs.len() > 0,
        block_vars_valued(t),
    ensures
        block_valued(b),
    decreases t,
{
    let items = var_items(t.var_decls@);
    assert forall|k: int| 0 <= k < items.len() implies (#[trigger] items[k]).type_
        != Type::Void by {
        lemma_var_items_valued(t.var_decls@, k);
    }
    lemma_bind_all_valued(scopes, ds, items, b.var_decls@);
    let inner = bind_all(scopes, items, b.var_decls@);
    assert forall|i: int| 0 <= i < b.statements@.len() implies stmt_valued(
        #[trigger] b.statements@[i],
    ) by {
        assert(stmt_elaborates(inner, ds, t.statements@[i], b.statements@[i]));
        lemma_stmt_valued(inner, ds, place, t.statements@[i], b.statements@[i]);
    }
}

proof fn lemma_methods_scopes_envs(
    scopes: EnvStackView,
    ms: Seq<token::MethodDecl>,
    handles: Seq<ir::MethodDecl>,
    n: int,
)
    ensures
        methods_scopes(scopes, ms, handles, n).envs == scopes.envs,
    decreases n,
{
    if n > 0 {
        lemma_methods_scopes_envs(scopes, ms, handles, n - 1);
    }
}

/// In the typed tree of a program that declares no variable of type
/// `Void`, every expression has type `Int` or `Bool`.
pub proof fn lemma_expressions_have_values(p: token::Program, root: ir::IRRoot)
    requires
        root.wf(),
        program_elaborates(p, root),
        program_vars_valued(p),
    ensures
        program_valued(root),
{
    let ds = root.decls();
    let empty = EnvStackView { methods: Map::empty(), envs: Seq::empty() };
    lemma_push_valued(empty, ds, EnvType::Global);
    let fields = field_items(p.field_decls@);
    assert forall|k: int| 0 <= k < fields.len() implies (#[trigger] fields[k]).type_
        != Type::Void by {
        lemma_field_items_valued(p.field_decls@, k);
    }
    lemma_bind_all_valued(empty.push(EnvType::Global), ds, fields, root.root.field_decls@);
    let global = global_scopes(p, root);
    assert forall|i: int| 0 <= i < root.root.method_decls@.len() implies (ds.method(
        #[trigger] root.root.method_decls@[i],
    ).block matches Some(b) ==> block_valued(b)) by {
        let t = p.method_decls@[i];
        let m = root.root.method_decls@[i];
        let before = methods_scopes(global, p.method_decls@, root.root.method_decls@, i);
        lemma_methods_scopes_envs(global, p.method_decls@, root.root.method_decls@, i);
        assert(method_elaborates(before, ds, t, m));
        assert(method_wf(ds, m));
        assert(scopes_valued(before, ds));
        lemma_push_valued(before, ds, EnvType::Method(m));
        let args = arg_items(t.args@);
        assert forall|k: int| 0 <= k < args.len() implies (#[trigger] args[k]).type_
            != Type::Void by {
            assert(!(p.method_decls@[i].args@[k].type_ is Void));
        }
        lemma_bind_all_valued(before.push(EnvType::Method(m)), ds, args, ds.method(m).args@);
        let inside = bind_all(
            before.push(EnvType::Method(m)),
            args,
            ds.method(m).args@,
        ).bind_method(t.name@, m);
        assert(scopes_valued(inside, ds));
        lemma_block_valued(
            inside,
            ds,
            Place { method: m, for_: None },
            t.block,
            ds.method(m).block->0,
        );
    }
}

/// The variables that some name is bound to in the scope stack.
pub open spec fn bound(scopes: EnvStackView) -> Set<ir::VarDecl> {
    Set::new(
        |d: ir::VarDecl|
            exists|i: int, n: Seq<char>|
                0 <= i < scopes.envs.len() && #[trigger] scopes.envs[i].table.contains_key(n)
                    && scopes.envs[i].table[n] == d,
    )
}

proof fn lemma_found_is_bound(scopes: EnvStackView, name: Seq<char>, n: int)
    requires
        n <= scopes.envs.len(),
    ensures
        find_var_below(scopes.envs, name, n) matches Some(d) ==> bound(scopes).contains(d),
    decreases n,
{
    if n > 0 {
        if scopes.envs[n - 1].table.contains_key(name) {
            assert(scopes.envs[n - 1].table.contains_key(name) && scopes.envs[n - 1].table[name]
                == scopes.envs[n - 1].table[name]);
        } else {
            lemma_found_is_bound(scopes, name, n - 1);
        }
    }
}

proof fn lemma_push_bound(scopes: EnvStackView, t: EnvType)
    ensures
        bound(scopes.push(t)) == bound(scopes),
        scopes.push(t).envs.len() > 0,
{
    let pushed = scopes.push(t);
    assert forall|d: ir::VarDecl| bound(pushed).contains(d) implies bound(scopes).contains(d) by {
        let (i, n) = choose|i: int, n: Seq<char>|
            0 <= i < pushed.envs.len() && #[trigger] pushed.envs[i].table.contains_key(n)
                && pushed.envs[i].table[n] == d;
        assert(i < scopes.envs.len());
        assert(scopes.envs[i].table.contains_key(n));
    }
    assert forall|d: ir::VarDecl| bound(scopes).contains(d) implies bound(pushed).contains(d) by {
        let (i, n) = choose|i: int, n: Seq<char>|
            0 <= i < scopes.envs.len() && #[trigger] scopes.envs[i].table.contains_key(n)
                && scopes.envs[i].table[n] == d;
        assert(pushed.envs[i].table.contains_key(n));
    }
    assert(bound(pushed) =~= bound(scopes));
}

proof fn lemma_bind_var_bound(scopes: EnvStackView, name: Seq<char>, d: ir::VarDecl)
    requires
        scopes.envs.len() > 0,
    ensures
        bound(scopes.bind_var(name, d)).subset_of(bound(scopes).insert(d)),
        scopes.bind_var(name, d).envs.len() == scopes.envs.len(),
{
    let after = scopes.bind_var(name, d);
    assert forall|x: ir::VarDecl| bound(after).contains(x) implies bound(scopes).insert(
        d,
    ).contains(x) by {
        let (i, n) = choose|i: int, n: Seq<char>|
            0 <= i < after.envs.len() && #[trigger] after.envs[i].table.contains_key(n)
                && after.envs[i].table[n] == x;
        if x != d {
            assert(scopes.envs[i].table.contains_key(n));
        }
    }
}

proof fn lemma_bind_all_bound(
    scopes: EnvStackView,
    items: Seq<Declared>,
    handles: Seq<ir::VarDecl>,
)
    requires
        scopes.envs.len() > 0,
        items.len() == handles.len(),
    ensures
        bound(bind_all(scopes, items, handles)).subset_of(bound(scopes) + handles.to_set()),
        bind_all(scopes, items, handles).envs.len() == scopes.envs.len(),
    decreases items.len(),
{
    if items.len() > 0 {
        let rest = bind_all(scopes, items.drop_last(), handles.drop_last());
        lemma_bind_all_bound(scopes, items.drop_last(), handles.drop_last());
        lemma_bind_var_bound(rest, items.last().name, handles.last());
        assert forall|x: ir::VarDecl|
            bound(bind_all(scopes, items, handles)).contains(x) implies (bound(scopes)
            + handles.to_set()).contains(x) by {
            if x == handles.last() {
                assert(handles[handles.len() - 1] == x);
            } else {
                assert(bound(rest).contains(x));
                if handles.drop_last().to_set().contains(x) {
                    let k = choose|k: int|
                        0 <= k < handles.drop_last().len() && handles.drop_last()[k] == x;
                    assert(handles[k] == x);
                }
            }
        }
    }
}

proof fn lemma_expr_scoped(scopes: EnvStackView, t: token::Expr0, e: ir::Expr0)
    requires
        expr_elaborates(scopes, t, e),
    ensures
        expr_scoped(bound(scopes), e),
    decreases t,
{
    match (t, e.expr) {
        (token::Expr0::Location(tl), ir::ExprType::Location(l)) => {
            lemma_location_scoped(scopes, tl, l);
        },
        (token::Expr0::MethodCall(tc), ir::ExprType::Call(c)) => {
            lemma_call_scoped(scopes, tc, c);
        },
        (token::Expr0::Unary(tu), ir::ExprType::Unary(u)) => {
            lemma_expr_scoped(scopes, *tu.expr, *u.expr);
        },
        (token::Expr0::Binary(tb), ir::ExprType::Binary(b)) => {
            lemma_expr_scoped(scopes, *tb.lhs, *b.lhs);
            lemma_expr_scoped(scopes, *tb.rhs, *b.rhs);
        },
        _ => {},
    }
}

proof fn lemma_location_scoped(scopes: EnvStackView, t: token::Location, l: ir::Location)
    requires
        location_elaborates(scopes, t, l),
    ensures
        location_scoped(bound(scopes), l),
    decreases t,
{
    lemma_found_is_bound(scopes, t.name@, scopes.envs.len() as int);
    match (t.arr_size, l.arr_size) {
        (Some(ti), Some(i)) => {
            lemma_expr_scoped(scopes, *ti, *i);
        },
        _ => {},
    }
}

proof fn lemma_call_scoped(scopes: EnvStackView, t: token::MethodCall, c: ir::Call)
    requires
        call_elaborates(scopes, t, c),
    ensures
        call_scoped(bound(scopes), c),
    decreases t,
{
    match (t, c) {
        (token::MethodCall::Method(tm), ir::Call::Method(m)) => {
            assert forall|i: int| 0 <= i < m.args@.len() implies expr_scoped(
                bound(scopes),
                *#[trigger] m.args@[i],
            ) by {
                assert(expr_elaborates(scopes, *tm.args@[i], *m.args@[i]));
                lemma_expr_scoped(scopes, *tm.args@[i], *m.args@[i]);
            }
        },
        (token::MethodCall::Callout(tc), ir::Call::Callout(c)) => {
            assert forall|i: int| 0 <= i < c.args@.len() implies callout_arg_scoped(
                bound(scopes),
                #[trigger] c.args@[i],
            ) by {
                assert(super::elaborate::callout_arg_elaborates(scopes, tc.args@[i], c.args@[i]));
                match (tc.args@[i], c.args@[i]) {
                    (token::CalloutArg::Expr(te), ir::CalloutArg::Expr(e)) => {
                        lemma_expr_scoped(scopes, *te, *e);
                    },
                    _ => {},
                }
            }
        },
        _ => {},
    }
}

proof fn lemma_stmt_scoped(scopes: EnvStackView, ds: Decls, t: token::Statement, s: ir::Statement0)
    requires
        stmt_elaborates(scopes, ds, t, s),
    ensures
        stmt_scoped(bound(scopes), s),
    decreases t,
{
    match (t, s) {
        (token::Statement::Assign(ta), ir::Statement0::Assign(a)) => {
            lemma_location_scoped(scopes, ta.dst, a.dst);
            lemma_expr_scoped(scopes, *ta.val, *a.val);
        },
        (token::Statement::MethodCall(tc), ir::Statement0::Call(c)) => {
            lemma_call_scoped(scopes, tc, c);
        },
        (token::Statement::IfElse(ti), ir::Statement0::IfElse(i)) => {
            lemma_expr_scoped(scopes, *ti.cond, *i.cond);
            lemma_push_bound(scopes, EnvType::If(i.id));
            lemma_block_scoped(scopes.push(EnvType::If(i.id)), ds, ti.true_block, i.true_block->0);
            if ti.false_block is Some {
                lemma_push_bound(scopes, EnvType::Else(i.id));
                lemma_block_scoped(
                    scopes.push(EnvType::Else(i.id)),
                    ds,
                    ti.false_block->0,
                    i.false_block->0,
                );
            }
        },
        (token::Statement::Loop(tl), ir::Statement0::For(f)) => {
            lemma_expr_scoped(scopes, *tl.start, *f.start);
            lemma_expr_scoped(scopes, *tl.end, *f.end);
            lemma_push_bound(scopes, EnvType::For(f.id));
            let inside = scopes.push(EnvType::For(f.id)).bind_var(tl.index_var@, f.index_decl);
            lemma_bind_var_bound(scopes.push(EnvType::For(f.id)), tl.index_var@, f.index_decl);
            lemma_block_scoped(inside, ds, tl.block, f.block->0);
            lemma_block_scoped_grows(bound(inside), bound(scopes).insert(f.index_decl), f.block->0);
        },
        (token::Statement::Return(tr), ir::Statement0::Return(r)) => {
            match (tr.val, r.val) {
                (Some(te), Some(e)) => {
                    lemma_expr_scoped(scopes, *te, *e);
                },
                _ => {},
            }
        },
        (token::Statement::Block(tb), ir::Statement0::Block(b)) => {
            lemma_push_bound(scopes, EnvType::Anon);
            lemma_block_scoped(scopes.push(EnvType::Anon), ds, tb, b);
        },
        _ => {},
    }
}

proof fn lemma_block_scoped(scopes: EnvStackView, ds: Decls, t: token::Block, b: ir::Block)
    requires
        block_elaborates(scopes, ds, t, b),
        scopes.envs.len() > 0,
    ensures
        block_scoped(bound(scopes), b),
    decreases t,
{
    let inner = bind_all(scopes, var_items(t.var_decls@), b.var_decls@);
    lemma_bind_all_bound(scopes, var_items(t.var_decls@), b.var_decls@);
    assert forall|i: int| 0 <= i < b.statements@.len() implies stmt_scoped(
        bound(scopes) + b.var_decls@.to_set(),
        #[trigger] b.statements@[i],
    ) by {
        assert(stmt_elaborates(inner, ds, t.statements@[i], b.statements@[i]));
        lemma_stmt_scoped(inner, ds, t.statements@[i], b.statements@[i]);
        lemma_stmt_scoped_grows(
            bound(inner),
            bound(scopes) + b.var_decls@.to_set(),
            b.statements@[i],
        );
    }
}

/// In the typed tree of a program, every use of a variable stands where
/// the variable is declared.
pub proof fn lemma_uses_are_in_scope(p: token::Program, root: ir::IRRoot)
    requires
        program_elaborates(p, root),
    ensures
        root.scoped(),
{
    let ds = root.decls();
    let empty = EnvStackView { methods: Map::empty(), envs: Seq::empty() };
    lemma_push_bound(empty, EnvType::Global);
    assert(bound(empty) =~= Set::<ir::VarDecl>::empty());
    lemma_bind_all_bound(
        empty.push(EnvType::Global),
        field_items(p.field_decls@),
        root.root.field_decls@,
    );
    let global = global_scopes(p, root);
    let fields = root.root.field_decls@.to_set();
    assert(bound(global).subset_of(fields));
    assert forall|i: int| 0 <= i < root.root.method_decls@.len() implies method_scoped(
        fields,
        ds.method(#[trigger] root.root.method_decls@[i]),
    ) by {
        let t = p.method_decls@[i];
        let m = root.root.method_decls@[i];
        let before = methods_scopes(global, p.method_decls@, root.root.method_decls@, i);
        lemma_methods_scopes_envs(global, p.method_decls@, root.root.method_decls@, i);
        assert(method_elaborates(before, ds, t, m));
        assert(bound(before) =~= bound(global));
        lemma_push_bound(before, EnvType::Method(m));
        let args = ds.method(m).args@;
        lemma_bind_all_bound(before.push(EnvType::Method(m)), arg_items(t.args@), args);
        let bound_args = bind_all(before.push(EnvType::Method(m)), arg_items(t.args@), args);
        let inside = bound_args.bind_method(t.name@, m);
        assert(bound(inside) =~= bound(bound_args));
        lemma_block_scoped(inside, ds, t.block, ds.method(m).block->0);
        lemma_block_scoped_grows(bound(inside), fields + args.to_set(), ds.method(m).block->0);
    }
}

} // verus!
