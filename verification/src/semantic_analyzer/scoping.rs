//! Which variables a construct of the typed tree may use: those that are
//! declared where the construct stands.

use super::ir::{
    Block, Call, CalloutArg, Expr0, ExprType, IRRoot, Location, MethodDecl0, Statement0, VarDecl,
};
use vstd::prelude::*;

verus! {

/// Every variable that the expression uses is among `visible`.
pub open spec fn expr_scoped(visible: Set<VarDecl>, e: Expr0) -> bool
    decreases e,
{
    match e.expr {
        ExprType::Location(l) => location_scoped(visible, l),
        ExprType::Literal(_) => true,
        ExprType::Call(c) => call_scoped(visible, c),
        ExprType::Unary(u) => expr_scoped(visible, *u.expr),
        ExprType::Binary(b) => expr_scoped(visible, *b.lhs) && expr_scoped(visible, *b.rhs),
    }
}

pub open spec fn location_scoped(visible: Set<VarDecl>, l: Location) -> bool
    decreases l,
{
    &&& visible.contains(l.decl)
    &&& l.arr_size matches Some(index) ==> expr_scoped(visible, *index)
}

pub open spec fn callout_arg_scoped(visible: Set<VarDecl>, a: CalloutArg) -> bool
    decreases a,
{
    a matches CalloutArg::Expr(e) ==> expr_scoped(visible, *e)
}

pub open spec fn call_scoped(visible: Set<VarDecl>, c: Call) -> bool
    decreases c,
{
    match c {
        Call::Method(m) => forall|i: int|
            0 <= i < m.args@.len() ==> expr_scoped(visible, *#[trigger] m.args@[i]),
        Call::Callout(c) => forall|i: int|
            0 <= i < c.args@.len() ==> callout_arg_scoped(visible, #[trigger] c.args@[i]),
    }
}

/// Every variable that the statement uses is among `visible` or declared
/// in the statement, in a block or loop around the use.
pub open spec fn stmt_scoped(visible: Set<VarDecl>, s: Statement0) -> bool
    decreases s, 0nat,
{
    match s {
        Statement0::Assign(a) => location_scoped(visible, a.dst) && expr_scoped(visible, *a.val),
        Statement0::Call(c) => call_scoped(visible, c),
        Statement0::IfElse(i) => {
            &&& expr_scoped(visible, *i.cond)
            &&& opt_block_scoped(visible, i.true_block)
            &&& opt_block_scoped(visible, i.false_block)
        },
        Statement0::For(f) => {
            &&& expr_scoped(visible, *f.start)
            &&& expr_scoped(visible, *f.end)
            &&& opt_block_scoped(visible.insert(f.index_decl), f.block)
        },
        Statement0::Return(r) => r.val matches Some(e) ==> expr_scoped(visible, *e),
        Statement0::Break(_) => true,
        Statement0::Continue(_) => true,
        Statement0::Block(b) => block_scoped(visible, b),
    }
}

/// Every variable that the block uses is among `visible`, one of the
/// block's own, or declared further in.
pub open spec fn block_scoped(visible: Set<VarDecl>, b: Block) -> bool
    decreases b, 0nat,
{
    forall|i: int|
        0 <= i < b.statements@.len() ==> stmt_scoped(
            visible + b.var_decls@.to_set(),
            #[trigger] b.statements@[i],
        )
}

pub open spec fn opt_block_scoped(visible: Set<VarDecl>, b: Option<Block>) -> bool
    decreases b, 1nat,
{
    b matches Some(b) ==> block_scoped(visible, b)
}

/// Every variable that the method uses is a global, an argument, or
/// declared in the body around the use.
pub open spec fn method_scoped(globals: Set<VarDecl>, m: MethodDecl0) -> bool {
    opt_block_scoped(globals + m.args@.to_set(), m.block)
}

impl IRRoot {
    /// Every use of a variable stands where the variable is declared: in
    /// the method of a use, the variable is a field, an argument, or a
    /// local of a block or the index of a loop around the use.
    pub open spec fn scoped(&self) -> bool {
        forall|i: int|
            0 <= i < self.root.method_decls@.len() ==> method_scoped(
                self.root.field_decls@.to_set(),
                self.decls().method(#[trigger] self.root.method_decls@[i]),
            )
    }
}

/// What may use some variables may use more.
pub proof fn lemma_expr_scoped_grows(small: Set<VarDecl>, large: Set<VarDecl>, e: Expr0)
    requires
        expr_scoped(small, e),
        small.subset_of(large),
    ensures
        expr_scoped(large, e),
    decreases e,
{
    match e.expr {
        ExprType::Location(l) => {
            lemma_location_scoped_grows(small, large, l);
        },
        ExprType::Literal(_) => {},
        ExprType::Call(c) => {
            lemma_call_scoped_grows(small, large, c);
        },
        ExprType::Unary(u) => {
            lemma_expr_scoped_grows(small, large, *u.expr);
        },
        ExprType::Binary(b) => {
            lemma_expr_scoped_grows(small, large, *b.lhs);
            lemma_expr_scoped_grows(small, large, *b.rhs);
        },
    }
}

/// What may use some variables may use more.
pub proof fn lemma_location_scoped_grows(small: Set<VarDecl>, large: Set<VarDecl>, l: Location)
    requires
        location_scoped(small, l),
        small.subset_of(large),
    ensures
        location_scoped(large, l),
    decreases l,
{
    if l.arr_size is Some {
        lemma_expr_scoped_grows(small, large, *l.arr_size->0);
    }
}

/// What may use some variables may use more.
pub proof fn lemma_call_scoped_grows(small: Set<VarDecl>, large: Set<VarDecl>, c: Call)
    requires
        call_scoped(small, c),
        small.subset_of(large),
    ensures
        call_scoped(large, c),
    decreases c,
{
    match c {
        Call::Method(m) => {
            assert forall|i: int| 0 <= i < m.args@.len() implies expr_scoped(
                large,
                *#[trigger] m.args@[i],
            ) by {
                lemma_expr_scoped_grows(small, large, *m.args@[i]);
            }
        },
        Call::Callout(c) => {
            assert forall|i: int| 0 <= i < c.args@.len() implies callout_arg_scoped(
                large,
                #[trigger] c.args@[i],
            ) by {
                match c.args@[i] {
                    CalloutArg::Expr(e) => {
                        lemma_expr_scoped_grows(small, large, *e);
                    },
                    CalloutArg::StringLiteral(_) => {},
                }
            }
        },
    }
}

/// What may use some variables may use more.
pub proof fn lemma_stmt_scoped_grows(small: Set<VarDecl>, large: Set<VarDecl>, s: Statement0)
    requires
        stmt_scoped(small, s),
        small.subset_of(large),
    ensures
        stmt_scoped(large, s),
    decreases s, 0nat,
{
    match s {
        Statement0::Assign(a) => {
            lemma_location_scoped_grows(small, large, a.dst);
            lemma_expr_scoped_grows(small, large, *a.val);
        },
        Statement0::Call(c) => {
            lemma_call_scoped_grows(small, large, c);
        },
        Statement0::IfElse(i) => {
            lemma_expr_scoped_grows(small, large, *i.cond);
            lemma_opt_block_scoped_grows(small, large, i.true_block);
            lemma_opt_block_scoped_grows(small, large, i.false_block);
        },
        Statement0::For(f) => {
            lemma_expr_scoped_grows(small, large, *f.start);
            lemma_expr_scoped_grows(small, large, *f.end);
            lemma_opt_block_scoped_grows(
                small.insert(f.index_decl),
                large.insert(f.index_decl),
                f.block,
            );
        },
        Statement0::Return(r) => {
            if r.val is Some {
                lemma_expr_scoped_grows(small, large, *r.val->0);
            }
        },
        Statement0::Break(_) => {},
        Statement0::Continue(_) => {},
        Statement0::Block(b) => {
            lemma_block_scoped_grows(small, large, b);
        },
    }
}

/// What may use some variables may use more.
pub proof fn lemma_block_scoped_grows(small: Set<VarDecl>, large: Set<VarDecl>, b: Block)
    requires
        block_scoped(small, b),
        small.subset_of(large),
    ensures
        block_scoped(large, b),
    decreases b, 0nat,
{
    assert forall|i: int| 0 <= i < b.statements@.len() implies stmt_scoped(
        large + b.var_decls@.to_set(),
        #[trigger] b.statements@[i],
    ) by {
        lemma_stmt_scoped_grows(
            small + b.var_decls@.to_set(),
            large + b.var_decls@.to_set(),
            b.statements@[i],
        );
    }
}

/// What may use some variables may use more.
pub proof fn lemma_opt_block_scoped_grows(
    small: Set<VarDecl>,
    large: Set<VarDecl>,
    b: Option<Block>,
)
    requires
        opt_block_scoped(small, b),
        small.subset_of(large),
    ensures
        opt_block_scoped(large, b),
    decreases b, 1nat,
{
    if b is Some {
        lemma_block_scoped_grows(small, large, b->0);
    }
}

} // verus!
