//! The typed, scope-resolved tree that semantic analysis produces.
//!
//! Declarations live in two arenas held by [`IRRoot`]; every use of a
//! variable or method carries a handle, the index of its declaration. Two
//! handles are the same declaration exactly when their indices are equal,
//! whatever the names are.

use super::typing::Declared;
use crate::token;
use vstd::prelude::*;

verus! {

pub type StringLiteral = String;

pub type Identifier = String;

pub type Expr = Box<Expr0>;

pub type Statement = Statement0;

/// Handle of a variable declaration: its index in the variable arena.
#[derive(Debug, Clone, Copy, PartialEq, Eq, Structural)]
pub struct VarDecl {
    pub id: usize,
}

/// Handle of a method declaration: its index in the method arena.
#[derive(Debug, Clone, Copy, PartialEq, Eq, Structural)]
pub struct MethodDecl {
    pub id: usize,
}

/// Handle of a loop: the ordinal of the loop among those built so far.
#[derive(Debug, Clone, Copy, PartialEq, Eq, Structural)]
pub struct For {
    pub id: usize,
}

/// Handle of a conditional: the ordinal of the conditional among those
/// built so far, or the largest number where there were more.
#[derive(Debug, Clone, Copy, PartialEq, Eq, Structural)]
pub struct IfElse {
    pub id: usize,
}

#[derive(Debug)]
pub struct Block {
    pub var_decls: Vec<VarDecl>,
    pub statements: Vec<Statement>,
}

#[derive(Debug)]
pub struct Location {
    pub decl: VarDecl,
    pub arr_size: Option<Expr>,
}

#[derive(Debug)]
pub struct Assign {
    pub dst: Location,
    pub op: AssignOp,
    pub val: Expr,
}

#[derive(Debug)]
pub struct IfElse0 {
    pub id: IfElse,
    pub cond: Expr,
    pub true_block: Option<Block>,
    pub false_block: Option<Block>,
}

#[derive(Debug)]
pub struct For0 {
    pub id: For,
    pub index_decl: VarDecl,
    pub start: Expr,
    pub end: Expr,
    pub block: Option<Block>,
}

#[derive(Debug)]
pub struct Return {
    pub func: MethodDecl,
    pub val: Option<Expr>,
}

#[derive(Debug)]
pub struct Break {
    pub for_: For,
}

#[derive(Debug)]
pub struct Continue {
    pub for_: For,
}

#[derive(Debug, Clone, Copy, PartialEq, Eq, Structural)]
pub enum AssignOp {
    Assign,
    AddAssign,
    SubAssign,
    MulAssign,
    DivAssign,
}

impl AssignOp {
    pub open spec fn spec_from(t: token::AssignOp) -> Self {
        match t {
            token::AssignOp::Assign => Self::Assign,
            token::AssignOp::AddAssign => Self::AddAssign,
            token::AssignOp::SubAssign => Self::SubAssign,
            token::AssignOp::MulAssign => Self::MulAssign,
            token::AssignOp::DivAssign => Self::DivAssign,
        }
    }

    pub fn from(t: token::AssignOp) -> (res: Self)
        ensures
            res == Self::spec_from(t),
    {
        match t {
            token::AssignOp::Assign => Self::Assign,
            token::AssignOp::AddAssign => Self::AddAssign,
            token::AssignOp::SubAssign => Self::SubAssign,
            token::AssignOp::MulAssign => Self::MulAssign,
            token::AssignOp::DivAssign => Self::DivAssign,
        }
    }
}

#[derive(Debug, Copy, Clone, PartialEq, Eq, Structural)]
pub enum Type {
    Int,
    Bool,
    Void,
}

impl Type {
    pub open spec fn spec_from(t: token::Type) -> Self {
        match t {
            token::Type::Int => Self::Int,
            token::Type::Bool => Self::Bool,
            token::Type::Void => Self::Void,
        }
    }

    pub fn from(t: &token::Type) -> (res: Self)
        ensures
            res == Self::spec_from(*t),
    {
        match t {
            token::Type::Int => Self::Int,
            token::Type::Bool => Self::Bool,
            token::Type::Void => Self::Void,
        }
    }
}

#[derive(Debug, Copy, PartialEq, Eq, Clone, Structural)]
pub enum BinaryOp {
    Or,
    And,
    EQ,
    NE,
    GT,
    LT,
    GE,
    LE,
    Add,
    Sub,
    Mul,
    Div,
    Mod,
}

impl BinaryOp {
    /// The five arithmetic operators.
    pub open spec fn is_arith(self) -> bool {
        self == Self::Add || self == Self::Sub || self == Self::Mul || self == Self::Div || self
            == Self::Mod
    }

    /// The type of an expression built with this operator: `Int` for the
    /// arithmetic operators, `Bool` for every other.
    pub open spec fn return_type(self) -> Type {
        if self.is_arith() {
            Type::Int
        } else {
            Type::Bool
        }
    }

    /// Whether the operator takes two operands of type `t`: integers for
    /// arithmetic and ordering, booleans for `&&` and `||`, anything for
    /// `==` and `!=`.
    pub open spec fn takes(self, t: Type) -> bool {
        match self {
            Self::EQ | Self::NE => true,
            Self::Or | Self::And => t == Type::Bool,
            _ => t == Type::Int,
        }
    }

    pub fn get_return_type(&self) -> (res: Type)
        ensures
            res == self.return_type(),
    {
        match self {
            Self::Or => Type::Bool,
            Self::And => Type::Bool,
            Self::EQ => Type::Bool,
            Self::NE => Type::Bool,
            Self::GT => Type::Bool,
            Self::LT => Type::Bool,
            Self::GE => Type::Bool,
            Self::LE => Type::Bool,
            Self::Add => Type::Int,
            Self::Sub => Type::Int,
            Self::Mul => Type::Int,
            Self::Div => Type::Int,
            Self::Mod => Type::Int,
        }
    }

    pub open spec fn spec_from(t: token::BinaryOp) -> Self {
        match t {
            token::BinaryOp::Arith(a) => match a {
                token::ArithOp::Add => BinaryOp::Add,
                token::ArithOp::Sub => BinaryOp::Sub,
                token::ArithOp::Mul => BinaryOp::Mul,
                token::ArithOp::Div => BinaryOp::Div,
                token::ArithOp::Mod => BinaryOp::Mod,
            },
            token::BinaryOp::Compare(a) => match a {
                token::CompareOp::GT => BinaryOp::GT,
                token::CompareOp::GE => BinaryOp::GE,
                token::CompareOp::LT => BinaryOp::LT,
                token::CompareOp::LE => BinaryOp::LE,
            },
            token::BinaryOp::Eq(a) => match a {
                token::EqOp::EQ => BinaryOp::EQ,
                token::EqOp::NE => BinaryOp::NE,
            },
            token::BinaryOp::Cond(a) => match a {
                token::CondOp::Or => BinaryOp::Or,
                token::CondOp::And => BinaryOp::And,
            },
        }
    }

    pub fn from(t: &token::BinaryOp) -> (res: Self)
        ensures
            res == Self::spec_from(*t),
    {
        match t {
            token::BinaryOp::Arith(a) => match a {
                token::ArithOp::Add => BinaryOp::Add,
                token::ArithOp::Sub => BinaryOp::Sub,
                token::ArithOp::Mul => BinaryOp::Mul,
                token::ArithOp::Div => BinaryOp::Div,
                token::ArithOp::Mod => BinaryOp::Mod,
            },
            token::BinaryOp::Compare(a) => match a {
                token::CompareOp::GT => BinaryOp::GT,
                token::CompareOp::GE => BinaryOp::GE,
                token::CompareOp::LT => BinaryOp::LT,
                token::CompareOp::LE => BinaryOp::LE,
            },
            token::BinaryOp::Eq(a) => match a {
                token::EqOp::EQ => BinaryOp::EQ,
                token::EqOp::NE => BinaryOp::NE,
            },
            token::BinaryOp::Cond(a) => match a {
                token::CondOp::Or => BinaryOp::Or,
                token::CondOp::And => BinaryOp::And,
            },
        }
    }
}

#[derive(Debug)]
pub struct Binary {
    pub lhs: Expr,
    pub rhs: Expr,
    pub op: BinaryOp,
}

#[derive(Debug, Clone, Copy, PartialEq, Eq, Structural)]
pub enum UnaryOp {
    NegInt,
    NegBool,
}

impl UnaryOp {
    /// The type of the operand that the operator takes, which is also the
    /// type of its result.
    pub open spec fn operand_type(self) -> Type {
        match self {
            Self::NegInt => Type::Int,
            Self::NegBool => Type::Bool,
        }
    }

    pub open spec fn spec_from(t: token::UnaryOp) -> Self {
        match t {
            token::UnaryOp::NegInt => Self::NegInt,
            token::UnaryOp::NegBool => Self::NegBool,
        }
    }
}

#[derive(Debug)]
pub struct Unary {
    pub expr: Expr,
    pub op: UnaryOp,
}

#[derive(Debug)]
pub enum CalloutArg {
    Expr(Expr),
    StringLiteral(StringLiteral),
}

#[derive(Debug)]
pub struct Method {
    pub decl: MethodDecl,
    pub args: Vec<Expr>,
}

#[derive(Debug)]
pub struct Callout {
    pub name: StringLiteral,
    pub args: Vec<CalloutArg>,
}

#[derive(Debug)]
pub enum Call {
    Method(Method),
    Callout(Callout),
}

#[derive(Debug)]
pub enum Literal {
    Int(i32),
    Boolean(bool),
}

#[derive(Debug)]
pub struct Expr0 {
    pub type_: Type,
    pub expr: ExprType,
}

#[derive(Debug)]
pub enum ExprType {
    Location(Location),
    Literal(Literal),
    Call(Call),
    Unary(Unary),
    Binary(Binary),
}

#[derive(Debug)]
pub enum Statement0 {
    Assign(Assign),
    Call(Call),
    IfElse(IfElse0),
    For(For0),
    Return(Return),
    Break(Break),
    Continue(Continue),
    Block(Block),
}

/// A method declaration in the method arena. `block` is empty while the
/// body is being built and present afterwards.
#[derive(Debug)]
pub struct MethodDecl0 {
    pub return_type: Type,
    pub name: Identifier,
    pub args: Vec<VarDecl>,
    pub block: Option<Block>,
}

/// A variable declaration in the variable arena.
#[derive(Debug, Clone)]
pub struct VarDecl0 {
    pub type_: Type,
    pub name: Identifier,
    pub arr_size: Option<i32>,
}

impl View for VarDecl0 {
    type V = Declared;

    open spec fn view(&self) -> Declared {
        Declared { type_: self.type_, name: self.name@, arr_size: self.arr_size }
    }
}

impl VarDecl0 {
    pub open spec fn spec_is_array(&self) -> bool {
        self.arr_size is Some
    }

    #[verifier::when_used_as_spec(spec_is_array)]
    pub fn is_array(&self) -> (res: bool)
        ensures
            res == self.spec_is_array(),
    {
        self.arr_size.is_some()
    }
}

#[derive(Debug)]
pub struct ProgramClassDecl {
    pub field_decls: Vec<VarDecl>,
    pub method_decls: Vec<MethodDecl>,
}

/// A built program: the class, and the arenas its handles point into.
#[derive(Debug)]
pub struct IRRoot {
    pub root: ProgramClassDecl,
    pub var_decls: Vec<VarDecl0>,
    pub method_decls: Vec<MethodDecl0>,
}

/// The declarations that handles point into, as mathematical sequences.
pub struct Decls {
    pub vars: Seq<VarDecl0>,
    pub methods: Seq<MethodDecl0>,
}

impl Decls {
    pub open spec fn has_var(self, d: VarDecl) -> bool {
        d.id < self.vars.len()
    }

    pub open spec fn has_method(self, m: MethodDecl) -> bool {
        m.id < self.methods.len()
    }

    pub open spec fn var(self, d: VarDecl) -> VarDecl0 {
        self.vars[d.id as int]
    }

    pub open spec fn method(self, m: MethodDecl) -> MethodDecl0 {
        self.methods[m.id as int]
    }

    /// The types of the arguments that method `m` declares, in order.
    pub open spec fn arg_types(self, m: MethodDecl) -> Seq<Type> {
        Seq::new(self.method(m).args@.len(), |i: int| self.var(self.method(m).args@[i]).type_)
    }

    /// `later` holds every declaration of `self` under the same handle:
    /// the same variables, and methods with the same name, return type
    /// and arguments. Bodies may differ.
    pub open spec fn extended_by(self, later: Decls) -> bool {
        &&& self.vars.len() <= later.vars.len()
        &&& forall|i: int| 0 <= i < self.vars.len() ==> later.vars[i] == self.vars[i]
        &&& self.methods.len() <= later.methods.len()
        &&& forall|i: int|
            #![trigger later.methods[i]]
            0 <= i < self.methods.len() ==> {
                &&& later.methods[i].return_type == self.methods[i].return_type
                &&& later.methods[i].name == self.methods[i].name
                &&& later.methods[i].args == self.methods[i].args
            }
    }

    /// Every declared array has a size greater than zero.
    pub open spec fn sizes_positive(self) -> bool {
        forall|i: int|
            0 <= i < self.vars.len() ==> (#[trigger] self.vars[i].arr_size matches Some(n) ==> n
                > 0)
    }

    /// Every argument of every method is a declared variable.
    pub open spec fn args_declared(self) -> bool {
        forall|i: int, j: int|
            0 <= i < self.methods.len() && 0 <= j < self.methods[i].args@.len() ==> self.has_var(
                #[trigger] self.methods[i].args@[j],
            )
    }
}

/// Where a statement stands: in the body of which method, and in the
/// body of which loop, if any.
pub struct Place {
    pub method: MethodDecl,
    pub for_: Option<For>,
}

/// The type that the shape of an expression gives it.
pub open spec fn shape_type(ds: Decls, e: ExprType) -> Type {
    match e {
        ExprType::Location(l) => ds.var(l.decl).type_,
        ExprType::Literal(Literal::Int(_)) => Type::Int,
        ExprType::Literal(Literal::Boolean(_)) => Type::Bool,
        ExprType::Call(Call::Method(m)) => ds.method(m.decl).return_type,
        ExprType::Call(Call::Callout(_)) => Type::Int,
        ExprType::Unary(u) => u.expr.type_,
        ExprType::Binary(b) => b.op.return_type(),
    }
}

/// A well-formed use of a variable: the variable is declared; an array is
/// used with an index, which is a well-formed integer expression, and any
/// other variable without one.
pub open spec fn location_wf(ds: Decls, l: Location) -> bool
    decreases l,
{
    &&& ds.has_var(l.decl)
    &&& match l.arr_size {
        Some(index) => ds.var(l.decl).is_array() && expr_wf(ds, *index) && index.type_ == Type::Int,
        None => !ds.var(l.decl).is_array(),
    }
}

/// A well-formed call of a declared method: as many arguments as the
/// method declares, each well-formed and of the declared type.
pub open spec fn method_call_wf(ds: Decls, m: Method) -> bool
    decreases m,
{
    &&& ds.has_method(m.decl)
    &&& m.args@.len() == ds.method(m.decl).args@.len()
    &&& forall|i: int|
        0 <= i < m.args@.len() ==> {
            &&& ds.has_var(ds.method(m.decl).args@[i])
            &&& expr_wf(ds, *#[trigger] m.args@[i])
            &&& m.args@[i].type_ == ds.var(ds.method(m.decl).args@[i]).type_
        }
}

pub open spec fn callout_arg_wf(ds: Decls, a: CalloutArg) -> bool
    decreases a,
{
    match a {
        CalloutArg::Expr(e) => expr_wf(ds, *e),
        CalloutArg::StringLiteral(_) => true,
    }
}

pub open spec fn call_wf(ds: Decls, c: Call) -> bool
    decreases c,
{
    match c {
        Call::Method(m) => method_call_wf(ds, m),
        Call::Callout(c) => forall|i: int|
            0 <= i < c.args@.len() ==> callout_arg_wf(ds, #[trigger] c.args@[i]),
    }
}

/// A well-formed expression: its type is the one its shape gives it, its
/// operands are well-formed and of the types its operator takes, and a
/// call in it returns a value.
pub open spec fn expr_wf(ds: Decls, e: Expr0) -> bool
    decreases e,
{
    &&& e.type_ == shape_type(ds, e.expr)
    &&& match e.expr {
        ExprType::Location(l) => location_wf(ds, l),
        ExprType::Literal(_) => true,
        ExprType::Call(c) => call_wf(ds, c) && e.type_ != Type::Void,
        ExprType::Unary(u) => expr_wf(ds, *u.expr) && u.expr.type_ == u.op.operand_type(),
        ExprType::Binary(b) => {
            &&& expr_wf(ds, *b.lhs)
            &&& expr_wf(ds, *b.rhs)
            &&& b.lhs.type_ == b.rhs.type_
            &&& b.op.takes(b.lhs.type_)
        },
    }
}

/// Well-formedness does not depend on declarations made later.
pub proof fn lemma_expr_wf_extended(ds: Decls, later: Decls, e: Expr0)
    requires
        expr_wf(ds, e),
        ds.extended_by(later),
    ensures
        expr_wf(later, e),
    decreases e,
{
    match e.expr {
        ExprType::Location(l) => {
            lemma_location_wf_extended(ds, later, l);
        },
        ExprType::Literal(_) => {},
        ExprType::Call(c) => {
            lemma_call_wf_extended(ds, later, c);
        },
        ExprType::Unary(u) => {
            lemma_expr_wf_extended(ds, later, *u.expr);
        },
        ExprType::Binary(b) => {
            lemma_expr_wf_extended(ds, later, *b.lhs);
            lemma_expr_wf_extended(ds, later, *b.rhs);
        },
    }
}

/// Well-formedness does not depend on declarations made later.
pub proof fn lemma_location_wf_extended(ds: Decls, later: Decls, l: Location)
    requires
        location_wf(ds, l),
        ds.extended_by(later),
    ensures
        location_wf(later, l),
        ds.has_var(l.decl),
    decreases l,
{
    match l.arr_size {
        Some(index) => {
            lemma_expr_wf_extended(ds, later, *index);
        },
        None => {},
    }
}

/// Well-formedness does not depend on declarations made later.
pub proof fn lemma_call_wf_extended(ds: Decls, later: Decls, c: Call)
    requires
        call_wf(ds, c),
        ds.extended_by(later),
    ensures
        call_wf(later, c),
        c matches Call::Method(m) ==> ds.has_method(m.decl),
    decreases c,
{
    match c {
        Call::Method(m) => {
            assert forall|i: int| 0 <= i < m.args@.len() implies {
                &&& later.has_var(later.method(m.decl).args@[i])
                &&& expr_wf(later, *#[trigger] m.args@[i])
                &&& m.args@[i].type_ == later.var(later.method(m.decl).args@[i]).type_
            } by {
                lemma_expr_wf_extended(ds, later, *m.args@[i]);
            }
        },
        Call::Callout(c) => {
            assert forall|i: int| 0 <= i < c.args@.len() implies callout_arg_wf(
                later,
                #[trigger] c.args@[i],
            ) by {
                match c.args@[i] {
                    CalloutArg::Expr(e) => {
                        lemma_expr_wf_extended(ds, later, *e);
                    },
                    CalloutArg::StringLiteral(_) => {},
                }
            }
        },
    }
}

/// A well-formed statement at `place`: its expressions are well-formed
/// and of the types the statement asks for, a `return` names the method
/// of `place` and returns what that method declares, and a `break` or
/// `continue` names the loop of `place`.
pub open spec fn stmt_wf(ds: Decls, place: Place, s: Statement0) -> bool
    decreases s,
{
    match s {
        Statement0::Assign(a) => {
            &&& location_wf(ds, a.dst)
            &&& expr_wf(ds, *a.val)
            &&& ds.var(a.dst.decl).type_ == a.val.type_
            &&& a.op != AssignOp::Assign ==> a.val.type_ == Type::Int
        },
        Statement0::Call(c) => call_wf(ds, c),
        Statement0::IfElse(i) => {
            &&& expr_wf(ds, *i.cond)
            &&& i.cond.type_ == Type::Bool
            &&& i.true_block matches Some(b) && block_wf(ds, place, b)
            &&& i.false_block matches Some(b) ==> block_wf(ds, place, b)
        },
        Statement0::For(f) => {
            &&& expr_wf(ds, *f.start)
            &&& f.start.type_ == Type::Int
            &&& expr_wf(ds, *f.end)
            &&& f.end.type_ == Type::Int
            &&& ds.has_var(f.index_decl)
            &&& ds.var(f.index_decl).type_ == Type::Int
            &&& !ds.var(f.index_decl).is_array()
            &&& f.block matches Some(b) && block_wf(
                ds,
                Place { for_: Some(f.id), ..place },
                b,
            )
        },
        Statement0::Return(r) => {
            &&& r.func == place.method
            &&& ds.has_method(r.func)
            &&& match r.val {
                Some(e) => {
                    &&& expr_wf(ds, *e)
                    &&& e.type_ == ds.method(r.func).return_type
                    &&& e.type_ != Type::Void
                },
                None => ds.method(r.func).return_type == Type::Void,
            }
        },
        Statement0::Break(b) => place.for_ == Some(b.for_),
        Statement0::Continue(c) => place.for_ == Some(c.for_),
        Statement0::Block(b) => block_wf(ds, place, b),
    }
}

/// A well-formed block at `place`: its variables are declared and are no
/// arrays, and its statements are well-formed.
pub open spec fn block_wf(ds: Decls, place: Place, b: Block) -> bool
    decreases b,
{
    &&& forall|i: int|
        0 <= i < b.var_decls@.len() ==> ds.has_var(#[trigger] b.var_decls@[i]) && !ds.var(
            b.var_decls@[i],
        ).is_array()
    &&& forall|i: int|
        0 <= i < b.statements@.len() ==> stmt_wf(ds, place, #[trigger] b.statements@[i])
}

/// A well-formed method: its arguments are declared and are no arrays,
/// and its body is present and well-formed in the method, outside every
/// loop.
pub open spec fn method_wf(ds: Decls, m: MethodDecl) -> bool {
    &&& ds.has_method(m)
    &&& forall|i: int|
        0 <= i < ds.method(m).args@.len() ==> ds.has_var(#[trigger] ds.method(m).args@[i])
            && !ds.var(ds.method(m).args@[i]).is_array()
    &&& ds.method(m).block matches Some(b) && block_wf(ds, Place { method: m, for_: None }, b)
}

/// Well-formedness does not depend on declarations made later.
pub proof fn lemma_stmt_wf_extended(ds: Decls, later: Decls, place: Place, s: Statement0)
    requires
        stmt_wf(ds, place, s),
        ds.extended_by(later),
    ensures
        stmt_wf(later, place, s),
    decreases s,
{
    match s {
        Statement0::Assign(a) => {
            lemma_location_wf_extended(ds, later, a.dst);
            lemma_expr_wf_extended(ds, later, *a.val);
        },
        Statement0::Call(c) => {
            lemma_call_wf_extended(ds, later, c);
        },
        Statement0::IfElse(i) => {
            lemma_expr_wf_extended(ds, later, *i.cond);
            lemma_block_wf_extended(ds, later, place, i.true_block->0);
            if i.false_block is Some {
                lemma_block_wf_extended(ds, later, place, i.false_block->0);
            }
        },
        Statement0::For(f) => {
            lemma_expr_wf_extended(ds, later, *f.start);
            lemma_expr_wf_extended(ds, later, *f.end);
            lemma_block_wf_extended(ds, later, Place { for_: Some(f.id), ..place }, f.block->0);
        },
        Statement0::Return(r) => {
            if r.val is Some {
                lemma_expr_wf_extended(ds, later, *r.val->0);
            }
        },
        Statement0::Break(_) => {},
        Statement0::Continue(_) => {},
        Statement0::Block(b) => {
            lemma_block_wf_extended(ds, later, place, b);
        },
    }
}

/// Well-formedness does not depend on declarations made later.
pub proof fn lemma_block_wf_extended(ds: Decls, later: Decls, place: Place, b: Block)
    requires
        block_wf(ds, place, b),
        ds.extended_by(later),
    ensures
        block_wf(later, place, b),
    decreases b,
{
    assert forall|i: int| 0 <= i < b.statements@.len() implies stmt_wf(
        later,
        place,
        #[trigger] b.statements@[i],
    ) by {
        lemma_stmt_wf_extended(ds, later, place, b.statements@[i]);
    }
}

/// Well-formedness of a method does not depend on declarations made
/// later, as long as the method itself stays as it is.
pub proof fn lemma_method_wf_extended(ds: Decls, later: Decls, m: MethodDecl)
    requires
        method_wf(ds, m),
        ds.extended_by(later),
        later.method(m) == ds.method(m),
    ensures
        method_wf(later, m),
{
    lemma_block_wf_extended(ds, later, Place { method: m, for_: None }, ds.method(m).block->0);
}

/// The handles of the variables from the `from`-th up to, and without,
/// the `to`-th.
pub open spec fn var_range(from: int, to: int) -> Seq<VarDecl> {
    Seq::new((to - from) as nat, |i: int| VarDecl { id: (from + i) as usize })
}

/// The handles of the loops from the `from`-th up to, and without, the
/// `to`-th.
pub open spec fn for_range(from: int, to: int) -> Seq<For> {
    Seq::new((to - from) as nat, |i: int| For { id: (from + i) as usize })
}

/// The handles of the conditionals from the `from`-th up to, and
/// without, the `to`-th. Beyond the largest number every conditional has
/// that number.
pub open spec fn if_range(from: int, to: int) -> Seq<IfElse> {
    Seq::new((to - from) as nat, |i: int| nth_if(from + i))
}

/// The handle of the `n`-th conditional.
pub open spec fn nth_if(n: int) -> IfElse {
    IfElse {
        id: if n < usize::MAX {
            n as usize
        } else {
            usize::MAX
        },
    }
}

/// How many variables, loops and conditionals there are.
pub struct Counts {
    pub vars: int,
    pub fors: int,
    pub ifs: int,
}

impl Counts {
    pub open spec fn le(self, other: Counts) -> bool {
        self.vars <= other.vars && self.fors <= other.fors && self.ifs <= other.ifs
    }
}

/// The variables that a construct declares and the loops and
/// conditionals that it holds, each in the order of a left-to-right,
/// depth-first walk.
pub struct Made {
    pub vars: Seq<VarDecl>,
    pub fors: Seq<For>,
    pub ifs: Seq<IfElse>,
}

impl Made {
    pub open spec fn none() -> Made {
        Made { vars: Seq::empty(), fors: Seq::empty(), ifs: Seq::empty() }
    }

    /// The variables `vars` and nothing else.
    pub open spec fn of_vars(vars: Seq<VarDecl>) -> Made {
        Made { vars: vars, fors: Seq::empty(), ifs: Seq::empty() }
    }

    pub open spec fn followed_by(self, next: Made) -> Made {
        Made {
            vars: self.vars + next.vars,
            fors: self.fors + next.fors,
            ifs: self.ifs + next.ifs,
        }
    }

    /// The variables, loops and conditionals numbered from `from` up to,
    /// and without, `to`.
    pub open spec fn range(from: Counts, to: Counts) -> Made {
        Made {
            vars: var_range(from.vars, to.vars),
            fors: for_range(from.fors, to.fors),
            ifs: if_range(from.ifs, to.ifs),
        }
    }
}

/// Two ranges, one after the other, are one range.
pub proof fn lemma_ranges_join(a: Counts, b: Counts, c: Counts)
    requires
        a.le(b),
        b.le(c),
    ensures
        Made::range(a, b).followed_by(Made::range(b, c)) == Made::range(a, c),
{
    assert(var_range(a.vars, b.vars) + var_range(b.vars, c.vars) =~= var_range(a.vars, c.vars));
    assert(for_range(a.fors, b.fors) + for_range(b.fors, c.fors) =~= for_range(a.fors, c.fors));
    assert(if_range(a.ifs, b.ifs) + if_range(b.ifs, c.ifs) =~= if_range(a.ifs, c.ifs));
}

/// A range from a number to itself is empty.
pub proof fn lemma_range_empty(a: Counts)
    ensures
        Made::range(a, a) == Made::none(),
        var_range(a.vars, a.vars) == Seq::<VarDecl>::empty(),
        for_range(a.fors, a.fors) == Seq::<For>::empty(),
        if_range(a.ifs, a.ifs) == Seq::<IfElse>::empty(),
{
    assert(var_range(a.vars, a.vars) =~= Seq::empty());
    assert(for_range(a.fors, a.fors) =~= Seq::empty());
    assert(if_range(a.ifs, a.ifs) =~= Seq::empty());
}

/// A range of conditionals grows by the handle of its upper end.
pub proof fn lemma_if_range_grows(from: int, to: int)
    requires
        0 <= from <= to,
    ensures
        if_range(from, to).push(nth_if(to)) == if_range(from, to + 1),
{
    assert(if_range(from, to).push(nth_if(to)) =~= if_range(from, to + 1));
}

/// A range grows by the handle of its upper end.
pub proof fn lemma_range_grows(from: int, to: int)
    requires
        0 <= from <= to <= usize::MAX,
    ensures
        var_range(from, to).push(VarDecl { id: to as usize }) == var_range(from, to + 1),
        for_range(from, to).push(For { id: to as usize }) == for_range(from, to + 1),
{
    assert(var_range(from, to).push(VarDecl { id: to as usize }) =~= var_range(from, to + 1));
    assert(for_range(from, to).push(For { id: to as usize }) =~= for_range(from, to + 1));
}

/// What a statement declares and which loops and conditionals it holds:
/// a loop itself and its index variable, and a conditional itself, come
/// before what is in them.
pub open spec fn stmt_made(s: Statement0) -> Made
    decreases s, 0nat,
{
    match s {
        Statement0::IfElse(i) => (Made {
            vars: Seq::empty(),
            fors: Seq::empty(),
            ifs: seq![i.id],
        }).followed_by(opt_block_made(i.true_block)).followed_by(opt_block_made(i.false_block)),
        Statement0::For(f) => (Made {
            vars: seq![f.index_decl],
            fors: seq![f.id],
            ifs: Seq::empty(),
        }).followed_by(opt_block_made(f.block)),
        Statement0::Block(b) => block_made(b),
        _ => Made::none(),
    }
}

/// What the first `n` of the statements `ss` declare and hold.
pub open spec fn stmts_made(ss: Seq<Statement0>, n: int) -> Made
    decreases ss, n,
{
    if n <= 0 || n > ss.len() {
        Made::none()
    } else {
        stmts_made(ss, n - 1).followed_by(stmt_made(ss[n - 1]))
    }
}

/// What a block declares and holds: its own variables first.
pub open spec fn block_made(b: Block) -> Made
    decreases b, 0nat,
{
    Made::of_vars(b.var_decls@).followed_by(
        stmts_made(b.statements@, b.statements@.len() as int),
    )
}

pub open spec fn opt_block_made(b: Option<Block>) -> Made
    decreases b, 1nat,
{
    match b {
        Some(b) => block_made(b),
        None => Made::none(),
    }
}

/// What a method declares and holds: its arguments first.
pub open spec fn method_made(m: MethodDecl0) -> Made {
    Made::of_vars(m.args@).followed_by(opt_block_made(m.block))
}

/// What the first `n` of the methods `handles` declare and hold.
pub open spec fn methods_made(ds: Decls, handles: Seq<MethodDecl>, n: int) -> Made
    decreases n,
{
    if n <= 0 {
        Made::none()
    } else {
        methods_made(ds, handles, n - 1).followed_by(method_made(ds.method(handles[n - 1])))
    }
}

/// What the first `n` statements declare and hold depends on these
/// statements only.
pub proof fn lemma_stmts_made_prefix(a: Seq<Statement0>, b: Seq<Statement0>, n: int)
    requires
        0 <= n <= a.len(),
        n <= b.len(),
        forall|i: int| 0 <= i < n ==> a[i] == b[i],
    ensures
        stmts_made(a, n) == stmts_made(b, n),
    decreases n,
{
    if n > 0 {
        lemma_stmts_made_prefix(a, b, n - 1);
    }
}

/// What the first `n` methods declare and hold depends on these methods
/// only.
pub proof fn lemma_methods_made_prefix(
    ds: Decls,
    later: Decls,
    a: Seq<MethodDecl>,
    b: Seq<MethodDecl>,
    n: int,
)
    requires
        0 <= n <= a.len(),
        n <= b.len(),
        forall|i: int| 0 <= i < n ==> a[i] == b[i] && later.method(a[i]) == ds.method(a[i]),
    ensures
        methods_made(ds, a, n) == methods_made(later, b, n),
    decreases n,
{
    if n > 0 {
        lemma_methods_made_prefix(ds, later, a, b, n - 1);
    }
}

/// What the first statements declare comes first in what more of them
/// declare.
pub proof fn lemma_stmts_made_grow(ss: Seq<Statement0>, k: int, n: int)
    requires
        0 <= k <= n <= ss.len(),
    ensures
        stmts_made(ss, k).vars.is_prefix_of(stmts_made(ss, n).vars),
    decreases n - k,
{
    if k < n {
        lemma_stmts_made_grow(ss, k, n - 1);
        let a = stmts_made(ss, k).vars;
        let b = stmts_made(ss, n - 1).vars;
        let c = stmts_made(ss, n).vars;
        assert(c == b + stmt_made(ss[n - 1]).vars);
        assert(a.is_prefix_of(c)) by {
            assert(a =~= c.subrange(0, a.len() as int));
        }
    } else {
        let a = stmts_made(ss, k).vars;
        assert(a =~= a.subrange(0, a.len() as int));
    }
}

/// What the first methods declare comes first in what more of them
/// declare.
pub proof fn lemma_methods_made_grow(ds: Decls, handles: Seq<MethodDecl>, k: int, n: int)
    requires
        0 <= k <= n,
    ensures
        methods_made(ds, handles, k).vars.is_prefix_of(methods_made(ds, handles, n).vars),
    decreases n - k,
{
    if k < n {
        lemma_methods_made_grow(ds, handles, k, n - 1);
        let a = methods_made(ds, handles, k).vars;
        let b = methods_made(ds, handles, n - 1).vars;
        let c = methods_made(ds, handles, n).vars;
        assert(c == b + method_made(ds.method(handles[n - 1])).vars);
        assert(a.is_prefix_of(c)) by {
            assert(a =~= c.subrange(0, a.len() as int));
        }
    } else {
        let a = methods_made(ds, handles, k).vars;
        assert(a =~= a.subrange(0, a.len() as int));
    }
}

impl IRRoot {
    /// Every variable and every loop is made once, and the handles are
    /// numbered in the order of a left-to-right, depth-first walk: the
    /// fields, followed by what each method declares, are the variables
    /// from the first to the last; the loops and the conditionals of the
    /// methods are numbered from the first on; and the methods of the
    /// class are the methods from the first to the last.
    pub open spec fn numbered(&self) -> bool {
        let made = methods_made(
            self.decls(),
            self.root.method_decls@,
            self.root.method_decls@.len() as int,
        );
        &&& self.root.field_decls@ + made.vars == var_range(0, self.var_decls@.len() as int)
        &&& made.fors == for_range(0, made.fors.len() as int)
        &&& made.ifs == if_range(0, made.ifs.len() as int)
        &&& self.method_decls@.len() == self.root.method_decls@.len()
        &&& forall|i: int|
            0 <= i < self.root.method_decls@.len() ==> (#[trigger] self.root.method_decls@[i]).id
                == i
    }

    /// The declarations of this program.
    pub open spec fn decls(&self) -> Decls {
        Decls { vars: self.var_decls@, methods: self.method_decls@ }
    }

    /// The program is well-formed: its arrays have sizes greater than
    /// zero, its fields are declared, and its methods are well-formed.
    pub open spec fn wf(&self) -> bool {
        &&& self.decls().sizes_positive()
        &&& forall|i: int|
            0 <= i < self.root.field_decls@.len() ==> self.decls().has_var(
                #[trigger] self.root.field_decls@[i],
            )
        &&& forall|i: int|
            0 <= i < self.root.method_decls@.len() ==> method_wf(
                self.decls(),
                #[trigger] self.root.method_decls@[i],
            )
    }
}

} // verus!
