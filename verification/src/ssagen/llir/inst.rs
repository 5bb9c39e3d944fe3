//! The instructions of the lowered program.

use crate::semantic_analyzer::ir;
use vstd::prelude::*;

verus! {

/// A variable of the lowered program: it stands for the declaration it
/// points back to.
#[derive(Debug, Clone, Copy, PartialEq, Eq, Structural)]
pub struct VarDef {
    pub decl: ir::VarDecl,
}

#[derive(Debug)]
pub enum Inst {
    /// A stack slot for a variable.
    Alloca(VarDef),
    Load(Load),
    Store(Store),
    Label(String),
    IAdd(Binary),
    ISub(Binary),
    IMul(Binary),
    IDiv(Binary),
    IMod(Binary),
    /// `dst` becomes one where the comparison holds and zero where not.
    Cmp(Compare),
    And(Binary),
    Or(Binary),
    /// Goes on at the label.
    Jump(String),
    Branch(Branch),
    Call(Call),
    Return(Option<Operand>),
}

#[derive(Debug, Clone, Copy, PartialEq, Eq, Structural)]
pub struct Register {
    pub id: u32,
}

#[derive(Debug)]
pub struct Load {
    pub dst: Register,
    pub src: Memory,
}

#[derive(Debug)]
pub struct Store {
    pub dst: Memory,
    pub src: Register,
}

#[derive(Debug)]
pub struct Binary {
    pub dst: Location,
    pub lhs: Operand,
    pub rhs: Operand,
}

#[derive(Debug, Clone, Copy, PartialEq, Eq, Structural)]
pub enum CompareOp {
    EQ,
    NE,
    GT,
    LT,
    GE,
    LE,
}

#[derive(Debug)]
pub struct Compare {
    pub op: CompareOp,
    pub dst: Location,
    pub lhs: Operand,
    pub rhs: Operand,
}

/// A variable in memory, or, with an offset, one element of an array. The
/// offset is the register that holds the index.
#[derive(Debug)]
pub struct Memory {
    pub decl: VarDef,
    pub offset: Option<Box<Location>>,
}

#[derive(Debug)]
pub enum Location {
    Memory(Memory),
    Register(Register),
}

#[derive(Debug)]
pub enum Operand {
    Literal(i32),
    Location(Location),
}

/// Goes on at `target` where `cond` is non-zero, for `on`, or zero, for
/// not `on`; else at the next instruction.
#[derive(Debug)]
pub struct Branch {
    pub cond: Operand,
    pub on: bool,
    pub target: String,
}

#[derive(Debug)]
pub enum Callee {
    Method(ir::MethodDecl),
    Callout(String),
}

#[derive(Debug)]
pub enum CallArg {
    Value(Operand),
    Text(String),
}

/// Calls `callee` with `args`; what it returns goes to `dst`, if there is
/// one.
#[derive(Debug)]
pub struct Call {
    pub dst: Option<Register>,
    pub callee: Callee,
    pub args: Vec<CallArg>,
}

pub enum CalleeView {
    Method(ir::MethodDecl),
    Callout(Seq<char>),
}

pub enum CallArgView {
    Value(Operand),
    Text(Seq<char>),
}

pub struct CallView {
    pub dst: Option<Register>,
    pub callee: CalleeView,
    pub args: Seq<CallArgView>,
}

pub struct BranchView {
    pub cond: Operand,
    pub on: bool,
    pub target: Seq<char>,
}

/// An instruction as a mathematical value: texts are sequences of
/// characters.
pub enum InstView {
    Alloca(VarDef),
    Load(Load),
    Store(Store),
    Label(Seq<char>),
    IAdd(Binary),
    ISub(Binary),
    IMul(Binary),
    IDiv(Binary),
    IMod(Binary),
    Cmp(Compare),
    And(Binary),
    Or(Binary),
    Jump(Seq<char>),
    Branch(BranchView),
    Call(CallView),
    Return(Option<Operand>),
}

impl View for Callee {
    type V = CalleeView;

    open spec fn view(&self) -> CalleeView {
        match *self {
            Callee::Method(m) => CalleeView::Method(m),
            Callee::Callout(name) => CalleeView::Callout(name@),
        }
    }
}

impl View for CallArg {
    type V = CallArgView;

    open spec fn view(&self) -> CallArgView {
        match *self {
            CallArg::Value(o) => CallArgView::Value(o),
            CallArg::Text(t) => CallArgView::Text(t@),
        }
    }
}

impl View for Call {
    type V = CallView;

    open spec fn view(&self) -> CallView {
        CallView {
            dst: self.dst,
            callee: self.callee@,
            args: self.args@.map_values(|a: CallArg| a@),
        }
    }
}

impl View for Branch {
    type V = BranchView;

    open spec fn view(&self) -> BranchView {
        BranchView { cond: self.cond, on: self.on, target: self.target@ }
    }
}

impl View for Inst {
    type V = InstView;

    open spec fn view(&self) -> InstView {
        match *self {
            Inst::Alloca(d) => InstView::Alloca(d),
            Inst::Load(l) => InstView::Load(l),
            Inst::Store(s) => InstView::Store(s),
            Inst::Label(l) => InstView::Label(l@),
            Inst::IAdd(b) => InstView::IAdd(b),
            Inst::ISub(b) => InstView::ISub(b),
            Inst::IMul(b) => InstView::IMul(b),
            Inst::IDiv(b) => InstView::IDiv(b),
            Inst::IMod(b) => InstView::IMod(b),
            Inst::Cmp(c) => InstView::Cmp(c),
            Inst::And(b) => InstView::And(b),
            Inst::Or(b) => InstView::Or(b),
            Inst::Jump(l) => InstView::Jump(l@),
            Inst::Branch(b) => InstView::Branch(b@),
            Inst::Call(c) => InstView::Call(c@),
            Inst::Return(o) => InstView::Return(o),
        }
    }
}

impl Clone for Memory {
    fn clone(&self) -> (res: Self)
        ensures
            res == *self,
        decreases self,
    {
        match &self.offset {
            Some(offset) => Memory { decl: self.decl, offset: Some(Box::new((**offset).clone())) },
            None => Memory { decl: self.decl, offset: None },
        }
    }
}

impl Clone for Location {
    fn clone(&self) -> (res: Self)
        ensures
            res == *self,
        decreases self,
    {
        match self {
            Location::Memory(m) => Location::Memory(m.clone()),
            Location::Register(r) => Location::Register(*r),
        }
    }
}

impl Clone for Operand {
    fn clone(&self) -> (res: Self)
        ensures
            res == *self,
    {
        match self {
            Operand::Literal(v) => Operand::Literal(*v),
            Operand::Location(l) => Operand::Location(l.clone()),
        }
    }
}

/// A list of instructions as the sequence of their values.
pub open spec fn insts_view(insts: Seq<Inst>) -> Seq<InstView> {
    insts.map_values(|i: Inst| i@)
}

} // verus!
