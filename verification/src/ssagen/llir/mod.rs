//! The lowered program: typed variables, and for each method a list of
//! instructions.

pub mod inst;
pub mod llir_method_gen_context;
pub mod lower;
pub mod visit;

use crate::semantic_analyzer::ir as sir;
use inst::{Inst, VarDef};
use llir_method_gen_context::{defs_of, LLIRMethodGenContext};
use lower::{lower_method, Counters, LoweredStmt};
use visit::{is_lowering_of, var_defs};
use vstd::prelude::*;

verus! {

/// The type of a variable with its layout: `len` is one for a scalar and
/// the number of elements for an array, and the number of characters for
/// a text.
#[derive(Debug, Clone, Copy, PartialEq, Eq, Structural)]
pub enum Type {
    Int { len: u32 },
    Bool { len: u32 },
    String { len: u32 },
    Void,
}

impl Type {
    /// The size in bytes: four for each integer or boolean, one for each
    /// character of a text and one more for the zero behind it, none for
    /// `Void`.
    pub open spec fn bytesize(&self) -> nat {
        match *self {
            Type::Int { len } => (len * 4) as nat,
            Type::Bool { len } => (len * 4) as nat,
            Type::String { len } => (len + 1) as nat,
            Type::Void => 0,
        }
    }

    pub fn get_bytesize(&self) -> (res: u32)
        requires
            self.bytesize() <= u32::MAX,
        ensures
            res == self.bytesize(),
    {
        match self {
            Type::Int { len } => *len * 4,
            Type::Bool { len } => *len * 4,
            Type::String { len } => *len + 1,
            Type::Void => 0,
        }
    }
}

pub trait ToLLIRType {
    /// The lowered type of `arr_size` elements of this type.
    spec fn llir_type(&self, arr_size: u32) -> Type;

    fn to_llir_type(&self, arr_size: u32) -> (res: Type)
        ensures
            res == self.llir_type(arr_size),
    ;
}

impl ToLLIRType for sir::Type {
    open spec fn llir_type(&self, arr_size: u32) -> Type {
        match *self {
            sir::Type::Int => Type::Int { len: arr_size },
            sir::Type::Bool => Type::Bool { len: arr_size },
            sir::Type::Void => Type::Void,
        }
    }

    fn to_llir_type(&self, arr_size: u32) -> (res: Type) {
        match self {
            sir::Type::Int => Type::Int { len: arr_size },
            sir::Type::Bool => Type::Bool { len: arr_size },
            sir::Type::Void => Type::Void,
        }
    }
}

/// What a variable is in the lowered program.
#[derive(Debug)]
pub struct VarDef0 {
    pub name: String,
    pub type_: Type,
}

/// A lowered method: the declaration it was made from, its arguments, its
/// return type and its instructions.
#[derive(Debug)]
pub struct MethodDef0 {
    pub decl: sir::MethodDecl,
    pub args: Vec<VarDef>,
    pub return_type: Type,
    pub insts: Vec<Inst>,
}

/// The lowered program. `defs` holds, at the index of each declaration of
/// the typed tree, what that variable is here; `var_defs` are the
/// globals.
#[derive(Debug)]
pub struct LLIR {
    pub var_defs: Vec<VarDef>,
    pub method_defs: Vec<MethodDef0>,
    pub defs: Vec<VarDef0>,
}

/// The lowered type of a declared variable: one element for a scalar, as
/// many as declared for an array.
pub open spec fn def_type(d: sir::VarDecl0) -> Type {
    d.type_.llir_type(
        match d.arr_size {
            Some(n) => n as u32,
            None => 1,
        },
    )
}

/// What a declared variable is in the lowered program.
pub fn to_llir_var_def(d: &sir::VarDecl0) -> (res: VarDef0)
    requires
        d.arr_size matches Some(n) ==> n > 0,
    ensures
        res.name@ == d.name@,
        res.type_ == def_type(*d),
{
    let len: u32 = match d.arr_size {
        Some(n) => n as u32,
        None => 1,
    };
    VarDef0 { name: d.name.clone(), type_: d.type_.to_llir_type(len) }
}

/// The lowering of the `i`-th method of the class, after the methods
/// before it.
pub open spec fn method_lowering(ir: sir::IRRoot, i: int) -> LoweredStmt
    decreases i,
{
    lower_method(labels_before(ir, i), ir.decls().method(ir.root.method_decls@[i]))
}

/// The labels that are free when the `n`-th method of the class is
/// lowered: none was handed out before the first.
pub open spec fn labels_before(ir: sir::IRRoot, n: int) -> Counters
    decreases n, 0nat,
{
    if n <= 0 {
        Counters { regs: 0, fors: 0, ifs: 0 }
    } else {
        lower_method(
            labels_before(ir, n - 1),
            ir.decls().method(ir.root.method_decls@[n - 1]),
        ).after
    }
}

/// The registers of each method and the labels of the program can be
/// numbered in 32 bits.
pub open spec fn lowerable(ir: sir::IRRoot) -> bool {
    forall|i: int|
        0 <= i < ir.root.method_decls@.len() ==> (#[trigger] method_lowering(ir, i)).after.fits()
}

/// Lowers a well-formed program: a definition for each declared
/// variable, the fields as globals, and each method of the class, in
/// order, as its list of instructions.
pub fn generate_llir(ir: &sir::IRRoot) -> (res: LLIR)
    requires
        ir.wf(),
        ir.numbered(),
        ir.scoped(),
        lowerable(*ir),
    ensures
        res.defs@.len() == ir.var_decls@.len(),
        forall|i: int|
            0 <= i < ir.var_decls@.len() ==> (#[trigger] res.defs@[i]).name@
                == ir.var_decls@[i].name@ && res.defs@[i].type_ == def_type(ir.var_decls@[i]),
        res.var_defs@ == var_defs(ir.root.field_decls@),
        res.method_defs@.len() == ir.root.method_decls@.len(),
        forall|i: int|
            0 <= i < ir.root.method_decls@.len() ==> is_lowering_of(
                #[trigger] res.method_defs@[i],
                labels_before(*ir, i),
                *ir,
                ir.root.method_decls@[i],
            ),
{
    let mut defs: Vec<VarDef0> = Vec::new();
    let mut k: usize = 0;
    while k < ir.var_decls.len()
        invariant
            ir.wf(),
            k <= ir.var_decls@.len(),
            defs@.len() == k,
            forall|i: int|
                0 <= i < k ==> (#[trigger] defs@[i]).name@ == ir.var_decls@[i].name@
                    && defs@[i].type_ == def_type(ir.var_decls@[i]),
        decreases ir.var_decls@.len() - k,
    {
        assert(ir.decls().vars[k as int].arr_size matches Some(n) ==> n > 0);
        defs.push(to_llir_var_def(&ir.var_decls[k]));
        k = k + 1;
    }
    let globals = defs_of(&ir.root.field_decls);
    let mut ctx = LLIRMethodGenContext::new(&globals);
    let mut method_defs: Vec<MethodDef0> = Vec::new();
    let mut j: usize = 0;
    let declared = ir.var_decls.len();
    proof {
        let empty = llir_method_gen_context::ContextView { vars: Seq::empty(), ..ctx@ };
        assert(empty.vars + var_defs(ir.root.field_decls@) =~= ctx@.globals);
        visit::lemma_visible_after(
            empty,
            llir_method_gen_context::ContextView { vars: ctx@.globals, ..ctx@ },
            ir.root.field_decls@,
        );
        assert(empty.visible() =~= Set::<sir::VarDecl>::empty());
        assert(ctx@.global_set() =~= ir.root.field_decls@.to_set());
    }
    while j < ir.root.method_decls.len()
        invariant
            ir.wf(),
            ir.numbered(),
            ir.scoped(),
            declared == ir.var_decls@.len(),
            ctx@.globals == var_defs(ir.root.field_decls@),
            ctx@.global_set() == ir.root.field_decls@.to_set(),
            lowerable(*ir),
            j <= ir.root.method_decls@.len(),
            method_defs@.len() == j,
            ctx@.counters.fors == labels_before(*ir, j as int).fors,
            ctx@.counters.ifs == labels_before(*ir, j as int).ifs,
            forall|i: int|
                0 <= i < j ==> is_lowering_of(
                    #[trigger] method_defs@[i],
                    labels_before(*ir, i),
                    *ir,
                    ir.root.method_decls@[i],
                ),
        decreases ir.root.method_decls@.len() - j,
    {
        let d = &ir.root.method_decls[j];
        proof {
            assert(sir::method_wf(ir.decls(), ir.root.method_decls@[j as int]));
            assert(method_lowering(*ir, j as int).after.fits());
            lemma_lowering_ignores_registers(
                ctx@.counters,
                labels_before(*ir, j as int),
                ir.decls().method(*d),
            );
            lemma_methods_declare_fresh(*ir, j as int);
        }
        let def = ctx.generate_llir_method(ir, d);
        method_defs.push(def);
        j = j + 1;
    }
    LLIR { var_defs: globals, method_defs: method_defs, defs: defs }
}

/// A method is lowered with the registers numbered from zero, whatever
/// the number of the next register was before.
pub proof fn lemma_lowering_ignores_registers(a: Counters, b: Counters, m: sir::MethodDecl0)
    requires
        a.fors == b.fors,
        a.ifs == b.ifs,
    ensures
        lower_method(a, m) == lower_method(b, m),
{
}

/// In a program whose handles are numbered in the order of the walk, no
/// method declares a field again, nor any variable twice.
pub proof fn lemma_methods_declare_fresh(ir: sir::IRRoot, j: int)
    requires
        ir.numbered(),
        ir.var_decls@.len() <= usize::MAX,
        0 <= j < ir.root.method_decls@.len(),
    ensures
        (var_defs(ir.root.field_decls@) + var_defs(
            sir::method_made(ir.decls().method(ir.root.method_decls@[j])).vars,
        )).no_duplicates(),
{
    let ds = ir.decls();
    let handles = ir.root.method_decls@;
    let fields = ir.root.field_decls@;
    let before = sir::methods_made(ds, handles, j).vars;
    let own = sir::method_made(ds.method(handles[j])).vars;
    let all = sir::methods_made(ds, handles, handles.len() as int).vars;
    let whole = fields + all;
    sir::lemma_methods_made_grow(ds, handles, j + 1, handles.len() as int);
    assert(sir::methods_made(ds, handles, j + 1).vars == before + own);
    assert(whole == sir::var_range(0, ir.var_decls@.len() as int));
    let picked = var_defs(fields) + var_defs(own);
    assert forall|a: int, b: int|
        0 <= a < picked.len() && 0 <= b < picked.len() && a != b implies picked[a]
        != picked[b] by {
        let at = |k: int|
            if k < fields.len() {
                k
            } else {
                k + before.len()
            };
        assert(picked[a].decl == whole[at(a)]) by {
            if a >= fields.len() {
                assert((before + own)[a - fields.len() + before.len()] == own[a - fields.len()]);
                assert(all[a - fields.len() + before.len()] == (before + own)[a - fields.len()
                    + before.len()]);
            }
        }
        assert(picked[b].decl == whole[at(b)]) by {
            if b >= fields.len() {
                assert((before + own)[b - fields.len() + before.len()] == own[b - fields.len()]);
                assert(all[b - fields.len() + before.len()] == (before + own)[b - fields.len()
                    + before.len()]);
            }
        }
        assert((before + own).len() <= all.len());
        assert(whole.len() == ir.var_decls@.len());
        assert(0 <= at(a) < whole.len() && 0 <= at(b) < whole.len());
        assert(whole[at(a)] == sir::var_range(0, ir.var_decls@.len() as int)[at(a)]);
        assert(whole[at(b)] == sir::var_range(0, ir.var_decls@.len() as int)[at(b)]);
        assert(whole[at(a)].id == at(a));
        assert(whole[at(b)].id == at(b));
    }
}

} // verus!
