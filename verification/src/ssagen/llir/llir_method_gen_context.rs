//! The state that lowering keeps while it walks one method.

use super::inst::{insts_view, Inst, InstView, Register, VarDef};
use super::lower::{find_loop, lower_method, reg, Counters, LoopEntry, LoopLabels};
use super::visit::{is_lowering_of, var_defs};
use super::{MethodDef0, ToLLIRType};
use crate::semantic_analyzer::ir as sir;
use crate::semantic_analyzer::scoping::method_scoped;
use crate::ssagen::label_gen::{
    for_begin_label, for_end_label, if_join_label, if_then_label, LabelGenerator,
};
use vstd::prelude::*;

verus! {

/// The two labels of one loop.
pub struct ForLabel {
    pub label_loop_begin: String,
    pub label_loop_end: String,
}

impl View for ForLabel {
    type V = LoopLabels;

    open spec fn view(&self) -> LoopLabels {
        LoopLabels { begin: self.label_loop_begin@, end: self.label_loop_end@ }
    }
}

/// Hands out registers, numbered from zero.
pub struct RegisterGenerator {
    reg_id: u32,
}

impl RegisterGenerator {
    /// The number of the next register.
    pub closed spec fn next(&self) -> nat {
        self.reg_id as nat
    }

    pub fn new() -> (res: Self)
        ensures
            res.next() == 0,
    {
        Self { reg_id: 0 }
    }

    /// The next register.
    pub fn generate(&mut self) -> (res: Register)
        requires
            old(self).next() < u32::MAX,
        ensures
            res == reg(old(self).next()),
            final(self).next() == old(self).next() + 1,
    {
        let id = self.reg_id;
        self.reg_id = id + 1;
        Register { id }
    }
}

/// The state of lowering as a mathematical value.
pub struct ContextView {
    /// The instructions emitted so far for the method at hand.
    pub emitted: Seq<InstView>,
    /// The numbers that are free.
    pub counters: Counters,
    /// The loops that enclose the point of the walk, innermost last.
    pub loops: Seq<LoopEntry>,
    /// The variables that have a definition: the globals, then those of
    /// the method at hand in the order they were added.
    pub vars: Seq<VarDef>,
    /// The globals.
    pub globals: Seq<VarDef>,
    /// The method at hand.
    pub method: Option<sir::MethodDecl>,
}

impl ContextView {
    /// The variables that have a definition.
    pub open spec fn visible(self) -> Set<sir::VarDecl> {
        Set::new(|d: sir::VarDecl| self.vars.contains(VarDef { decl: d }))
    }

    /// The global variables.
    pub open spec fn global_set(self) -> Set<sir::VarDecl> {
        Set::new(|d: sir::VarDecl| self.globals.contains(VarDef { decl: d }))
    }

    /// None of the variables `decls` has a definition yet, and none
    /// occurs twice among them.
    pub open spec fn fresh(self, decls: Seq<sir::VarDecl>) -> bool {
        (self.vars + var_defs(decls)).no_duplicates()
    }
}

pub struct LLIRMethodGenContext {
    global_var_defs: Vec<VarDef>,
    local_var_defs: Vec<VarDef>,
    for_labels: Vec<(sir::For, ForLabel)>,
    insts: Vec<Inst>,
    label_gen: LabelGenerator,
    method_decl: Option<sir::MethodDecl>,
    reggen: RegisterGenerator,
}

pub open spec fn loop_entry(e: (sir::For, ForLabel)) -> LoopEntry {
    LoopEntry { for_: e.0, labels: e.1@ }
}

impl View for LLIRMethodGenContext {
    type V = ContextView;

    closed spec fn view(&self) -> ContextView {
        ContextView {
            emitted: insts_view(self.insts@),
            counters: Counters {
                regs: self.reggen.next(),
                fors: self.label_gen.next_for(),
                ifs: self.label_gen.next_ifelse(),
            },
            loops: self.for_labels@.map_values(|e: (sir::For, ForLabel)| loop_entry(e)),
            vars: self.local_var_defs@,
            globals: self.global_var_defs@,
            method: self.method_decl,
        }
    }
}

/// A copy of a list of variables.
fn copy_defs(defs: &Vec<VarDef>) -> (res: Vec<VarDef>)
    ensures
        res@ == defs@,
{
    let mut res: Vec<VarDef> = Vec::new();
    let mut i: usize = 0;
    while i < defs.len()
        invariant
            i <= defs@.len(),
            res@ == defs@.take(i as int),
        decreases defs@.len() - i,
    {
        res.push(defs[i]);
        assert(defs@.take(i + 1) =~= defs@.take(i as int).push(defs@[i as int]));
        i = i + 1;
    }
    assert(defs@.take(defs@.len() as int) =~= defs@);
    res
}

/// The definitions of the variables `decls`, in order.
pub fn defs_of(decls: &Vec<sir::VarDecl>) -> (res: Vec<VarDef>)
    ensures
        res@ == var_defs(decls@),
{
    let mut res: Vec<VarDef> = Vec::new();
    let mut i: usize = 0;
    while i < decls.len()
        invariant
            i <= decls@.len(),
            res@ == var_defs(decls@.take(i as int)),
        decreases decls@.len() - i,
    {
        res.push(VarDef { decl: decls[i] });
        assert(var_defs(decls@.take(i + 1)) =~= var_defs(decls@.take(i as int)).push(
            VarDef { decl: decls@[i as int] },
        ));
        i = i + 1;
    }
    assert(decls@.take(decls@.len() as int) =~= decls@);
    res
}

impl LLIRMethodGenContext {
    /// A context for a program with the globals `global_var_defs`: no
    /// label was handed out yet.
    pub fn new(global_var_defs: &Vec<VarDef>) -> (res: Self)
        ensures
            res@ == (ContextView {
                emitted: Seq::empty(),
                counters: Counters { regs: 0, fors: 0, ifs: 0 },
                loops: Seq::empty(),
                vars: Seq::empty(),
                globals: global_var_defs@,
                method: None,
            }),
    {
        let res = Self {
            global_var_defs: copy_defs(global_var_defs),
            local_var_defs: Vec::new(),
            for_labels: Vec::new(),
            insts: Vec::new(),
            label_gen: LabelGenerator::new(),
            method_decl: None,
            reggen: RegisterGenerator::new(),
        };
        assert(res@.emitted =~= Seq::empty());
        assert(res@.loops =~= Seq::empty());
        res
    }

    /// Gives variable `d`, which has none yet, a definition in the method
    /// at hand.
    pub fn add_var(&mut self, d: &sir::VarDecl)
        requires
            !old(self)@.vars.contains(VarDef { decl: *d }),
        ensures
            final(self)@ == (ContextView {
                vars: old(self)@.vars.push(VarDef { decl: *d }),
                ..old(self)@
            }),
    {
        self.local_var_defs.push(VarDef { decl: *d });
    }

    /// The definition of variable `d`, which has to have one.
    pub fn get_var_def(&self, d: &sir::VarDecl) -> (res: VarDef)
        requires
            self@.vars.contains(VarDef { decl: *d }),
        ensures
            res.decl == *d,
            self@.vars.contains(res),
    {
        VarDef { decl: *d }
    }

    /// Appends one instruction to those of the method at hand.
    pub fn push_inst(&mut self, inst: Inst)
        ensures
            final(self)@ == (ContextView {
                emitted: old(self)@.emitted.push(inst@),
                ..old(self)@
            }),
    {
        self.insts.push(inst);
        assert(self@.emitted =~= old(self)@.emitted.push(inst@));
    }

    /// A new register.
    pub fn new_register(&mut self) -> (res: Register)
        requires
            old(self)@.counters.regs < u32::MAX,
        ensures
            res == reg(old(self)@.counters.regs),
            final(self)@ == (ContextView {
                counters: Counters {
                    regs: old(self)@.counters.regs + 1,
                    ..old(self)@.counters
                },
                ..old(self)@
            }),
    {
        self.reggen.generate()
    }

    /// Enters loop `f`: it gets the next pair of labels, which come back,
    /// and is from now on the innermost loop.
    pub fn enter_for(&mut self, f: sir::For) -> (res: (String, String))
        requires
            old(self)@.counters.fors < u32::MAX,
        ensures
            res.0@ == for_begin_label(old(self)@.counters.fors),
            res.1@ == for_end_label(old(self)@.counters.fors),
            final(self)@ == (ContextView {
                counters: Counters {
                    fors: old(self)@.counters.fors + 1,
                    ..old(self)@.counters
                },
                loops: old(self)@.loops.push(
                    LoopEntry { for_: f, labels: LoopLabels { begin: res.0@, end: res.1@ } },
                ),
                ..old(self)@
            }),
    {
        let (begin, end) = self.label_gen.get_for_labels();
        let labels = ForLabel { label_loop_begin: begin.clone(), label_loop_end: end.clone() };
        self.for_labels.push((f, labels));
        assert(self@.loops =~= old(self)@.loops.push(
            LoopEntry { for_: f, labels: LoopLabels { begin: begin@, end: end@ } },
        ));
        (begin, end)
    }

    /// Leaves the innermost loop.
    pub fn leave_for(&mut self)
        ensures
            final(self)@ == (ContextView {
                loops: if old(self)@.loops.len() > 0 {
                    old(self)@.loops.drop_last()
                } else {
                    old(self)@.loops
                },
                ..old(self)@
            }),
    {
        self.for_labels.pop();
        assert(self@.loops =~= if old(self)@.loops.len() > 0 {
            old(self)@.loops.drop_last()
        } else {
            old(self)@.loops
        });
    }

    /// The labels of loop `f`, the head first, where it encloses the
    /// point of the walk.
    pub fn find_for_labels(&self, f: &sir::For) -> (res: Option<(String, String)>)
        ensures
            match find_loop(self@.loops, *f, self@.loops.len() as int) {
                Some(l) => res matches Some(found) && found.0@ == l.begin && found.1@ == l.end,
                None => res is None,
            },
    {
        let mut i: usize = self.for_labels.len();
        while i > 0
            invariant
                i <= self.for_labels@.len(),
                find_loop(self@.loops, *f, self@.loops.len() as int) == find_loop(
                    self@.loops,
                    *f,
                    i as int,
                ),
            decreases i,
        {
            i = i - 1;
            if self.for_labels[i].0 == *f {
                let labels = &self.for_labels[i].1;
                return Some((labels.label_loop_begin.clone(), labels.label_loop_end.clone()));
            }
        }
        None
    }

    /// The next pair of labels for a conditional: that of its second arm
    /// and that behind it.
    pub fn new_ifelse_labels(&mut self) -> (res: (String, String))
        requires
            old(self)@.counters.ifs < u32::MAX,
        ensures
            res.0@ == if_then_label(old(self)@.counters.ifs),
            res.1@ == if_join_label(old(self)@.counters.ifs),
            final(self)@ == (ContextView {
                counters: Counters { ifs: old(self)@.counters.ifs + 1, ..old(self)@.counters },
                ..old(self)@
            }),
    {
        self.label_gen.get_ifelse_labels()
    }

    /// Makes the context ready for method `m`: nothing emitted, the
    /// registers numbered from zero, no loop entered, and the globals as
    /// the only variables.
    fn prepare_ctx(&mut self, m: &sir::MethodDecl)
        ensures
            final(self)@ == (ContextView {
                emitted: Seq::empty(),
                counters: Counters { regs: 0, ..old(self)@.counters },
                loops: Seq::empty(),
                vars: old(self)@.globals,
                method: Some(*m),
                ..old(self)@
            }),
    {
        self.for_labels = Vec::new();
        self.local_var_defs = copy_defs(&self.global_var_defs);
        self.insts = Vec::new();
        self.method_decl = Some(*m);
        self.reggen = RegisterGenerator::new();
        assert(self@.emitted =~= Seq::empty());
        assert(self@.loops =~= Seq::empty());
    }

    /// Lowers method `d` of the program `ir`.
    pub fn generate_llir_method(&mut self, ir: &sir::IRRoot, d: &sir::MethodDecl) -> (res:
        MethodDef0)
        requires
            ir.decls().has_method(*d),
            lower_method(old(self)@.counters, ir.decls().method(*d)).after.fits(),
            method_scoped(old(self)@.global_set(), ir.decls().method(*d)),
            (old(self)@.globals + var_defs(
                sir::method_made(ir.decls().method(*d)).vars,
            )).no_duplicates(),
        ensures
            is_lowering_of(res, old(self)@.counters, *ir, *d),
            final(self)@ == (ContextView {
                emitted: Seq::empty(),
                counters: lower_method(old(self)@.counters, ir.decls().method(*d)).after,
                loops: Seq::empty(),
                vars: old(self)@.globals + var_defs(sir::method_made(ir.decls().method(*d)).vars),
                method: Some(*d),
                ..old(self)@
            }),
    {
        let decl = &ir.method_decls[d.id];
        let return_type = decl.return_type.to_llir_type(1);
        let args = defs_of(&decl.args);
        self.prepare_ctx(d);
        assert(self@.visible() =~= old(self)@.global_set());
        self.visit_method(decl);
        let mut insts: Vec<Inst> = Vec::new();
        core::mem::swap(&mut insts, &mut self.insts);
        assert(self@.emitted =~= Seq::empty());
        MethodDef0 { decl: *d, args: args, return_type: return_type, insts: insts }
    }
}

} // verus!
