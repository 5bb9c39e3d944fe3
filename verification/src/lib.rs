//! The middle of a compiler for Decaf, a small class-based imperative
//! language: semantic analysis, and lowering to a flat three-address
//! form.
//!
//! [`token`] is the syntax tree as a parser hands it over.
//! [`semantic_analyzer`] turns it into a typed tree in which every name
//! is resolved to its declaration, or into the list of everything that
//! is wrong with the program; what a typed tree has to be like, and what
//! exactly is reported, is stated there once, on the syntax tree, and
//! the analyzer is proved to do just that. [`ssagen`] lowers a typed
//! tree to lists of instructions over registers and memory; again the
//! instructions are stated once, on the typed tree, and the walk is
//! proved to emit them.

pub mod semantic_analyzer;
pub mod ssagen;
pub mod token;

use semantic_analyzer::SemanticAnalyzer;
use vstd::prelude::*;

verus! {

/// Compiles a parsed program to assembly text. The program is analysed;
/// no code generator exists yet, so the text is empty.
pub fn compile(p: token::Program) -> (res: String)
    ensures
        res@ == Seq::<char>::empty(),
{
    let _ir = SemanticAnalyzer::new().create_ir(p);
    String::new()
}

} // verus!
