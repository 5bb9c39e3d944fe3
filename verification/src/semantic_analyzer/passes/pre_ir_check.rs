//! Checks on the syntax tree alone.

use super::SemanticCheckError;
use crate::token::{FieldDecl, MethodDecl, Program};
use vstd::prelude::*;
use vstd::string::StringExecFns;

verus! {

/// A method that can be the program's entry: named `main`, without
/// arguments.
pub open spec fn is_entry(m: MethodDecl) -> bool {
    m.name@ == "main"@ && m.args@.len() == 0
}

/// How many of the first `n` methods can be the program's entry.
pub open spec fn count_entries(methods: Seq<MethodDecl>, n: int) -> int
    decreases n,
{
    if n <= 0 {
        0
    } else {
        count_entries(methods, n - 1) + if is_entry(methods[n - 1]) {
            1int
        } else {
            0int
        }
    }
}

/// The program has exactly one method named `main` without arguments.
pub open spec fn spec_has_main(p: Program) -> bool {
    count_entries(p.method_decls@, p.method_decls@.len() as int) == 1
}

/// No declared array has a size of zero or less.
pub open spec fn array_sizes_positive(p: Program) -> bool {
    forall|i: int, j: int|
        0 <= i < p.field_decls@.len() && 0 <= j < p.field_decls@[i].loc@.len() ==> (
        #[trigger] p.field_decls@[i].loc@[j].arr_size matches Some(n) ==> n > 0)
}

/// Checks that the program has exactly one method named `main` that takes
/// no arguments.
pub fn has_main(p: &Program) -> (res: Result<(), SemanticCheckError>)
    ensures
        res is Ok <==> spec_has_main(*p),
        res matches Err(e) ==> e@ == super::Diagnostic::NoMainMethod,
{
    let main_name = String::from_str("main");
    let mut count: usize = 0;
    let mut i: usize = 0;
    while i < p.method_decls.len()
        invariant
            i <= p.method_decls.len(),
            count <= i,
            count == count_entries(p.method_decls@, i as int),
            main_name@ == "main"@,
        decreases p.method_decls.len() - i,
    {
        let m = &p.method_decls[i];
        if m.name == main_name && m.args.len() == 0 {
            count = count + 1;
        }
        i = i + 1;
    }
    if count == 1 {
        Ok(())
    } else {
        Err(SemanticCheckError::NoMainMethod)
    }
}

fn line_sizes_positive(d: &FieldDecl) -> (res: bool)
    ensures
        res <==> forall|j: int|
            0 <= j < d.loc@.len() ==> (#[trigger] d.loc@[j].arr_size matches Some(n) ==> n > 0),
{
    let mut j: usize = 0;
    while j < d.loc.len()
        invariant
            j <= d.loc.len(),
            forall|k: int|
                0 <= k < j ==> (#[trigger] d.loc@[k].arr_size matches Some(n) ==> n > 0),
        decreases d.loc.len() - j,
    {
        match d.loc[j].arr_size {
            Some(n) => {
                if n <= 0 {
                    return false;
                }
            },
            None => (),
        }
        j = j + 1;
    }
    true
}

/// Checks that every array is declared with a size greater than zero.
pub fn is_array_size_positive(p: &Program) -> (res: Result<(), SemanticCheckError>)
    ensures
        res is Ok <==> array_sizes_positive(*p),
        res matches Err(e) ==> e@ == super::Diagnostic::NonPositiveArraySize,
{
    let mut i: usize = 0;
    while i < p.field_decls.len()
        invariant
            i <= p.field_decls.len(),
            forall|k: int, j: int|
                0 <= k < i && 0 <= j < p.field_decls@[k].loc@.len() ==> (
                #[trigger] p.field_decls@[k].loc@[j].arr_size matches Some(n) ==> n > 0),
        decreases p.field_decls.len() - i,
    {
        if !line_sizes_positive(&p.field_decls[i]) {
            return Err(SemanticCheckError::NonPositiveArraySize);
        }
        i = i + 1;
    }
    Ok(())
}

} // verus!
