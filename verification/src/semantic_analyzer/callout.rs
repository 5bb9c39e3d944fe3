//! When two callouts are the same call: the same routine, taking
//! arguments of the same kinds.

use super::ir::{Callout, CalloutArg, Type};
use vstd::prelude::*;
use vstd::std_specs::cmp::PartialEqSpecImpl;

verus! {

/// What kind of argument a callout gets.
#[derive(Debug, Clone, Copy, PartialEq, Eq, Structural, Hash)]
pub enum CalloutArgType {
    Int,
    Bool,
    String,
}

/// The kind of one argument: a text, or the type of the expression.
pub open spec fn arg_kind(a: CalloutArg) -> CalloutArgType {
    match a {
        CalloutArg::StringLiteral(_) => CalloutArgType::String,
        CalloutArg::Expr(e) => if e.type_ == Type::Bool {
            CalloutArgType::Bool
        } else {
            CalloutArgType::Int
        },
    }
}

fn kind_of(a: &CalloutArg) -> (res: CalloutArgType)
    ensures
        res == arg_kind(*a),
{
    match a {
        CalloutArg::StringLiteral(_) => CalloutArgType::String,
        CalloutArg::Expr(e) => match e.type_ {
            Type::Bool => CalloutArgType::Bool,
            _ => CalloutArgType::Int,
        },
    }
}

impl Callout {
    /// The kinds of the arguments, in order.
    pub open spec fn args_kinds(&self) -> Seq<CalloutArgType> {
        self.args@.map_values(|a: CalloutArg| arg_kind(a))
    }

    /// The kinds of the arguments, in order. Every expression among them
    /// has to have a value.
    pub fn get_args_types(&self) -> (res: Vec<CalloutArgType>)
        requires
            forall|i: int|
                0 <= i < self.args@.len() ==> (#[trigger] self.args@[i] matches CalloutArg::Expr(e)
                    ==> e.type_ != Type::Void),
        ensures
            res@ == self.args_kinds(),
    {
        let mut res: Vec<CalloutArgType> = Vec::new();
        let mut i: usize = 0;
        while i < self.args.len()
            invariant
                i <= self.args@.len(),
                res@ == self.args@.take(i as int).map_values(|a: CalloutArg| arg_kind(a)),
            decreases self.args@.len() - i,
        {
            res.push(kind_of(&self.args[i]));
            assert(self.args@.take(i + 1).map_values(|a: CalloutArg| arg_kind(a))
                =~= self.args@.take(i as int).map_values(|a: CalloutArg| arg_kind(a)).push(
                arg_kind(self.args@[i as int]),
            ));
            i = i + 1;
        }
        assert(self.args@.take(self.args@.len() as int) =~= self.args@);
        res
    }
}

impl PartialEq for Callout {
    fn eq(&self, other: &Self) -> (res: bool) {
        if self.name != other.name {
            return false;
        }
        if self.args.len() != other.args.len() {
            assert(self.args_kinds().len() != other.args_kinds().len());
            return false;
        }
        let mut i: usize = 0;
        while i < self.args.len()
            invariant
                i <= self.args@.len(),
                self.args@.len() == other.args@.len(),
                forall|k: int|
                    0 <= k < i ==> arg_kind(#[trigger] self.args@[k]) == arg_kind(other.args@[k]),
            decreases self.args@.len() - i,
        {
            if kind_of(&self.args[i]) != kind_of(&other.args[i]) {
                assert(self.args_kinds()[i as int] != other.args_kinds()[i as int]);
                return false;
            }
            i = i + 1;
        }
        assert(self.args_kinds() =~= other.args_kinds());
        true
    }
}

impl PartialEqSpecImpl for Callout {
    open spec fn obeys_eq_spec() -> bool {
        true
    }

    /// Two callouts are equal when they name the same routine and their
    /// arguments are of the same kinds, one for one.
    open spec fn eq_spec(&self, other: &Self) -> bool {
        self.name@ == other.name@ && self.args_kinds() == other.args_kinds()
    }
}

impl Eq for Callout {

}

} // verus!
