//! How the scope stack of the walk reads as a typing environment.
//!
//! The scope stack binds names to handles; the typing rules speak of what
//! a name stands for. [`type_env_of`] reads the one as the other, and the
//! lemmas here say how each step of the walk changes the reading.

use super::elaborate::bind_all;
use super::env;
use super::env::{EnvStackView, EnvType};
use super::ir;
use super::ir::Decls;
use super::typing::{Declared, MethodSig, TypeEnv, VarSig};
use vstd::prelude::*;

verus! {

/// What a declared variable is to the typing rules.
pub open spec fn var_sig(ds: Decls, d: ir::VarDecl) -> VarSig {
    VarSig { type_: ds.var(d).type_, is_array: ds.var(d).is_array() }
}

/// What a declared method is to the typing rules.
pub open spec fn method_sig_of(ds: Decls, m: ir::MethodDecl) -> MethodSig {
    MethodSig { return_type: ds.method(m).return_type, args: ds.arg_types(m) }
}

/// The typing environment that a scope stack stands for, the handles in
/// it read in `ds`.
pub open spec fn type_env_of(scopes: EnvStackView, ds: Decls) -> TypeEnv {
    TypeEnv {
        vars: Map::new(
            |n: Seq<char>| scopes.find_var(n) is Some,
            |n: Seq<char>| var_sig(ds, scopes.find_var(n).unwrap()),
        ),
        local: if scopes.envs.len() > 0 {
            scopes.envs.last().table.dom()
        } else {
            Set::empty()
        },
        methods: Map::new(
            |n: Seq<char>| scopes.methods.contains_key(n),
            |n: Seq<char>| method_sig_of(ds, scopes.methods[n]),
        ),
        return_type: match scopes.current_method() {
            Some(m) => ds.method(m).return_type,
            None => ir::Type::Void,
        },
        in_for: scopes.current_for() is Some,
    }
}

/// Every handle in the scope stack is declared in `ds`.
pub open spec fn scopes_declared(scopes: EnvStackView, ds: Decls) -> bool {
    &&& forall|i: int, n: Seq<char>|
        0 <= i < scopes.envs.len() && #[trigger] scopes.envs[i].table.contains_key(n)
            ==> ds.has_var(scopes.envs[i].table[n])
    &&& forall|n: Seq<char>| #[trigger]
        scopes.methods.contains_key(n) ==> ds.has_method(scopes.methods[n])
    &&& forall|i: int|
        0 <= i < scopes.envs.len() ==> (#[trigger] scopes.envs[i].type_ matches EnvType::Method(m)
            ==> ds.has_method(m))
}

/// What a lookup finds is declared.
pub proof fn lemma_found_is_declared(scopes: EnvStackView, ds: Decls, name: Seq<char>, n: int)
    requires
        scopes_declared(scopes, ds),
        n <= scopes.envs.len(),
    ensures
        env::find_var_below(scopes.envs, name, n) matches Some(d) ==> ds.has_var(d),
        env::method_below(scopes.envs, n) matches Some(m) ==> ds.has_method(m),
    decreases n,
{
    if n > 0 {
        lemma_found_is_declared(scopes, ds, name, n - 1);
    }
}

/// Later declarations change nothing of what a scope stack stands for.
pub proof fn lemma_type_env_extended(scopes: EnvStackView, ds: Decls, later: Decls)
    requires
        scopes_declared(scopes, ds),
        ds.args_declared(),
        ds.extended_by(later),
    ensures
        type_env_of(scopes, later) == type_env_of(scopes, ds),
        scopes_declared(scopes, later),
{
    let a = type_env_of(scopes, ds);
    let b = type_env_of(scopes, later);
    assert forall|n: Seq<char>| a.vars.contains_key(n) implies a.vars[n] == b.vars[n] by {
        lemma_found_is_declared(scopes, ds, n, scopes.envs.len() as int);
    }
    assert(a.vars =~= b.vars);
    assert forall|n: Seq<char>| a.methods.contains_key(n) implies a.methods[n] == b.methods[n] by {
        let m = scopes.methods[n];
        assert(ds.has_method(m));
        assert(later.methods[m.id as int].args == ds.methods[m.id as int].args);
        assert forall|i: int| 0 <= i < ds.method(m).args@.len() implies later.var(
            ds.method(m).args@[i],
        ) == ds.var(ds.method(m).args@[i]) by {
            assert(ds.has_var(ds.methods[m.id as int].args@[i]));
        }
        assert(later.arg_types(m) =~= ds.arg_types(m));
    }
    assert(a.methods =~= b.methods);
    lemma_found_is_declared(scopes, ds, Seq::empty(), scopes.envs.len() as int);
}

/// What the lookups find after a new environment was pushed.
pub proof fn lemma_push_lookups(scopes: EnvStackView, t: EnvType, name: Seq<char>)
    ensures
        scopes.push(t).find_var(name) == scopes.find_var(name),
        scopes.push(t).current_method() == match t {
            EnvType::Method(m) => Some(m),
            _ => scopes.current_method(),
        },
        scopes.push(t).current_for() == match t {
            EnvType::For(f) => Some(f),
            _ => scopes.current_for(),
        },
        scopes.push(t).pop() == scopes,
{
    let pushed = scopes.push(t);
    env::lemma_lookups_see_prefix(pushed.envs, scopes.envs, name, scopes.envs.len() as int);
    assert(pushed.envs.last().table == Map::<Seq<char>, ir::VarDecl>::empty());
    assert(pushed.pop().envs =~= scopes.envs);
}

/// What the lookups find after a name was bound in the innermost
/// environment.
pub proof fn lemma_bind_var_lookups(
    scopes: EnvStackView,
    name: Seq<char>,
    d: ir::VarDecl,
    other: Seq<char>,
)
    requires
        scopes.envs.len() > 0,
    ensures
        scopes.bind_var(name, d).find_var(other) == if other == name {
            Some(d)
        } else {
            scopes.find_var(other)
        },
        scopes.bind_var(name, d).current_method() == scopes.current_method(),
        scopes.bind_var(name, d).current_for() == scopes.current_for(),
        scopes.bind_var(name, d).pop() == scopes.pop(),
        scopes.bind_var(name, d).envs.len() == scopes.envs.len(),
{
    let bound = scopes.bind_var(name, d);
    env::lemma_lookups_see_prefix(bound.envs, scopes.envs, other, scopes.envs.len() - 1);
    assert(bound.pop().envs =~= scopes.pop().envs);
}

/// The typing environment just inside a new scope. The scope of a loop
/// is inside the loop, and the scope of a method returns what the method
/// returns.
pub proof fn lemma_type_env_push(scopes: EnvStackView, ds: Decls, t: EnvType)
    requires
        scopes_declared(scopes, ds),
        t matches EnvType::Method(m) ==> ds.has_method(m),
    ensures
        scopes_declared(scopes.push(t), ds),
        type_env_of(scopes.push(t), ds) == (TypeEnv {
            in_for: t is For || type_env_of(scopes, ds).in_for,
            return_type: match t {
                EnvType::Method(m) => ds.method(m).return_type,
                _ => type_env_of(scopes, ds).return_type,
            },
            ..type_env_of(scopes, ds).enter()
        }),
{
    let pushed = scopes.push(t);
    let a = type_env_of(pushed, ds);
    let b = type_env_of(scopes, ds);
    assert forall|n: Seq<char>| pushed.find_var(n) == scopes.find_var(n) by {
        lemma_push_lookups(scopes, t, n);
    }
    lemma_push_lookups(scopes, t, Seq::empty());
    assert(a.vars =~= b.vars);
    assert(a.local =~= Set::<Seq<char>>::empty());
    assert(a.methods =~= b.methods);
}

/// The typing environment after a declaration.
pub proof fn lemma_type_env_bind_var(
    scopes: EnvStackView,
    ds: Decls,
    name: Seq<char>,
    d: ir::VarDecl,
)
    requires
        scopes_declared(scopes, ds),
        scopes.envs.len() > 0,
        ds.has_var(d),
        ds.var(d).name@ == name,
    ensures
        scopes_declared(scopes.bind_var(name, d), ds),
        type_env_of(scopes.bind_var(name, d), ds) == type_env_of(scopes, ds).declare(ds.var(d)@),
{
    let bound = scopes.bind_var(name, d);
    let a = type_env_of(bound, ds);
    let b = type_env_of(scopes, ds).declare(ds.var(d)@);
    assert forall|n: Seq<char>|
        bound.find_var(n) == if n == name {
            Some(d)
        } else {
            scopes.find_var(n)
        } by {
        lemma_bind_var_lookups(scopes, name, d, n);
    }
    lemma_bind_var_lookups(scopes, name, d, name);
    assert(a.vars =~= b.vars);
    assert(a.local =~= b.local);
    assert(a.methods =~= b.methods);
}

/// The typing environment after a method was declared.
pub proof fn lemma_type_env_bind_method(
    scopes: EnvStackView,
    ds: Decls,
    name: Seq<char>,
    m: ir::MethodDecl,
)
    requires
        scopes_declared(scopes, ds),
        ds.has_method(m),
    ensures
        scopes_declared(scopes.bind_method(name, m), ds),
        type_env_of(scopes.bind_method(name, m), ds) == type_env_of(scopes, ds).bind_method(
            name,
            method_sig_of(ds, m),
        ),
{
    let a = type_env_of(scopes.bind_method(name, m), ds);
    let b = type_env_of(scopes, ds).bind_method(name, method_sig_of(ds, m));
    assert(a.vars =~= b.vars);
    assert(a.methods =~= b.methods);
}

/// Leaving a scope keeps every handle declared.
pub proof fn lemma_pop_declared(scopes: EnvStackView, ds: Decls)
    requires
        scopes_declared(scopes, ds),
    ensures
        scopes_declared(scopes.pop(), ds),
{
    let popped = scopes.pop();
    assert forall|i: int, n: Seq<char>|
        0 <= i < popped.envs.len() && #[trigger] popped.envs[i].table.contains_key(
            n,
        ) implies ds.has_var(popped.envs[i].table[n]) by {
        assert(popped.envs[i] == scopes.envs[i]);
    }
    assert forall|i: int| 0 <= i < popped.envs.len() implies (
    #[trigger] popped.envs[i].type_ matches EnvType::Method(m) ==> ds.has_method(m)) by {
        assert(popped.envs[i] == scopes.envs[i]);
    }
}

/// Binding variables changes the innermost environment only, and of it
/// only the table.
pub proof fn lemma_bind_all_lookups(
    scopes: EnvStackView,
    items: Seq<Declared>,
    handles: Seq<ir::VarDecl>,
)
    requires
        scopes.envs.len() > 0,
    ensures
        bind_all(scopes, items, handles).pop() == scopes.pop(),
        bind_all(scopes, items, handles).envs.len() == scopes.envs.len(),
        bind_all(scopes, items, handles).current_method() == scopes.current_method(),
        bind_all(scopes, items, handles).current_for() == scopes.current_for(),
    decreases items.len(),
{
    if items.len() > 0 {
        let rest = bind_all(scopes, items.drop_last(), handles.drop_last());
        lemma_bind_all_lookups(scopes, items.drop_last(), handles.drop_last());
        lemma_bind_var_lookups(rest, items.last().name, handles.last(), Seq::empty());
    }
}

} // verus!
