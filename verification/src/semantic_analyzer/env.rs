//! The scope stack: lexical environments, innermost last, and the one
//! table of methods.

use super::ir::{For, IfElse, MethodDecl, VarDecl};
use vstd::hash_map::StringHashMap;
use vstd::prelude::*;

verus! {

/// What kind of construct opened an environment. `NoEnv` asks for no
/// environment at all: a context made with it neither pushes nor pops.
#[derive(Debug, Clone, Copy, PartialEq, Eq, Structural)]
pub enum EnvType {
    Global,
    Anon,
    Method(MethodDecl),
    For(For),
    If(IfElse),
    Else(IfElse),
    NoEnv,
}

/// A name that was already taken, with the declaration that held it.
#[derive(Debug, Clone, Copy, PartialEq, Eq, Structural)]
pub enum EnvError {
    DuplicatedMethod(MethodDecl),
    DuplicatedVar(VarDecl),
}

/// One environment as a mathematical value.
pub struct EnvView {
    pub type_: EnvType,
    pub table: Map<Seq<char>, VarDecl>,
}

/// The scope stack as a mathematical value; the innermost environment is
/// the last of `envs`.
pub struct EnvStackView {
    pub methods: Map<Seq<char>, MethodDecl>,
    pub envs: Seq<EnvView>,
}

/// The declaration that `name` resolves to among the first `n`
/// environments, the innermost of them looked at first.
pub open spec fn find_var_below(envs: Seq<EnvView>, name: Seq<char>, n: int) -> Option<VarDecl>
    decreases n,
{
    if n <= 0 {
        None
    } else if envs[n - 1].table.contains_key(name) {
        Some(envs[n - 1].table[name])
    } else {
        find_var_below(envs, name, n - 1)
    }
}

/// The method of the innermost method environment among the first `n`.
pub open spec fn method_below(envs: Seq<EnvView>, n: int) -> Option<MethodDecl>
    decreases n,
{
    if n <= 0 {
        None
    } else {
        match envs[n - 1].type_ {
            EnvType::Method(m) => Some(m),
            _ => method_below(envs, n - 1),
        }
    }
}

/// The loop of the innermost loop environment among the first `n`.
pub open spec fn for_below(envs: Seq<EnvView>, n: int) -> Option<For>
    decreases n,
{
    if n <= 0 {
        None
    } else {
        match envs[n - 1].type_ {
            EnvType::For(f) => Some(f),
            _ => for_below(envs, n - 1),
        }
    }
}

/// Lookups among the first `n` environments see only those environments.
pub proof fn lemma_lookups_see_prefix(a: Seq<EnvView>, b: Seq<EnvView>, name: Seq<char>, n: int)
    requires
        n <= a.len(),
        n <= b.len(),
        forall|i: int| 0 <= i < n ==> a[i] == b[i],
    ensures
        find_var_below(a, name, n) == find_var_below(b, name, n),
        method_below(a, n) == method_below(b, n),
        for_below(a, n) == for_below(b, n),
    decreases n,
{
    if n > 0 {
        lemma_lookups_see_prefix(a, b, name, n - 1);
    }
}

impl EnvStackView {
    pub open spec fn find_var(self, name: Seq<char>) -> Option<VarDecl> {
        find_var_below(self.envs, name, self.envs.len() as int)
    }

    pub open spec fn find_method(self, name: Seq<char>) -> Option<MethodDecl> {
        if self.methods.contains_key(name) {
            Some(self.methods[name])
        } else {
            None
        }
    }

    pub open spec fn current_method(self) -> Option<MethodDecl> {
        method_below(self.envs, self.envs.len() as int)
    }

    pub open spec fn current_for(self) -> Option<For> {
        for_below(self.envs, self.envs.len() as int)
    }

    /// The stack with a new, empty environment of kind `t` on top.
    pub open spec fn push(self, t: EnvType) -> Self {
        EnvStackView {
            envs: self.envs.push(EnvView { type_: t, table: Map::empty() }),
            ..self
        }
    }

    /// The stack without its innermost environment; an empty stack stays
    /// empty.
    pub open spec fn pop(self) -> Self {
        if self.envs.len() == 0 {
            self
        } else {
            EnvStackView { envs: self.envs.drop_last(), ..self }
        }
    }

    /// The stack after `name` was bound to `d` in the innermost
    /// environment, over whatever the name was bound to there before.
    pub open spec fn bind_var(self, name: Seq<char>, d: VarDecl) -> Self {
        let top = self.envs.last();
        EnvStackView {
            envs: self.envs.update(
                self.envs.len() - 1,
                EnvView { table: top.table.insert(name, d), ..top },
            ),
            ..self
        }
    }

    /// The stack after `name` was bound to `m` in the method table, over
    /// whatever the name was bound to before.
    pub open spec fn bind_method(self, name: Seq<char>, m: MethodDecl) -> Self {
        EnvStackView { methods: self.methods.insert(name, m), ..self }
    }

    /// The stack after entering a construct of kind `t`: unchanged for
    /// `NoEnv`, with a new environment otherwise.
    pub open spec fn enter(self, t: EnvType) -> Self {
        if t == EnvType::NoEnv {
            self
        } else {
            self.push(t)
        }
    }

    /// The stack after leaving a construct of kind `t`.
    pub open spec fn leave(self, t: EnvType) -> Self {
        if t == EnvType::NoEnv {
            self
        } else {
            self.pop()
        }
    }
}

struct Env {
    pub type_: EnvType,
    pub table: StringHashMap<VarDecl>,
}

impl View for Env {
    type V = EnvView;

    closed spec fn view(&self) -> EnvView {
        EnvView { type_: self.type_, table: self.table@ }
    }
}

impl Env {
    pub fn new(t: EnvType) -> (res: Self)
        ensures
            res@ == (EnvView { type_: t, table: Map::empty() }),
    {
        Self { type_: t, table: StringHashMap::new() }
    }
}

pub struct EnvStack {
    methods: StringHashMap<MethodDecl>,
    envs: Vec<Env>,
}

impl View for EnvStack {
    type V = EnvStackView;

    closed spec fn view(&self) -> EnvStackView {
        EnvStackView { methods: self.methods@, envs: self.envs@.map_values(|e: Env| e@) }
    }
}

impl EnvStack {
    pub fn new() -> (res: Self)
        ensures
            res@.methods == Map::<Seq<char>, MethodDecl>::empty(),
            res@.envs == Seq::<EnvView>::empty(),
    {
        Self { methods: StringHashMap::new(), envs: Vec::new() }
    }

    /// Enters a scope: a new, empty environment of kind `t` becomes the
    /// innermost one.
    pub fn push(&mut self, t: EnvType)
        ensures
            final(self)@ == old(self)@.push(t),
    {
        self.envs.push(Env::new(t));
        assert(self@.envs =~= old(self)@.push(t).envs);
    }

    /// Leaves a scope: the innermost environment goes. On an empty stack
    /// nothing happens.
    pub fn pop(&mut self)
        ensures
            final(self)@ == old(self)@.pop(),
    {
        self.envs.pop();
        assert(self@.envs =~= old(self)@.pop().envs);
    }

    /// Binds `name` to `f` in the innermost environment. Where the name
    /// was bound there already, the new binding replaces the old one and
    /// the old declaration comes back as the error.
    pub fn add_var(&mut self, name: &String, f: &VarDecl) -> (res: Result<(), EnvError>)
        requires
            old(self)@.envs.len() > 0,
        ensures
            final(self)@ == old(self)@.bind_var(name@, *f),
            res == if old(self)@.envs.last().table.contains_key(name@) {
                Err::<(), EnvError>(EnvError::DuplicatedVar(old(self)@.envs.last().table[name@]))
            } else {
                Ok::<(), EnvError>(())
            },
    {
        let mut top = self.envs.pop().unwrap();
        let before = match top.table.get(name.as_str()) {
            Some(d) => Some(*d),
            None => None,
        };
        top.table.insert(name.clone(), *f);
        self.envs.push(top);
        assert(self@.envs =~= old(self)@.bind_var(name@, *f).envs);
        match before {
            Some(d) => Err(EnvError::DuplicatedVar(d)),
            None => Ok(()),
        }
    }

    /// Binds `name` to `m` in the method table. Where the name was bound
    /// already, the new binding replaces the old one and the old
    /// declaration comes back as the error.
    pub fn add_method(&mut self, name: &String, m: &MethodDecl) -> (res: Result<(), EnvError>)
        ensures
            final(self)@ == old(self)@.bind_method(name@, *m),
            res == if old(self)@.methods.contains_key(name@) {
                Err::<(), EnvError>(EnvError::DuplicatedMethod(old(self)@.methods[name@]))
            } else {
                Ok::<(), EnvError>(())
            },
    {
        let before = match self.methods.get(name.as_str()) {
            Some(d) => Some(*d),
            None => None,
        };
        self.methods.insert(name.clone(), *m);
        match before {
            Some(d) => Err(EnvError::DuplicatedMethod(d)),
            None => Ok(()),
        }
    }

    /// The declaration that `name` resolves to: the binding in the
    /// innermost environment that has one.
    pub fn find_var_decl(&self, name: &String) -> (res: Option<VarDecl>)
        ensures
            res == self@.find_var(name@),
    {
        let mut i: usize = self.envs.len();
        while i > 0
            invariant
                i <= self.envs.len(),
                self@.find_var(name@) == find_var_below(self@.envs, name@, i as int),
            decreases i,
        {
            i = i - 1;
            match self.envs[i].table.get(name.as_str()) {
                Some(d) => {
                    return Some(*d);
                },
                None => (),
            }
        }
        None
    }

    /// The method whose body the walk is in: that of the innermost method
    /// environment.
    pub fn get_current_scope_method_decl(&self) -> (res: Option<MethodDecl>)
        ensures
            res == self@.current_method(),
    {
        let mut i: usize = self.envs.len();
        while i > 0
            invariant
                i <= self.envs.len(),
                self@.current_method() == method_below(self@.envs, i as int),
            decreases i,
        {
            i = i - 1;
            match self.envs[i].type_ {
                EnvType::Method(m) => {
                    return Some(m);
                },
                _ => (),
            }
        }
        None
    }

    /// The method declared under `name`.
    pub fn find_method_decl(&self, name: &String) -> (res: Option<MethodDecl>)
        ensures
            res == self@.find_method(name@),
    {
        match self.methods.get(name.as_str()) {
            Some(m) => Some(*m),
            None => None,
        }
    }

    /// The loop whose body the walk is in: that of the innermost loop
    /// environment.
    pub fn find_for(&self) -> (res: Option<For>)
        ensures
            res == self@.current_for(),
    {
        let mut i: usize = self.envs.len();
        while i > 0
            invariant
                i <= self.envs.len(),
                self@.current_for() == for_below(self@.envs, i as int),
            decreases i,
        {
            i = i - 1;
            match self.envs[i].type_ {
                EnvType::For(f) => {
                    return Some(f);
                },
                _ => (),
            }
        }
        None
    }
}

/// A scope that was entered and has to be left again. It is made by
/// [`EnvContext::new`], which pushes the environment, and given up to
/// [`EnvContext::leave`], which pops it; with kind `NoEnv` neither
/// touches the stack.
pub struct EnvContext {
    t: EnvType,
}

impl EnvContext {
    pub closed spec fn kind(&self) -> EnvType {
        self.t
    }

    pub fn new(envs: &mut EnvStack, t: EnvType) -> (res: Self)
        ensures
            res.kind() == t,
            final(envs)@ == old(envs)@.enter(t),
    {
        match t {
            EnvType::NoEnv => (),
            _ => {
                envs.push(t);
            },
        }
        Self { t }
    }

    /// Leaves the scope this context stands for.
    pub fn leave(self, envs: &mut EnvStack)
        ensures
            final(envs)@ == old(envs)@.leave(self.kind()),
    {
        match self.t {
            EnvType::NoEnv => (),
            _ => {
                envs.pop();
            },
        }
    }

    pub fn add_var(&self, envs: &mut EnvStack, name: &String, f: &VarDecl) -> (res: Result<
        (),
        EnvError,
    >)
        requires
            old(envs)@.envs.len() > 0,
        ensures
            final(envs)@ == old(envs)@.bind_var(name@, *f),
            res == if old(envs)@.envs.last().table.contains_key(name@) {
                Err::<(), EnvError>(EnvError::DuplicatedVar(old(envs)@.envs.last().table[name@]))
            } else {
                Ok::<(), EnvError>(())
            },
    {
        envs.add_var(name, f)
    }

    pub fn add_method(&self, envs: &mut EnvStack, name: &String, m: &MethodDecl) -> (res: Result<
        (),
        EnvError,
    >)
        ensures
            final(envs)@ == old(envs)@.bind_method(name@, *m),
            res == if old(envs)@.methods.contains_key(name@) {
                Err::<(), EnvError>(EnvError::DuplicatedMethod(old(envs)@.methods[name@]))
            } else {
                Ok::<(), EnvError>(())
            },
    {
        envs.add_method(name, m)
    }

    pub fn find_var_decl(&self, envs: &EnvStack, name: &String) -> (res: Option<VarDecl>)
        ensures
            res == envs@.find_var(name@),
    {
        envs.find_var_decl(name)
    }

    pub fn get_current_scope_method_decl(&self, envs: &EnvStack) -> (res: Option<MethodDecl>)
        ensures
            res == envs@.current_method(),
    {
        envs.get_current_scope_method_decl()
    }

    pub fn find_method_decl(&self, envs: &EnvStack, name: &String) -> (res: Option<MethodDecl>)
        ensures
            res == envs@.find_method(name@),
    {
        envs.find_method_decl(name)
    }

    pub fn find_for(&self, envs: &EnvStack) -> (res: Option<For>)
        ensures
            res == envs@.current_for(),
    {
        envs.find_for()
    }
}

} // verus!
