//! The typing rules of Decaf, stated on the syntax tree.
//!
//! A [`TypeEnv`] says what the names visible at one point of the program
//! stand for. Over it, [`expr_type`] gives the type of an expression and
//! the `*_errors` functions give, in the order of a left-to-right,
//! depth-first walk, the diagnostics that a construct earns.
//! [`program_errors`] is the whole judgement: a program is accepted
//! exactly when it is empty.

use super::ir::{AssignOp, BinaryOp, Type};
use super::passes::pre_ir_check::{array_sizes_positive, spec_has_main};
use super::passes::Diagnostic;
use crate::token;
use vstd::prelude::*;

verus! {

/// What a visible variable is: its type, and whether it is an array.
pub struct VarSig {
    pub type_: Type,
    pub is_array: bool,
}

/// What a declared method is: its return type and the types of its
/// arguments.
pub struct MethodSig {
    pub return_type: Type,
    pub args: Seq<Type>,
}

/// One declared name with what was declared of it.
pub struct Declared {
    pub type_: Type,
    pub name: Seq<char>,
    pub arr_size: Option<i32>,
}

impl Declared {
    pub open spec fn sig(self) -> VarSig {
        VarSig { type_: self.type_, is_array: self.arr_size is Some }
    }
}

/// The names visible at one point of a program.
pub struct TypeEnv {
    /// Every visible variable; an inner declaration hides an outer one.
    pub vars: Map<Seq<char>, VarSig>,
    /// The names declared in the innermost scope.
    pub local: Set<Seq<char>>,
    /// The methods declared so far.
    pub methods: Map<Seq<char>, MethodSig>,
    /// The return type of the enclosing method.
    pub return_type: Type,
    /// Whether a loop encloses this point.
    pub in_for: bool,
}

impl TypeEnv {
    /// Nothing declared, outside every method and loop.
    pub open spec fn empty() -> Self {
        TypeEnv {
            vars: Map::empty(),
            local: Set::empty(),
            methods: Map::empty(),
            return_type: Type::Void,
            in_for: false,
        }
    }

    /// The environment just inside a new scope.
    pub open spec fn enter(self) -> Self {
        TypeEnv { local: Set::empty(), ..self }
    }

    /// The environment after one declaration in the innermost scope. A
    /// second declaration of a name takes the place of the first.
    pub open spec fn declare(self, d: Declared) -> Self {
        TypeEnv {
            vars: self.vars.insert(d.name, d.sig()),
            local: self.local.insert(d.name),
            ..self
        }
    }

    /// The environment after the declarations `ds`, in order.
    pub open spec fn declare_all(self, ds: Seq<Declared>) -> Self
        decreases ds.len(),
    {
        if ds.len() == 0 {
            self
        } else {
            self.declare_all(ds.drop_last()).declare(ds.last())
        }
    }

    /// The environment after a method was declared under `name`.
    pub open spec fn bind_method(self, name: Seq<char>, sig: MethodSig) -> Self {
        TypeEnv { methods: self.methods.insert(name, sig), ..self }
    }

    /// The environment of a loop's body: a new scope that holds the index
    /// variable, an integer.
    pub open spec fn enter_for(self, index: Seq<char>) -> Self {
        TypeEnv {
            in_for: true,
            ..self.enter().declare(Declared { type_: Type::Int, name: index, arr_size: None })
        }
    }

    /// The environment of a method's body: a new scope that holds the
    /// arguments, with the method itself already declared.
    pub open spec fn enter_method(self, m: token::MethodDecl) -> Self {
        TypeEnv {
            return_type: Type::spec_from(m.return_type),
            ..self.enter().declare_all(arg_items(m.args@)).bind_method(m.name@, method_sig(m))
        }
    }
}

/// The names that one line of local declarations declares.
pub open spec fn line_items(d: token::VarDecl) -> Seq<Declared> {
    Seq::new(
        d.identifiers@.len(),
        |j: int|
            Declared { type_: Type::spec_from(d.type_), name: d.identifiers@[j]@, arr_size: None },
    )
}

/// The names that the lines `decls` declare, in order.
pub open spec fn var_items(decls: Seq<token::VarDecl>) -> Seq<Declared>
    decreases decls.len(),
{
    if decls.len() == 0 {
        Seq::empty()
    } else {
        var_items(decls.drop_last()) + line_items(decls.last())
    }
}

/// The fields that one line of field declarations declares.
pub open spec fn field_line_items(d: token::FieldDecl) -> Seq<Declared> {
    Seq::new(
        d.loc@.len(),
        |j: int|
            Declared {
                type_: Type::spec_from(d.type_),
                name: d.loc@[j].name@,
                arr_size: d.loc@[j].arr_size,
            },
    )
}

/// The fields that the lines `decls` declare, in order.
pub open spec fn field_items(decls: Seq<token::FieldDecl>) -> Seq<Declared>
    decreases decls.len(),
{
    if decls.len() == 0 {
        Seq::empty()
    } else {
        field_items(decls.drop_last()) + field_line_items(decls.last())
    }
}

/// The arguments of a method as declarations. An argument is never an
/// array.
pub open spec fn arg_items(args: Seq<token::MethodArg>) -> Seq<Declared> {
    Seq::new(
        args.len(),
        |j: int|
            Declared { type_: Type::spec_from(args[j].type_), name: args[j].name@, arr_size: None },
    )
}

pub open spec fn method_sig(m: token::MethodDecl) -> MethodSig {
    MethodSig {
        return_type: Type::spec_from(m.return_type),
        args: Seq::new(m.args@.len(), |j: int| Type::spec_from(m.args@[j].type_)),
    }
}

/// One `DuplicatedSymbol` for each of `ds` whose name the innermost scope
/// of `env`, or an earlier one of `ds`, has declared already.
pub open spec fn declare_errors(env: TypeEnv, ds: Seq<Declared>) -> Seq<Diagnostic>
    decreases ds.len(),
{
    if ds.len() == 0 {
        Seq::empty()
    } else {
        declare_errors(env, ds.drop_last()) + if env.declare_all(ds.drop_last()).local.contains(
            ds.last().name,
        ) {
            seq![Diagnostic::DuplicatedSymbol(ds.last().name)]
        } else {
            Seq::empty()
        }
    }
}

pub open spec fn msg_bare_array() -> Seq<char> {
    "location does not have offset, but delc is an array"@
}

pub open spec fn msg_unary() -> Seq<char> {
    "unary op is not supported"@
}

pub open spec fn msg_binary_sides() -> Seq<char> {
    "binary lhs rhs type is not matched"@
}

pub open spec fn msg_binary_op() -> Seq<char> {
    "binary op is not supported"@
}

pub open spec fn msg_assign() -> Seq<char> {
    "assign type not match"@
}

pub open spec fn msg_compound_assign() -> Seq<char> {
    "non-int assign"@
}

pub open spec fn msg_condition() -> Seq<char> {
    "Early return"@
}

/// A character of the ASCII range.
pub open spec fn is_ascii_char(c: char) -> bool {
    (c as u32) < 128
}

pub open spec fn literal_errors(l: token::Literal) -> Seq<Diagnostic> {
    match l {
        token::Literal::Char(c) if !is_ascii_char(c) => seq![Diagnostic::NonAsciiCharLiteral(c)],
        _ => Seq::empty(),
    }
}

pub open spec fn literal_type(l: token::Literal) -> Type {
    match l {
        token::Literal::Bool(_) => Type::Bool,
        _ => Type::Int,
    }
}

/// Whether a unary operator takes an operand of type `t`.
pub open spec fn unary_takes(op: token::UnaryOp, t: Type) -> bool {
    match op {
        token::UnaryOp::NegInt => t == Type::Int,
        token::UnaryOp::NegBool => t == Type::Bool,
    }
}

/// Whether a binary operator takes two operands of type `t`: integers
/// for arithmetic and ordering, booleans for `&&` and `||`, anything for
/// `==` and `!=`.
pub open spec fn binary_takes(op: BinaryOp, t: Type) -> bool {
    match op {
        BinaryOp::EQ | BinaryOp::NE => true,
        BinaryOp::Or | BinaryOp::And => t == Type::Bool,
        _ => t == Type::Int,
    }
}

/// The type of an expression that earned no diagnostic.
pub open spec fn expr_type(env: TypeEnv, e: token::Expr0) -> Type {
    match e {
        token::Expr0::Location(l) => env.vars[l.name@].type_,
        token::Expr0::MethodCall(token::MethodCall::Method(m)) => env.methods[m.name@].return_type,
        token::Expr0::MethodCall(token::MethodCall::Callout(_)) => Type::Int,
        token::Expr0::Literal(l) => literal_type(l),
        token::Expr0::Unary(u) => match u.op {
            token::UnaryOp::NegInt => Type::Int,
            token::UnaryOp::NegBool => Type::Bool,
        },
        token::Expr0::Binary(b) => BinaryOp::spec_from(b.op).return_type(),
    }
}

/// The types of the expressions `args`, in order.
pub open spec fn exprs_types(env: TypeEnv, args: Seq<token::Expr>) -> Seq<Type> {
    Seq::new(args.len(), |i: int| expr_type(env, *args[i]))
}

/// The diagnostics of a use of a variable.
pub open spec fn location_errors(env: TypeEnv, l: token::Location) -> Seq<Diagnostic>
    decreases l, 0nat,
{
    if !env.vars.contains_key(l.name@) {
        seq![Diagnostic::UnknownSymbol(l.name@)]
    } else {
        match l.arr_size {
            Some(index) => {
                let inner = expr_errors(env, *index);
                if inner.len() > 0 {
                    inner
                } else {
                    (if env.vars[l.name@].is_array {
                        Seq::empty()
                    } else {
                        seq![Diagnostic::ArrayLocationOnNonArrayVar]
                    }) + (if expr_type(env, *index) == Type::Int {
                        Seq::empty()
                    } else {
                        seq![Diagnostic::ArrayLocationOffsetTypeError]
                    })
                }
            },
            None => if env.vars[l.name@].is_array {
                seq![Diagnostic::TypeMismatch(msg_bare_array())]
            } else {
                Seq::empty()
            },
        }
    }
}

/// The diagnostics of the first of `args`, from the `i`-th on, that earns
/// any.
pub open spec fn first_failing(env: TypeEnv, args: Seq<token::Expr>, i: int) -> Seq<Diagnostic>
    decreases args, args.len() - i,
{
    if i < 0 || i >= args.len() {
        Seq::empty()
    } else {
        let here = expr_errors(env, *args[i]);
        if here.len() > 0 {
            here
        } else {
            first_failing(env, args, i + 1)
        }
    }
}

pub open spec fn callout_arg_errors(env: TypeEnv, a: token::CalloutArg) -> Seq<Diagnostic>
    decreases a, 0nat,
{
    match a {
        token::CalloutArg::Expr(e) => expr_errors(env, *e),
        token::CalloutArg::StringLiteral(_) => Seq::empty(),
    }
}

/// The diagnostics of the first of the callout arguments `args`, from the
/// `i`-th on, that earns any.
pub open spec fn first_failing_arg(env: TypeEnv, args: Seq<token::CalloutArg>, i: int) -> Seq<
    Diagnostic,
>
    decreases args, args.len() - i,
{
    if i < 0 || i >= args.len() {
        Seq::empty()
    } else {
        let here = callout_arg_errors(env, args[i]);
        if here.len() > 0 {
            here
        } else {
            first_failing_arg(env, args, i + 1)
        }
    }
}

/// The diagnostics of a call of a declared method.
pub open spec fn method_errors(env: TypeEnv, m: token::Method) -> Seq<Diagnostic>
    decreases m, 0nat,
{
    if !env.methods.contains_key(m.name@) {
        seq![Diagnostic::UnknownSymbol(m.name@)]
    } else {
        let inner = first_failing(env, m.args@, 0);
        if inner.len() > 0 {
            inner
        } else if exprs_types(env, m.args@) != env.methods[m.name@].args {
            seq![Diagnostic::MethodArgumentNotMatch]
        } else {
            Seq::empty()
        }
    }
}

/// The diagnostics of a call, of a method or of a callout.
pub open spec fn call_errors(env: TypeEnv, c: token::MethodCall) -> Seq<Diagnostic>
    decreases c, 0nat,
{
    match c {
        token::MethodCall::Method(m) => method_errors(env, m),
        token::MethodCall::Callout(c) => first_failing_arg(env, c.args@, 0),
    }
}

/// The diagnostics of an expression.
pub open spec fn expr_errors(env: TypeEnv, e: token::Expr0) -> Seq<Diagnostic>
    decreases e, 0nat,
{
    match e {
        token::Expr0::Location(l) => location_errors(env, l),
        token::Expr0::MethodCall(c) => {
            let inner = call_errors(env, c);
            if inner.len() > 0 {
                inner
            } else if expr_type(env, e) == Type::Void {
                seq![Diagnostic::ExprCallNoReturn]
            } else {
                Seq::empty()
            }
        },
        token::Expr0::Literal(l) => literal_errors(l),
        token::Expr0::Unary(u) => {
            let inner = expr_errors(env, *u.expr);
            if inner.len() > 0 {
                inner
            } else if !unary_takes(u.op, expr_type(env, *u.expr)) {
                seq![Diagnostic::TypeMismatch(msg_unary())]
            } else {
                Seq::empty()
            }
        },
        token::Expr0::Binary(b) => {
            let inner = expr_errors(env, *b.lhs) + expr_errors(env, *b.rhs);
            if inner.len() > 0 {
                inner
            } else if expr_type(env, *b.lhs) != expr_type(env, *b.rhs) {
                seq![Diagnostic::TypeMismatch(msg_binary_sides())]
            } else if !binary_takes(BinaryOp::spec_from(b.op), expr_type(env, *b.lhs)) {
                seq![Diagnostic::TypeMismatch(msg_binary_op())]
            } else {
                Seq::empty()
            }
        },
    }
}

/// The diagnostics of an assignment.
pub open spec fn assign_errors(env: TypeEnv, a: token::Assign) -> Seq<Diagnostic> {
    let inner = location_errors(env, a.dst) + expr_errors(env, *a.val);
    if inner.len() > 0 {
        inner
    } else if env.vars[a.dst.name@].type_ != expr_type(env, *a.val) {
        seq![Diagnostic::TypeMismatch(msg_assign())]
    } else if AssignOp::spec_from(a.op) != AssignOp::Assign && env.vars[a.dst.name@].type_
        != Type::Int {
        seq![Diagnostic::TypeMismatch(msg_compound_assign())]
    } else {
        Seq::empty()
    }
}

/// The diagnostics of a `return`.
pub open spec fn return_errors(env: TypeEnv, r: token::Return) -> Seq<Diagnostic> {
    match r.val {
        Some(e) => {
            let inner = expr_errors(env, *e);
            if inner.len() > 0 {
                inner
            } else if env.return_type != Type::Void && env.return_type == expr_type(env, *e) {
                Seq::empty()
            } else {
                seq![Diagnostic::ReturnTypeMismatch]
            }
        },
        None => if env.return_type == Type::Void {
            Seq::empty()
        } else {
            seq![Diagnostic::ReturnTypeMismatch]
        },
    }
}

pub open spec fn break_errors(env: TypeEnv) -> Seq<Diagnostic> {
    if env.in_for {
        Seq::empty()
    } else {
        seq![Diagnostic::BreakOutOfForScope]
    }
}

pub open spec fn continue_errors(env: TypeEnv) -> Seq<Diagnostic> {
    if env.in_for {
        Seq::empty()
    } else {
        seq![Diagnostic::ContinueOutOfForScope]
    }
}

/// The diagnostics of an expression that has to be of type `t`: its own,
/// or a `TypeMismatch` where it has another type.
pub open spec fn typed_expr_errors(env: TypeEnv, e: token::Expr0, t: Type) -> Seq<Diagnostic> {
    let inner = expr_errors(env, e);
    if inner.len() > 0 {
        inner
    } else if expr_type(env, e) != t {
        seq![Diagnostic::TypeMismatch(msg_condition())]
    } else {
        Seq::empty()
    }
}

/// The diagnostics of a conditional: those of the condition, else those
/// of the first arm, else those of the second.
pub open spec fn ifelse_errors(env: TypeEnv, s: token::IfElse) -> Seq<Diagnostic>
    decreases s, 0nat,
{
    let cond = typed_expr_errors(env, *s.cond, Type::Bool);
    if cond.len() > 0 {
        cond
    } else {
        let first = block_errors(env.enter(), s.true_block);
        if first.len() > 0 {
            first
        } else {
            match s.false_block {
                Some(b) => block_errors(env.enter(), b),
                None => Seq::empty(),
            }
        }
    }
}

/// The diagnostics of a loop: those of the first bound, else those of
/// the second, else those of the body.
pub open spec fn for_errors(env: TypeEnv, s: token::Loop) -> Seq<Diagnostic>
    decreases s, 0nat,
{
    let start = typed_expr_errors(env, *s.start, Type::Int);
    if start.len() > 0 {
        start
    } else {
        let end = typed_expr_errors(env, *s.end, Type::Int);
        if end.len() > 0 {
            end
        } else {
            block_errors(env.enter_for(s.index_var@), s.block)
        }
    }
}

/// The diagnostics of a statement.
pub open spec fn stmt_errors(env: TypeEnv, s: token::Statement) -> Seq<Diagnostic>
    decreases s, 0nat,
{
    match s {
        token::Statement::Assign(a) => assign_errors(env, a),
        token::Statement::MethodCall(c) => call_errors(env, c),
        token::Statement::IfElse(i) => ifelse_errors(env, i),
        token::Statement::Loop(l) => for_errors(env, l),
        token::Statement::Return(r) => return_errors(env, r),
        token::Statement::Break => break_errors(env),
        token::Statement::Continue => continue_errors(env),
        token::Statement::Block(b) => block_errors(env.enter(), b),
    }
}

/// The diagnostics of the first `n` of the statements `ss`, one after the
/// other.
pub open spec fn stmts_errors(env: TypeEnv, ss: Seq<token::Statement>, n: int) -> Seq<Diagnostic>
    decreases ss, n,
{
    if n <= 0 || n > ss.len() {
        Seq::empty()
    } else {
        stmts_errors(env, ss, n - 1) + stmt_errors(env, ss[n - 1])
    }
}

/// The diagnostics of a block whose scope `env` is: those of its
/// declarations, then those of its statements.
pub open spec fn block_errors(env: TypeEnv, b: token::Block) -> Seq<Diagnostic>
    decreases b, 0nat,
{
    declare_errors(env, var_items(b.var_decls@)) + stmts_errors(
        env.declare_all(var_items(b.var_decls@)),
        b.statements@,
        b.statements@.len() as int,
    )
}

/// The diagnostics of a method declaration: a `DuplicatedSymbol` where
/// the name is taken, then those of the body.
pub open spec fn method_decl_errors(env: TypeEnv, m: token::MethodDecl) -> Seq<Diagnostic> {
    (if env.methods.contains_key(m.name@) {
        seq![Diagnostic::DuplicatedSymbol(m.name@)]
    } else {
        Seq::empty()
    }) + block_errors(env.enter_method(m), m.block)
}

/// The environment after the first `n` of the methods `ms` were declared.
pub open spec fn methods_env(env: TypeEnv, ms: Seq<token::MethodDecl>, n: int) -> TypeEnv
    decreases n,
{
    if n <= 0 {
        env
    } else {
        methods_env(env, ms, n - 1).bind_method(ms[n - 1].name@, method_sig(ms[n - 1]))
    }
}

/// The diagnostics of the first `n` of the methods `ms`, each seeing the
/// methods declared before it and itself.
pub open spec fn method_decls_errors(env: TypeEnv, ms: Seq<token::MethodDecl>, n: int) -> Seq<
    Diagnostic,
>
    decreases n,
{
    if n <= 0 {
        Seq::empty()
    } else {
        method_decls_errors(env, ms, n - 1) + method_decl_errors(
            methods_env(env, ms, n - 1),
            ms[n - 1],
        )
    }
}

/// The environment of the class body: the global scope with every field
/// declared.
pub open spec fn class_env(p: token::Program) -> TypeEnv {
    TypeEnv::empty().declare_all(field_items(p.field_decls@))
}

/// The diagnostics of building the program: those of the fields, then
/// those of the methods.
pub open spec fn build_errors(p: token::Program) -> Seq<Diagnostic> {
    declare_errors(TypeEnv::empty(), field_items(p.field_decls@)) + method_decls_errors(
        class_env(p),
        p.method_decls@,
        p.method_decls@.len() as int,
    )
}

/// The diagnostics of the checks that run before any typing.
pub open spec fn pre_check_errors(p: token::Program) -> Seq<Diagnostic> {
    (if spec_has_main(p) {
        Seq::empty()
    } else {
        seq![Diagnostic::NoMainMethod]
    }) + (if array_sizes_positive(p) {
        Seq::empty()
    } else {
        seq![Diagnostic::NonPositiveArraySize]
    })
}

/// Everything that is wrong with a program: what the checks before typing
/// find, or, where they find nothing, what building finds.
pub open spec fn program_errors(p: token::Program) -> Seq<Diagnostic> {
    if pre_check_errors(p).len() > 0 {
        pre_check_errors(p)
    } else {
        build_errors(p)
    }
}

/// Declarations touch only the variables: two environments with the
/// same variables have the same after the same declarations, and
/// everything else stays as it is.
pub proof fn lemma_declare_all_frame(a: TypeEnv, b: TypeEnv, items: Seq<Declared>)
    requires
        a.vars == b.vars,
        a.local == b.local,
    ensures
        a.declare_all(items).vars == b.declare_all(items).vars,
        a.declare_all(items).local == b.declare_all(items).local,
        a.declare_all(items).methods == a.methods,
        a.declare_all(items).return_type == a.return_type,
        a.declare_all(items).in_for == a.in_for,
    decreases items.len(),
{
    if items.len() > 0 {
        lemma_declare_all_frame(a, b, items.drop_last());
    }
}

/// A local variable is never an array.
pub proof fn lemma_var_items_not_arrays(decls: Seq<token::VarDecl>, k: int)
    requires
        0 <= k < var_items(decls).len(),
    ensures
        var_items(decls)[k].arr_size is None,
    decreases decls.len(),
{
    if decls.len() > 0 {
        if k < var_items(decls.drop_last()).len() {
            lemma_var_items_not_arrays(decls.drop_last(), k);
        }
    }
}

} // verus!
