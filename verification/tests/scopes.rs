use decafc::semantic_analyzer::env::{EnvContext, EnvError, EnvStack, EnvType};
use decafc::semantic_analyzer::ir::{For, IfElse, MethodDecl, VarDecl};

fn name(s: &str) -> String {
    String::from(s)
}

#[test]
fn innermost_binding_wins() {
    let mut envs = EnvStack::new();
    envs.push(EnvType::Global);
    assert_eq!(envs.add_var(&name("a"), &VarDecl { id: 0 }), Ok(()));
    assert_eq!(envs.add_var(&name("b"), &VarDecl { id: 1 }), Ok(()));
    envs.push(EnvType::Anon);
    assert_eq!(envs.add_var(&name("a"), &VarDecl { id: 2 }), Ok(()));
    assert_eq!(envs.find_var_decl(&name("a")), Some(VarDecl { id: 2 }));
    assert_eq!(envs.find_var_decl(&name("b")), Some(VarDecl { id: 1 }));
    assert_eq!(envs.find_var_decl(&name("c")), None);
    envs.pop();
    assert_eq!(envs.find_var_decl(&name("a")), Some(VarDecl { id: 0 }));
}

#[test]
fn duplicate_hands_back_the_old_declaration_and_replaces_it() {
    let mut envs = EnvStack::new();
    envs.push(EnvType::Global);
    assert_eq!(envs.add_var(&name("a"), &VarDecl { id: 0 }), Ok(()));
    assert_eq!(
        envs.add_var(&name("a"), &VarDecl { id: 1 }),
        Err(EnvError::DuplicatedVar(VarDecl { id: 0 }))
    );
    assert_eq!(envs.find_var_decl(&name("a")), Some(VarDecl { id: 1 }));
}

#[test]
fn methods_live_in_one_table() {
    let mut envs = EnvStack::new();
    assert_eq!(envs.find_method_decl(&name("f")), None);
    assert_eq!(envs.add_method(&name("f"), &MethodDecl { id: 0 }), Ok(()));
    envs.push(EnvType::Global);
    envs.push(EnvType::Method(MethodDecl { id: 0 }));
    assert_eq!(envs.find_method_decl(&name("f")), Some(MethodDecl { id: 0 }));
    assert_eq!(
        envs.add_method(&name("f"), &MethodDecl { id: 1 }),
        Err(EnvError::DuplicatedMethod(MethodDecl { id: 0 }))
    );
    envs.pop();
    envs.pop();
    assert_eq!(envs.find_method_decl(&name("f")), Some(MethodDecl { id: 1 }));
}

#[test]
fn enclosing_method_and_loop() {
    let mut envs = EnvStack::new();
    assert_eq!(envs.get_current_scope_method_decl(), None);
    assert_eq!(envs.find_for(), None);
    envs.push(EnvType::Global);
    envs.push(EnvType::Method(MethodDecl { id: 3 }));
    assert_eq!(envs.get_current_scope_method_decl(), Some(MethodDecl { id: 3 }));
    assert_eq!(envs.find_for(), None);
    envs.push(EnvType::For(For { id: 0 }));
    envs.push(EnvType::If(IfElse { id: 0 }));
    envs.push(EnvType::For(For { id: 1 }));
    envs.push(EnvType::Else(IfElse { id: 1 }));
    assert_eq!(envs.find_for(), Some(For { id: 1 }));
    assert_eq!(envs.get_current_scope_method_decl(), Some(MethodDecl { id: 3 }));
    envs.pop();
    envs.pop();
    assert_eq!(envs.find_for(), Some(For { id: 0 }));
}

#[test]
fn pop_on_an_empty_stack_does_nothing() {
    let mut envs = EnvStack::new();
    envs.pop();
    envs.push(EnvType::Global);
    assert_eq!(envs.add_var(&name("a"), &VarDecl { id: 0 }), Ok(()));
    assert_eq!(envs.find_var_decl(&name("a")), Some(VarDecl { id: 0 }));
}

#[test]
fn context_enters_and_leaves() {
    let mut envs = EnvStack::new();
    let global = EnvContext::new(&mut envs, EnvType::Global);
    assert_eq!(global.add_var(&mut envs, &name("a"), &VarDecl { id: 0 }), Ok(()));
    let inner = EnvContext::new(&mut envs, EnvType::For(For { id: 7 }));
    assert_eq!(inner.add_var(&mut envs, &name("a"), &VarDecl { id: 1 }), Ok(()));
    assert_eq!(inner.find_var_decl(&envs, &name("a")), Some(VarDecl { id: 1 }));
    assert_eq!(inner.find_for(&envs), Some(For { id: 7 }));
    inner.leave(&mut envs);
    assert_eq!(global.find_var_decl(&envs, &name("a")), Some(VarDecl { id: 0 }));
    assert_eq!(global.find_for(&envs), None);
    assert_eq!(global.get_current_scope_method_decl(&envs), None);
    assert_eq!(global.add_method(&mut envs, &name("m"), &MethodDecl { id: 0 }), Ok(()));
    assert_eq!(global.find_method_decl(&envs, &name("m")), Some(MethodDecl { id: 0 }));
    global.leave(&mut envs);
    assert_eq!(envs.find_var_decl(&name("a")), None);
}

#[test]
fn context_without_environment_neither_pushes_nor_pops() {
    let mut envs = EnvStack::new();
    envs.push(EnvType::Global);
    let peek = EnvContext::new(&mut envs, EnvType::NoEnv);
    assert_eq!(peek.add_var(&mut envs, &name("a"), &VarDecl { id: 0 }), Ok(()));
    peek.leave(&mut envs);
    assert_eq!(envs.find_var_decl(&name("a")), Some(VarDecl { id: 0 }));
    assert_eq!(
        envs.add_var(&name("a"), &VarDecl { id: 1 }),
        Err(EnvError::DuplicatedVar(VarDecl { id: 0 }))
    );
}
