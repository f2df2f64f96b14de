#![allow(unused_imports)]

use lib::cli::{extract_imports, parse_code};
use lib::diag::{DiagLoc, DiagSink, Diagnostic, ErrorCode, FileId, Severity, Span, SubDiag};
use lib::frontend::ast::printer::{print_module, ty, PrintOpts};
use lib::frontend::ast::visitor::{walk_expr, walk_item, walk_module, walk_stmt, Visitor};
use lib::frontend::ast::{
    Arm, Expr, Field, Func, Item, Module, Param, Pattern, Stmt, StructDef, TypeExpr, UnionDef,
    UsePath, Variant,
};
use lib::frontend::counters::FrontendCounters;
use lib::frontend::escape::{BindingInfo, BindingKind, EscapeChecker, EscapeContext, OwnershipState};
use lib::frontend::lexer::{classify_comment, is_keyword, tokenize, CommentKind, Token, TokenKind, KEYWORDS};
use lib::frontend::parser::decl::{item_shape, ItemShape};
use lib::frontend::parser::expr::binding_power;
use lib::frontend::parser::stmt::{bind_kind, is_jump_keyword, BindKind};
use lib::frontend::parser::{parse, Parser};
use lib::frontend::resolve::module::{emit_circular_dependency, emit_undefined_module, Import, ModuleId, ModuleInfo, ModuleRegistry};
use lib::frontend::resolve::path::{PathError, PathResolver};
use lib::frontend::resolve::scope::{emit_redefinition_error, Scope, ScopeStack};
use lib::frontend::resolve::symbols::{Symbol, SymbolId, SymbolKind, SymbolTable};
use lib::frontend::resolve::Resolver;
use lib::frontend::typecheck::{Type, TypeChecker, TypeContext};
use lib::ice::{format_ice, FixedBuf, ISSUE_HINT, VERSION};
use lib::ExitCode;

#[test]
fn scope_insert_and_lookup() {
    let mut scope = Scope::new();
    let id = SymbolId(42);

    assert_eq!(scope.lookup("x"), None);
    assert_eq!(scope.insert("x".to_string(), id), None);
    assert_eq!(scope.lookup("x"), Some(id));
}

#[test]
fn scope_redefinition_detected() {
    let mut scope = Scope::new();
    let id1 = SymbolId(1);
    let id2 = SymbolId(2);

    assert_eq!(scope.insert("x".to_string(), id1), None);
    assert_eq!(scope.insert("x".to_string(), id2), Some(id1));
}

#[test]
fn scope_stack_nested_shadowing() {
    let mut stack = ScopeStack::new();
    let id1 = SymbolId(1);
    let id2 = SymbolId(2);

    // 外层作用域定义 x
    stack.push_scope();
    assert!(stack.define_local("x".to_string(), id1).is_ok());
    assert_eq!(stack.lookup("x"), Some(id1));

    // 内层作用域遮蔽 x
    stack.push_scope();
    assert!(stack.define_local("x".to_string(), id2).is_ok());
    assert_eq!(stack.lookup("x"), Some(id2)); // 内层遮蔽

    // 退出内层作用域
    stack.pop_scope();
    assert_eq!(stack.lookup("x"), Some(id1)); // 恢复外层
}

#[test]
fn scope_stack_same_scope_redefinition() {
    let mut stack = ScopeStack::new();
    let id1 = SymbolId(1);
    let id2 = SymbolId(2);

    stack.push_scope();
    assert!(stack.define_local("x".to_string(), id1).is_ok());
    assert_eq!(stack.define_local("x".to_string(), id2), Err(id1));
}

#[test]
fn scope_stack_module_level_lookup() {
    let mut stack = ScopeStack::new();
    let id_module = SymbolId(10);
    let id_local = SymbolId(20);

    // 模块级定义 foo
    assert!(stack.define_module("foo".to_string(), id_module).is_ok());
    assert_eq!(stack.lookup("foo"), Some(id_module));

    // 局部作用域遮蔽模块级
    stack.push_scope();
    assert!(stack.define_local("foo".to_string(), id_local).is_ok());
    assert_eq!(stack.lookup("foo"), Some(id_local)); // 局部遮蔽

    stack.pop_scope();
    assert_eq!(stack.lookup("foo"), Some(id_module)); // 恢复模块级
}

#[test]
fn scope_stack_lookup_order() {
    let mut stack = ScopeStack::new();
    let id_module = SymbolId(1);
    let id_outer = SymbolId(2);
    let id_inner = SymbolId(3);

    // 1. 模块级定义 x
    assert!(stack.define_module("x".to_string(), id_module).is_ok());

    // 2. 外层局部作用域定义 x
    stack.push_scope();
    assert!(stack.define_local("x".to_string(), id_outer).is_ok());

    // 3. 内层局部作用域定义 x
    stack.push_scope();
    assert!(stack.define_local("x".to_string(), id_inner).is_ok());

    // 查找应返回最内层
    assert_eq!(stack.lookup("x"), Some(id_inner));

    stack.pop_scope();
    assert_eq!(stack.lookup("x"), Some(id_outer));

    stack.pop_scope();
    assert_eq!(stack.lookup("x"), Some(id_module));
}

#[test]
fn scope_stack_depth() {
    let mut stack = ScopeStack::new();
    assert_eq!(stack.depth(), 0);
    assert!(!stack.in_local_scope());

    stack.push_scope();
    assert_eq!(stack.depth(), 1);
    assert!(stack.in_local_scope());

    stack.push_scope();
    assert_eq!(stack.depth(), 2);

    stack.pop_scope();
    assert_eq!(stack.depth(), 1);

    stack.pop_scope();
    assert_eq!(stack.depth(), 0);
    assert!(!stack.in_local_scope());
}

#[test]
fn module_scope_redefinition() {
    let mut stack = ScopeStack::new();
    let id1 = SymbolId(1);
    let id2 = SymbolId(2);

    assert!(stack.define_module("foo".to_string(), id1).is_ok());
    assert_eq!(stack.define_module("foo".to_string(), id2), Err(id1));
}

#[test]
fn lookup_module_ignores_locals() {
    let mut stack = ScopeStack::new();
    let id_module = SymbolId(1);
    let id_local = SymbolId(2);

    stack.define_module("x".to_string(), id_module).unwrap();

    stack.push_scope();
    stack.define_local("x".to_string(), id_local).unwrap();

    // lookup 返回局部
    assert_eq!(stack.lookup("x"), Some(id_local));

    // lookup_module 仅返回模块级
    assert_eq!(stack.lookup_module("x"), Some(id_module));
}

#[test]
fn scope_empty_lookup_returns_none() {
    let scope = Scope::new();
    assert_eq!(scope.lookup("nonexistent"), None);

    let stack = ScopeStack::new();
    assert_eq!(stack.lookup("nonexistent"), None);
    assert_eq!(stack.lookup_module("nonexistent"), None);
}

#[test]
fn scope_stack_multiple_names() {
    let mut stack = ScopeStack::new();

    stack.push_scope();
    assert!(stack.define_local("x".to_string(), SymbolId(1)).is_ok());
    assert!(stack.define_local("y".to_string(), SymbolId(2)).is_ok());
    assert!(stack.define_local("z".to_string(), SymbolId(3)).is_ok());

    assert_eq!(stack.lookup("x"), Some(SymbolId(1)));
    assert_eq!(stack.lookup("y"), Some(SymbolId(2)));
    assert_eq!(stack.lookup("z"), Some(SymbolId(3)));
    assert_eq!(stack.lookup("w"), None);
}
