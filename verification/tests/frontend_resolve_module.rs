#![allow(unused_imports)]

use lib::cli::{extract_imports, parse_code};
use lib::diag::{DiagLoc, DiagSink, Diagnostic, ErrorCode, FileId, Severity, Span, SubDiag};
use lib::frontend::ast::printer::{print_module, ty, PrintOpts};
use lib::frontend::ast::visitor::{walk_expr, walk_item, walk_module, walk_stmt, Visitor};
use lib::frontend::ast::{
    Arm, Expr, Field, Func, Item, Module, Param, Pattern, Stmt, StructDef, TypeExpr, UnionDef,
    UsePath, Variant,
};
use lib::frontend::counters::FrontendCounters;
use lib::frontend::escape::{BindingInfo, BindingKind, EscapeChecker, EscapeContext, OwnershipState};
use lib::frontend::lexer::{classify_comment, is_keyword, tokenize, CommentKind, Token, TokenKind, KEYWORDS};
use lib::frontend::parser::decl::{item_shape, ItemShape};
use lib::frontend::parser::expr::binding_power;
use lib::frontend::parser::stmt::{bind_kind, is_jump_keyword, BindKind};
use lib::frontend::parser::{parse, Parser};
use lib::frontend::resolve::module::{emit_circular_dependency, emit_undefined_module, Import, ModuleId, ModuleInfo, ModuleRegistry};
use lib::frontend::resolve::path::{PathError, PathResolver};
use lib::frontend::resolve::scope::{emit_redefinition_error, Scope, ScopeStack};
use lib::frontend::resolve::symbols::{Symbol, SymbolId, SymbolKind, SymbolTable};
use lib::frontend::resolve::Resolver;
use lib::frontend::typecheck::{Type, TypeChecker, TypeContext};
use lib::ice::{format_ice, FixedBuf, ISSUE_HINT, VERSION};
use lib::ExitCode;

fn make_module(_name: &str) -> Module {
    Module {
        items: Vec::new(),
        span: Span::new(FileId(0), 0, 1),
    }
}

#[test]
fn test_register_module() {
    let mut registry = ModuleRegistry::new();
    let path = String::from("test.kore");
    let ast = make_module("test");

    let id = registry.register_module(path.clone(), "test".into(), ast, Vec::new());
    assert_eq!(id, ModuleId(0));

    // 重复注册返回相同 ID
    let ast2 = make_module("test");
    let id2 = registry.register_module(path.clone(), "test".into(), ast2, Vec::new());
    assert_eq!(id, id2);
}

#[test]
fn test_find_module() {
    let mut registry = ModuleRegistry::new();
    let path = String::from("test.kore");
    let ast = make_module("test");

    let id = registry.register_module(path.clone(), "test".into(), ast, Vec::new());

    assert_eq!(registry.find_module_by_name("test"), Some(id));
    assert_eq!(registry.find_module_by_path(&path), Some(id));
    assert_eq!(registry.find_module_by_name("nonexistent"), None);
}

#[test]
fn test_no_cycle() {
    let mut registry = ModuleRegistry::new();

    let a_id = registry.register_module(
        String::from("a.kore"),
        "a".into(),
        make_module("a"),
        Vec::new(),
    );
    let b_id = registry.register_module(
        String::from("b.kore"),
        "b".into(),
        make_module("b"),
        Vec::new(),
    );

    // a → b
    registry.add_dependency(a_id, b_id);

    assert!(registry.check_cycles().is_ok());
}

#[test]
fn test_detect_cycle() {
    let mut registry = ModuleRegistry::new();

    let a_id = registry.register_module(
        String::from("a.kore"),
        "a".into(),
        make_module("a"),
        Vec::new(),
    );
    let b_id = registry.register_module(
        String::from("b.kore"),
        "b".into(),
        make_module("b"),
        Vec::new(),
    );

    // a → b → a (环)
    registry.add_dependency(a_id, b_id);
    registry.add_dependency(b_id, a_id);

    assert!(registry.check_cycles().is_err());
}

#[test]
fn test_topological_sort() {
    let mut registry = ModuleRegistry::new();

    let a_id = registry.register_module(
        String::from("a.kore"),
        "a".into(),
        make_module("a"),
        Vec::new(),
    );
    let b_id = registry.register_module(
        String::from("b.kore"),
        "b".into(),
        make_module("b"),
        Vec::new(),
    );
    let c_id = registry.register_module(
        String::from("c.kore"),
        "c".into(),
        make_module("c"),
        Vec::new(),
    );

    // a → b → c
    registry.add_dependency(a_id, b_id);
    registry.add_dependency(b_id, c_id);

    let sorted = registry.topological_sort().unwrap();

    // c 应该在 b 前面，b 在 a 前面（被依赖的在前）
    let c_pos = sorted.iter().position(|&id| id == c_id).unwrap();
    let b_pos = sorted.iter().position(|&id| id == b_id).unwrap();
    let a_pos = sorted.iter().position(|&id| id == a_id).unwrap();

    assert!(c_pos < b_pos);
    assert!(b_pos < a_pos);
}
