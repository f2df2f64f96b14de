#![allow(unused_imports)]

use lib::cli::{extract_imports, parse_code};
use lib::diag::{DiagLoc, DiagSink, Diagnostic, ErrorCode, FileId, Severity, Span, SubDiag};
use lib::frontend::ast::printer::{print_module, ty, PrintOpts};
use lib::frontend::ast::visitor::{walk_expr, walk_item, walk_module, walk_stmt, Visitor};
use lib::frontend::ast::{
    Arm, Expr, Field, Func, Item, Module, Param, Pattern, Stmt, StructDef, TypeExpr, UnionDef,
    UsePath, Variant,
};
use lib::frontend::counters::FrontendCounters;
use lib::frontend::escape::{BindingInfo, BindingKind, EscapeChecker, EscapeContext, OwnershipState};
use lib::frontend::lexer::{classify_comment, is_keyword, tokenize, CommentKind, Token, TokenKind, KEYWORDS};
use lib::frontend::parser::decl::{item_shape, ItemShape};
use lib::frontend::parser::expr::binding_power;
use lib::frontend::parser::stmt::{bind_kind, is_jump_keyword, BindKind};
use lib::frontend::parser::{parse, Parser};
use lib::frontend::resolve::module::{emit_circular_dependency, emit_undefined_module, Import, ModuleId, ModuleInfo, ModuleRegistry};
use lib::frontend::resolve::path::{PathError, PathResolver};
use lib::frontend::resolve::scope::{emit_redefinition_error, Scope, ScopeStack};
use lib::frontend::resolve::symbols::{Symbol, SymbolId, SymbolKind, SymbolTable};
use lib::frontend::resolve::Resolver;
use lib::frontend::typecheck::{Type, TypeChecker, TypeContext};
use lib::ice::{format_ice, FixedBuf, ISSUE_HINT, VERSION};
use lib::ExitCode;

#[test]
fn test_resolve_simple_path() {
    let resolver = PathResolver::new("/project/main.kore");
    let result = resolver.resolve_use_path(&vec!["math".to_string()]).unwrap();
    assert_eq!(result, "/project/math.kore".to_string());
}

#[test]
fn test_resolve_nested_path() {
    let resolver = PathResolver::new("/project/main.kore");
    let result = resolver
        .resolve_use_path(&vec!["std".to_string(), "io".to_string()])
        .unwrap();
    assert_eq!(result, "/project/std/io.kore".to_string());
}

#[test]
fn test_resolve_deep_nested() {
    let resolver = PathResolver::new("/project/src/main.kore");
    let result = resolver
        .resolve_use_path(&vec![
            "a".to_string(),
            "b".to_string(),
            "c".to_string(),
        ])
        .unwrap();
    assert_eq!(result, "/project/src/a/b/c.kore".to_string());
}

#[test]
fn test_empty_path_error() {
    let resolver = PathResolver::new("/project/main.kore");
    let result = resolver.resolve_use_path(&vec![]);
    assert!(matches!(result, Err(PathError::EmptyPath)));
}

#[test]
fn test_current_dir() {
    let resolver = PathResolver::new("/project/src/main.kore");
    assert_eq!(resolver.current_dir(), "/project/src");
}

#[test]
fn test_current_dir_root() {
    let resolver = PathResolver::new("main.kore");
    // "main.kore" 没有父目录，parent() 返回 None，所以变成空字符串
    assert_eq!(resolver.current_dir(), "");
}
