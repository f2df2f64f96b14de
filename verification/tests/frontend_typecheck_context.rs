#![allow(unused_imports)]

use lib::cli::{extract_imports, parse_code};
use lib::diag::{DiagLoc, DiagSink, Diagnostic, ErrorCode, FileId, Severity, Span, SubDiag};
use lib::frontend::ast::printer::{print_module, ty, PrintOpts};
use lib::frontend::ast::visitor::{walk_expr, walk_item, walk_module, walk_stmt, Visitor};
use lib::frontend::ast::{
    Arm, Expr, Field, Func, Item, Module, Param, Pattern, Stmt, StructDef, TypeExpr, UnionDef,
    UsePath, Variant,
};
use lib::frontend::counters::FrontendCounters;
use lib::frontend::escape::{BindingInfo, BindingKind, EscapeChecker, EscapeContext, OwnershipState};
use lib::frontend::lexer::{classify_comment, is_keyword, tokenize, CommentKind, Token, TokenKind, KEYWORDS};
use lib::frontend::parser::decl::{item_shape, ItemShape};
use lib::frontend::parser::expr::binding_power;
use lib::frontend::parser::stmt::{bind_kind, is_jump_keyword, BindKind};
use lib::frontend::parser::{parse, Parser};
use lib::frontend::resolve::module::{emit_circular_dependency, emit_undefined_module, Import, ModuleId, ModuleInfo, ModuleRegistry};
use lib::frontend::resolve::path::{PathError, PathResolver};
use lib::frontend::resolve::scope::{emit_redefinition_error, Scope, ScopeStack};
use lib::frontend::resolve::symbols::{Symbol, SymbolId, SymbolKind, SymbolTable};
use lib::frontend::resolve::Resolver;
use lib::frontend::typecheck::{Type, TypeChecker, TypeContext};
use lib::ice::{format_ice, FixedBuf, ISSUE_HINT, VERSION};
use lib::ExitCode;

#[test]
fn define_and_query_struct() {
    let mut ctx = TypeContext::new();
    ctx.define_struct(
        "Point".to_string(),
        vec![
            ("x".to_string(), Type::i32()),
            ("y".to_string(), Type::i32()),
        ],
    );

    assert!(ctx.get_struct("Point").is_some());
    assert_eq!(ctx.get_struct_field("Point", "x"), Some(Type::i32()));
    assert_eq!(ctx.get_struct_field("Point", "z"), None);
}

#[test]
fn query_nonexistent_struct() {
    let ctx = TypeContext::new();
    assert!(ctx.get_struct("Foo").is_none());
}

#[test]
fn resolve_named_primitives() {
    let ctx = TypeContext::new();
    let mut sink = DiagSink::new();
    let sp = lib::diag::Span::new(FileId(0), 0, 0);

    let cases: &[(&str, Type)] = &[
        ("i32",  Type::i32()),
        ("u64",  Type::u64()),
        ("f64",  Type::float64()),
        ("bool", Type::Bool),
        ("str",  Type::Str),
        ("void", Type::Void),
    ];
    for (name, expected) in cases {
        let te = TypeExpr::Named(name.to_string(), sp);
        assert_eq!(ctx.resolve_type_expr(&te, &mut sink), *expected, "failed for {name}");
    }
}

#[test]
fn resolve_borrow_and_own() {
    let ctx = TypeContext::new();
    let mut sink = DiagSink::new();
    let sp = lib::diag::Span::new(FileId(0), 0, 0);

    let borrow = TypeExpr::Borrow(Box::new(TypeExpr::Named("i32".to_string(), sp)), sp);
    assert_eq!(
        ctx.resolve_type_expr(&borrow, &mut sink),
        Type::Borrow(Box::new(Type::i32()))
    );

    let own = TypeExpr::Own(Box::new(TypeExpr::Named("i32".to_string(), sp)), sp);
    assert_eq!(
        ctx.resolve_type_expr(&own, &mut sink),
        Type::Own(Box::new(Type::i32()))
    );
}

#[test]
fn resolve_array_and_err_union() {
    let ctx = TypeContext::new();
    let mut sink = DiagSink::new();
    let sp = lib::diag::Span::new(FileId(0), 0, 0);

    let arr = TypeExpr::Array(Box::new(TypeExpr::Named("i32".to_string(), sp)), 4, sp);
    assert_eq!(
        ctx.resolve_type_expr(&arr, &mut sink),
        Type::Array { elem: Box::new(Type::i32()), len: 4 }
    );

    let eu = TypeExpr::ErrUnion(
        Box::new(TypeExpr::Named("i32".to_string(), sp)),
        Box::new(TypeExpr::Named("str".to_string(), sp)),
        sp,
    );
    assert_eq!(
        ctx.resolve_type_expr(&eu, &mut sink),
        Type::ErrUnion { ok: Box::new(Type::i32()), err: Box::new(Type::Str) }
    );
}
