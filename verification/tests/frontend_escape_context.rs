#![allow(unused_imports)]

use lib::cli::{extract_imports, parse_code};
use lib::diag::{DiagLoc, DiagSink, Diagnostic, ErrorCode, FileId, Severity, Span, SubDiag};
use lib::frontend::ast::printer::{print_module, ty, PrintOpts};
use lib::frontend::ast::visitor::{walk_expr, walk_item, walk_module, walk_stmt, Visitor};
use lib::frontend::ast::{
    Arm, Expr, Field, Func, Item, Module, Param, Pattern, Stmt, StructDef, TypeExpr, UnionDef,
    UsePath, Variant,
};
use lib::frontend::counters::FrontendCounters;
use lib::frontend::escape::{BindingInfo, BindingKind, EscapeChecker, EscapeContext, OwnershipState};
use lib::frontend::lexer::{classify_comment, is_keyword, tokenize, CommentKind, Token, TokenKind, KEYWORDS};
use lib::frontend::parser::decl::{item_shape, ItemShape};
use lib::frontend::parser::expr::binding_power;
use lib::frontend::parser::stmt::{bind_kind, is_jump_keyword, BindKind};
use lib::frontend::parser::{parse, Parser};
use lib::frontend::resolve::module::{emit_circular_dependency, emit_undefined_module, Import, ModuleId, ModuleInfo, ModuleRegistry};
use lib::frontend::resolve::path::{PathError, PathResolver};
use lib::frontend::resolve::scope::{emit_redefinition_error, Scope, ScopeStack};
use lib::frontend::resolve::symbols::{Symbol, SymbolId, SymbolKind, SymbolTable};
use lib::frontend::resolve::Resolver;
use lib::frontend::typecheck::{Type, TypeChecker, TypeContext};
use lib::ice::{format_ice, FixedBuf, ISSUE_HINT, VERSION};
use lib::ExitCode;

fn s() -> Span { Span::new(FileId(0), 0, 0) }

#[test]
fn define_and_lookup() {
    let mut ctx = EscapeContext::new();
    ctx.define("x".into(), BindingInfo::own(0));
    assert!(matches!(ctx.lookup("x").unwrap().kind, BindingKind::Own));
    assert!(ctx.lookup("y").is_none());
}

#[test]
fn mark_moved_transitions_state() {
    let mut ctx = EscapeContext::new();
    ctx.define("x".into(), BindingInfo::own(0));
    ctx.mark_moved("x", s());
    assert!(ctx.lookup("x").unwrap().is_moved());
}

#[test]
fn inner_scope_shadows_outer() {
    let mut ctx = EscapeContext::new();
    ctx.define("x".into(), BindingInfo::own(0));
    ctx.push_scope();
    ctx.define("x".into(), BindingInfo::borrow(1));
    assert_eq!(ctx.lookup("x").unwrap().kind, BindingKind::Borrow);
    ctx.pop_scope();
    assert_eq!(ctx.lookup("x").unwrap().kind, BindingKind::Own);
}

#[test]
fn depth_tracks_scope_nesting() {
    let mut ctx = EscapeContext::new();
    assert_eq!(ctx.depth(), 0);
    ctx.push_scope();
    assert_eq!(ctx.depth(), 1);
    ctx.push_scope();
    assert_eq!(ctx.depth(), 2);
    ctx.pop_scope();
    assert_eq!(ctx.depth(), 1);
}
