#![allow(unused_imports)]

use lib::cli::{extract_imports, parse_code};
use lib::diag::{DiagLoc, DiagSink, Diagnostic, ErrorCode, FileId, Severity, Span, SubDiag};
use lib::frontend::ast::printer::{print_module, ty, PrintOpts};
use lib::frontend::ast::visitor::{walk_expr, walk_item, walk_module, walk_stmt, Visitor};
use lib::frontend::ast::{
    Arm, Expr, Field, Func, Item, Module, Param, Pattern, Stmt, StructDef, TypeExpr, UnionDef,
    UsePath, Variant,
};
use lib::frontend::counters::FrontendCounters;
use lib::frontend::escape::{BindingInfo, BindingKind, EscapeChecker, EscapeContext, OwnershipState};
use lib::frontend::lexer::{classify_comment, is_keyword, tokenize, CommentKind, Token, TokenKind, KEYWORDS};
use lib::frontend::parser::decl::{item_shape, ItemShape};
use lib::frontend::parser::expr::binding_power;
use lib::frontend::parser::stmt::{bind_kind, is_jump_keyword, BindKind};
use lib::frontend::parser::{parse, Parser};
use lib::frontend::resolve::module::{emit_circular_dependency, emit_undefined_module, Import, ModuleId, ModuleInfo, ModuleRegistry};
use lib::frontend::resolve::path::{PathError, PathResolver};
use lib::frontend::resolve::scope::{emit_redefinition_error, Scope, ScopeStack};
use lib::frontend::resolve::symbols::{Symbol, SymbolId, SymbolKind, SymbolTable};
use lib::frontend::resolve::Resolver;
use lib::frontend::typecheck::{Type, TypeChecker, TypeContext};
use lib::ice::{format_ice, FixedBuf, ISSUE_HINT, VERSION};
use lib::ExitCode;

#[test]
fn writes_location_version_and_hint() {
    let b = format_ice("src/frontend/parser.rs:120", "unexpected token in block");
    let s = b.as_str();
    assert!(s.contains("internal compiler error"));
    assert!(s.contains("src/frontend/parser.rs:120"));
    assert!(s.contains(VERSION));
    assert!(s.contains("issues"));
}

#[test]
fn truncates_instead_of_growing() {
    let mut b = FixedBuf::<16>::new();
    b.push_str("0123456789abcdef_overflow");
    assert_eq!(b.len(), 16);
    assert!(b.truncated());
}

#[test]
fn truncation_respects_char_boundary() {
    let mut b = FixedBuf::<8>::new();
    // 每个汉字 3 字节，8 字节放不下第三个，必须切在 6 字节处。
    b.push_str("中文字符");
    assert_eq!(b.len(), 6);
    assert_eq!(b.as_str(), "中文");
}

#[test]
fn push_u32_writes_decimal() {
    let mut b = FixedBuf::<32>::new();
    b.push_u32(0);
    b.push_str(" ");
    b.push_u32(4294967295);
    assert_eq!(b.as_str(), "0 4294967295");
}
