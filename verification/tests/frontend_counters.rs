#![allow(unused_imports)]

use lib::cli::{extract_imports, parse_code};
use lib::diag::{DiagLoc, DiagSink, Diagnostic, ErrorCode, FileId, Severity, Span, SubDiag};
use lib::frontend::ast::printer::{print_module, ty, PrintOpts};
use lib::frontend::ast::visitor::{walk_expr, walk_item, walk_module, walk_stmt, Visitor};
use lib::frontend::ast::{
    Arm, Expr, Field, Func, Item, Module, Param, Pattern, Stmt, StructDef, TypeExpr, UnionDef,
    UsePath, Variant,
};
use lib::frontend::counters::FrontendCounters;
use lib::frontend::escape::{BindingInfo, BindingKind, EscapeChecker, EscapeContext, OwnershipState};
use lib::frontend::lexer::{classify_comment, is_keyword, tokenize, CommentKind, Token, TokenKind, KEYWORDS};
use lib::frontend::parser::decl::{item_shape, ItemShape};
use lib::frontend::parser::expr::binding_power;
use lib::frontend::parser::stmt::{bind_kind, is_jump_keyword, BindKind};
use lib::frontend::parser::{parse, Parser};
use lib::frontend::resolve::module::{emit_circular_dependency, emit_undefined_module, Import, ModuleId, ModuleInfo, ModuleRegistry};
use lib::frontend::resolve::path::{PathError, PathResolver};
use lib::frontend::resolve::scope::{emit_redefinition_error, Scope, ScopeStack};
use lib::frontend::resolve::symbols::{Symbol, SymbolId, SymbolKind, SymbolTable};
use lib::frontend::resolve::Resolver;
use lib::frontend::typecheck::{Type, TypeChecker, TypeContext};
use lib::ice::{format_ice, FixedBuf, ISSUE_HINT, VERSION};
use lib::ExitCode;

#[test]
fn empty_module_counts_zero_items_and_exprs() {
    let mut sink = DiagSink::new();
    let tokens = tokenize(FileId(0), "", &mut sink);
    let module = parse(FileId(0), tokens.clone(), &mut sink);
    let counters = FrontendCounters::from_outputs(&tokens, &module, 0, 0);

    assert_eq!(counters.items_parsed, 0);
    assert_eq!(counters.expr_nodes, 0);
}

#[test]
fn simple_function_counts_one_item() {
    let mut sink = DiagSink::new();
    let source = "f :: () i32 => 42";
    let tokens = tokenize(FileId(0), source, &mut sink);
    let module = parse(FileId(0), tokens.clone(), &mut sink);
    let counters = FrontendCounters::from_outputs(&tokens, &module, 0, 0);

    assert_eq!(counters.items_parsed, 1);
}

#[test]
fn function_body_counts_as_one_expr() {
    let mut sink = DiagSink::new();
    let source = "f :: () i32 => 42";
    let tokens = tokenize(FileId(0), source, &mut sink);
    let module = parse(FileId(0), tokens.clone(), &mut sink);
    let counters = FrontendCounters::from_outputs(&tokens, &module, 0, 0);

    assert_eq!(counters.expr_nodes, 2);
}

#[test]
fn binary_expr_counts_three_nodes() {
    let mut sink = DiagSink::new();
    let source = "f :: () i32 => 1 + 2";
    let tokens = tokenize(FileId(0), source, &mut sink);
    let module = parse(FileId(0), tokens.clone(), &mut sink);
    let counters = FrontendCounters::from_outputs(&tokens, &module, 0, 0);

    assert_eq!(counters.expr_nodes, 4);
}

#[test]
fn block_with_multiple_stmts_counts_each_expr() {
    let mut sink = DiagSink::new();
    let source = "f :: () void => { x := 1; y := 2 }";
    let tokens = tokenize(FileId(0), source, &mut sink);
    let module = parse(FileId(0), tokens.clone(), &mut sink);
    let counters = FrontendCounters::from_outputs(&tokens, &module, 0, 0);

    assert!(counters.expr_nodes >= 3);
}

#[test]
fn struct_and_union_count_zero_exprs() {
    let mut sink = DiagSink::new();
    let source = "S :: { x i32 }\nU :: .{ A | B }";
    let tokens = tokenize(FileId(0), source, &mut sink);
    let module = parse(FileId(0), tokens.clone(), &mut sink);
    let counters = FrontendCounters::from_outputs(&tokens, &module, 0, 0);

    assert_eq!(counters.items_parsed, 2);
    assert_eq!(counters.expr_nodes, 0);
}

#[test]
fn diags_counted_correctly() {
    let mut sink = DiagSink::new();
    let tokens = tokenize(FileId(0), "", &mut sink);
    let module = parse(FileId(0), tokens.clone(), &mut sink);
    let counters = FrontendCounters::from_outputs(&tokens, &module, 3, 2);

    assert_eq!(counters.diags_emitted, 5);
}

#[test]
fn tokens_include_eof() {
    let mut sink = DiagSink::new();
    let source = "x";
    let tokens = tokenize(FileId(0), source, &mut sink);
    let module = parse(FileId(0), tokens.clone(), &mut sink);
    let counters = FrontendCounters::from_outputs(&tokens, &module, 0, 0);

    assert!(counters.tokens_produced >= 2);
}

#[test]
fn nested_binary_counts_all_levels() {
    let mut sink = DiagSink::new();
    let source = "f :: () i32 => 1 + 2 * 3";
    let tokens = tokenize(FileId(0), source, &mut sink);
    let module = parse(FileId(0), tokens.clone(), &mut sink);
    let counters = FrontendCounters::from_outputs(&tokens, &module, 0, 0);

    assert_eq!(counters.expr_nodes, 6);
}

#[test]
fn call_with_args_counts_callee_and_args() {
    let mut sink = DiagSink::new();
    let source = "f :: () i32 => g(1, 2)";
    let tokens = tokenize(FileId(0), source, &mut sink);
    let module = parse(FileId(0), tokens.clone(), &mut sink);
    let counters = FrontendCounters::from_outputs(&tokens, &module, 0, 0);

    assert!(counters.expr_nodes >= 4);
}

#[test]
fn loop_with_subject_counts_both() {
    let mut sink = DiagSink::new();
    let source = "f :: () void => @ cond { skip }";
    let tokens = tokenize(FileId(0), source, &mut sink);
    let module = parse(FileId(0), tokens.clone(), &mut sink);
    let counters = FrontendCounters::from_outputs(&tokens, &module, 0, 0);

    assert!(counters.expr_nodes >= 3);
}

#[test]
fn branch_arms_all_counted() {
    let mut sink = DiagSink::new();
    let source = "f :: (x i32) i32 => ? { x => 10 | y => 20 | _ => 0 }";
    let tokens = tokenize(FileId(0), source, &mut sink);
    let module = parse(FileId(0), tokens.clone(), &mut sink);
    let counters = FrontendCounters::from_outputs(&tokens, &module, 0, 0);

    assert!(counters.expr_nodes >= 5);
}
