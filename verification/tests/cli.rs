#![allow(unused_imports)]

use lib::cli::{extract_imports, parse_args, parse_code, Action, Options};
use lib::diag::ErrorFormat;
use lib::diag::{DiagLoc, DiagSink, Diagnostic, ErrorCode, FileId, Severity, Span, SubDiag};
use lib::frontend::ast::printer::{print_module, ty, PrintOpts};
use lib::frontend::ast::visitor::{walk_expr, walk_item, walk_module, walk_stmt, Visitor};
use lib::frontend::ast::{
    Arm, Expr, Field, Func, Item, Module, Param, Pattern, Stmt, StructDef, TypeExpr, UnionDef,
    UsePath, Variant,
};
use lib::frontend::counters::FrontendCounters;
use lib::frontend::escape::{BindingInfo, BindingKind, EscapeChecker, EscapeContext, OwnershipState};
use lib::frontend::lexer::{classify_comment, is_keyword, tokenize, CommentKind, Token, TokenKind, KEYWORDS};
use lib::frontend::parser::decl::{item_shape, ItemShape};
use lib::frontend::parser::expr::binding_power;
use lib::frontend::parser::stmt::{bind_kind, is_jump_keyword, BindKind};
use lib::frontend::parser::{parse, Parser};
use lib::frontend::resolve::module::{emit_circular_dependency, emit_undefined_module, Import, ModuleId, ModuleInfo, ModuleRegistry};
use lib::frontend::resolve::path::{PathError, PathResolver};
use lib::frontend::resolve::scope::{emit_redefinition_error, Scope, ScopeStack};
use lib::frontend::resolve::symbols::{Symbol, SymbolId, SymbolKind, SymbolTable};
use lib::frontend::resolve::Resolver;
use lib::frontend::typecheck::{Type, TypeChecker, TypeContext};
use lib::ice::{format_ice, FixedBuf, ISSUE_HINT, VERSION};
use lib::ExitCode;

#[test]
fn parses_error_codes_both_forms() {
    assert_eq!(parse_code("E4001"), Some(4001));
    assert_eq!(parse_code("4001"), Some(4001));
    assert_eq!(parse_code("E"), None);
    assert_eq!(parse_code("abc"), None);
}













#[test]
fn parse_code_lowercase_e_prefix() {
    assert_eq!(parse_code("e4001"), Some(4001));
    assert_eq!(parse_code("e0001"), Some(1));
}

#[test]
fn parse_code_bare_digits() {
    assert_eq!(parse_code("9999"), Some(9999));
    assert_eq!(parse_code("0"), Some(0));
}

#[test]
fn parse_code_rejects_empty_after_prefix() {
    assert_eq!(parse_code("E"), None);
    assert_eq!(parse_code("e"), None);
}

#[test]
fn parse_code_rejects_non_digits() {
    assert_eq!(parse_code("Eabc"), None);
    assert_eq!(parse_code("hello"), None);
    assert_eq!(parse_code(""), None);
}



































#[test]
fn unknown_option_is_usage_error() {
    let args = vec!["--nope".to_string()];
    assert!(matches!(parse_args(&args), Action::Usage(_)));
}

#[test]
fn multi_emit_without_output_is_usage_error() {
    let args = ["--emit=ast", "--emit=ir", "a.kore"]
        .map(String::from)
        .to_vec();
    assert!(matches!(parse_args(&args), Action::Usage(_)));
}

#[test]
fn multi_emit_with_output_is_accepted() {
    let args = ["--emit=ast", "--emit=ir", "-o", "out", "a.kore"]
        .map(String::from)
        .to_vec();
    assert!(matches!(parse_args(&args), Action::Compile(_)));
}

#[test]
fn bad_emit_stage_is_usage_error() {
    let args = ["--emit=hir", "a.kore"].map(String::from).to_vec();
    assert!(matches!(parse_args(&args), Action::Usage(_)));
}

#[test]
fn missing_input_is_usage_error() {
    let args = ["--stats".to_string()].to_vec();
    assert!(matches!(parse_args(&args), Action::Usage(_)));
}

#[test]
fn dash_o_without_path_is_usage_error() {
    let args = vec!["-o".to_string()];
    assert!(matches!(parse_args(&args), Action::Usage(_)));
}

#[test]
fn explain_without_code_is_usage_error() {
    let args = vec!["--explain".to_string()];
    assert!(matches!(parse_args(&args), Action::Usage(_)));
}

#[test]
fn explain_with_invalid_code_is_usage_error() {
    let args = ["--explain", "notacode"].map(String::from).to_vec();
    assert!(matches!(parse_args(&args), Action::Usage(_)));
}

#[test]
fn explain_with_valid_code_is_explain_action() {
    let args = ["--explain", "E4001"].map(String::from).to_vec();
    assert!(matches!(parse_args(&args), Action::Explain(4001)));
}

#[test]
fn error_limit_invalid_is_usage_error() {
    let args = ["--error-limit=abc", "a.kore"].map(String::from).to_vec();
    assert!(matches!(parse_args(&args), Action::Usage(_)));
}

#[test]
fn error_limit_valid_is_compile() {
    let args = ["--error-limit=50", "a.kore"].map(String::from).to_vec();
    assert!(matches!(parse_args(&args), Action::Compile(_)));
}

#[test]
fn error_format_invalid_is_usage_error() {
    let args = ["--error-format=xml", "a.kore"].map(String::from).to_vec();
    assert!(matches!(parse_args(&args), Action::Usage(_)));
}

#[test]
fn error_format_json_is_compile() {
    let args = ["--error-format=json", "a.kore"].map(String::from).to_vec();
    assert!(matches!(parse_args(&args), Action::Compile(_)));
}

#[test]
fn error_format_short_is_compile() {
    let args = ["--error-format=short", "a.kore"].map(String::from).to_vec();
    assert!(matches!(parse_args(&args), Action::Compile(_)));
}

#[test]
fn help_flag_is_help_action() {
    let args = vec!["-h".to_string()];
    assert!(matches!(parse_args(&args), Action::Help));
    let args2 = vec!["--help".to_string()];
    assert!(matches!(parse_args(&args2), Action::Help));
}

#[test]
fn empty_args_is_help() {
    let args: Vec<String> = vec![];
    assert!(matches!(parse_args(&args), Action::Help));
}

#[test]
fn time_passes_and_stats_flags_accepted() {
    let args = ["--time-passes", "--stats", "a.kore"]
        .map(String::from)
        .to_vec();
    assert!(matches!(parse_args(&args), Action::Compile(_)));
}

#[test]
fn emit_spans_flag_accepted() {
    let args = ["--emit-spans", "a.kore"].map(String::from).to_vec();
    assert!(matches!(parse_args(&args), Action::Compile(_)));
}

#[test]
fn verify_test_annotations_flag_accepted() {
    let args = ["--verify-test-annotations", "a.kore"]
        .map(String::from)
        .to_vec();
    assert!(matches!(parse_args(&args), Action::Compile(_)));
}
