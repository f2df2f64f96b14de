#![allow(unused_imports)]

use lib::cli::{extract_imports, parse_code};
use lib::diag::{DiagLoc, DiagSink, Diagnostic, ErrorCode, FileId, Severity, Span, SubDiag};
use lib::frontend::ast::printer::{print_module, ty, PrintOpts};
use lib::frontend::ast::visitor::{walk_expr, walk_item, walk_module, walk_stmt, Visitor};
use lib::frontend::ast::{
    Arm, Expr, Field, Func, Item, Module, Param, Pattern, Stmt, StructDef, TypeExpr, UnionDef,
    UsePath, Variant,
};
use lib::frontend::counters::FrontendCounters;
use lib::frontend::escape::{BindingInfo, BindingKind, EscapeChecker, EscapeContext, OwnershipState};
use lib::frontend::lexer::{classify_comment, is_keyword, tokenize, CommentKind, Token, TokenKind, KEYWORDS};
use lib::frontend::parser::decl::{item_shape, ItemShape};
use lib::frontend::parser::expr::binding_power;
use lib::frontend::parser::stmt::{bind_kind, is_jump_keyword, BindKind};
use lib::frontend::parser::{parse, Parser};
use lib::frontend::resolve::module::{emit_circular_dependency, emit_undefined_module, Import, ModuleId, ModuleInfo, ModuleRegistry};
use lib::frontend::resolve::path::{PathError, PathResolver};
use lib::frontend::resolve::scope::{emit_redefinition_error, Scope, ScopeStack};
use lib::frontend::resolve::symbols::{Symbol, SymbolId, SymbolKind, SymbolTable};
use lib::frontend::resolve::Resolver;
use lib::frontend::typecheck::{Type, TypeChecker, TypeContext};
use lib::ice::{format_ice, FixedBuf, ISSUE_HINT, VERSION};
use lib::ExitCode;

fn sp() -> Span {
    Span::new(FileId(0), 4, 9)
}

fn sample() -> Module {
    let s = sp();
    Module {
        items: vec![Item::Func(Func {
            is_public: false,
            name: "main".into(),
            params: Vec::new(),
            ret: Some(TypeExpr::Named("void".into(), s)),
            err: None,
            body: Expr::Block { stmts: Vec::new(), span: s },
            span: s,
        })],
        span: s,
    }
}

#[test]
fn spans_are_hidden_by_default() {
    let out = print_module(&sample(), PrintOpts::default());
    assert!(!out.contains(":span"), "默认不该带 span：{out}");
    assert!(out.contains("(func main"));
    assert!(out.contains("(ret-type void)"));
}

#[test]
fn spans_appear_when_requested() {
    let out = print_module(&sample(), PrintOpts { spans: true });
    assert!(out.contains(":span 0 4 9"), "{out}");
}

#[test]
fn parens_are_balanced() {
    let out = print_module(&sample(), PrintOpts { spans: true });
    let opens = out.chars().filter(|c| *c == '(').count();
    let closes = out.chars().filter(|c| *c == ')').count();
    assert_eq!(opens, closes, "括号不配平：{out}");
}

#[test]
fn types_render_in_kore_notation() {
    let s = sp();
    let t = TypeExpr::Own(Box::new(TypeExpr::Array(
        Box::new(TypeExpr::Named("u8".into(), s)),
        16,
        s,
    )), s);
    assert_eq!(ty(&t), "own ^[16]u8");
    let e = TypeExpr::ErrUnion(
        Box::new(TypeExpr::Named("i32".into(), s)),
        Box::new(TypeExpr::Named("IoErr".into(), s)),
        s,
    );
    assert_eq!(ty(&e), "i32 ! IoErr");
}
