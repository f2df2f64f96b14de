#![allow(unused_imports)]

use lib::cli::{extract_imports, parse_code};
use lib::diag::{DiagLoc, DiagSink, Diagnostic, ErrorCode, FileId, Severity, Span, SubDiag};
use lib::frontend::ast::printer::{print_module, ty, PrintOpts};
use lib::frontend::ast::visitor::{walk_expr, walk_item, walk_module, walk_stmt, Visitor};
use lib::frontend::ast::{
    Arm, Expr, Field, Func, Item, Module, Param, Pattern, Stmt, StructDef, TypeExpr, UnionDef,
    UsePath, Variant,
};
use lib::frontend::counters::FrontendCounters;
use lib::frontend::escape::{BindingInfo, BindingKind, EscapeChecker, EscapeContext, OwnershipState};
use lib::frontend::lexer::{classify_comment, is_keyword, tokenize, CommentKind, Token, TokenKind, KEYWORDS};
use lib::frontend::parser::decl::{item_shape, ItemShape};
use lib::frontend::parser::expr::binding_power;
use lib::frontend::parser::stmt::{bind_kind, is_jump_keyword, BindKind};
use lib::frontend::parser::{parse, Parser};
use lib::frontend::resolve::module::{emit_circular_dependency, emit_undefined_module, Import, ModuleId, ModuleInfo, ModuleRegistry};
use lib::frontend::resolve::path::{PathError, PathResolver};
use lib::frontend::resolve::scope::{emit_redefinition_error, Scope, ScopeStack};
use lib::frontend::resolve::symbols::{Symbol, SymbolId, SymbolKind, SymbolTable};
use lib::frontend::resolve::Resolver;
use lib::frontend::typecheck::{Type, TypeChecker, TypeContext};
use lib::ice::{format_ice, FixedBuf, ISSUE_HINT, VERSION};
use lib::ExitCode;

#[test]
fn three_binding_forms_are_distinguished() {
    assert_eq!(bind_kind(&TokenKind::Punct("::")), Some(BindKind::Comptime));
    assert_eq!(bind_kind(&TokenKind::Punct(":")), Some(BindKind::RuntimeTyped));
    assert_eq!(
        bind_kind(&TokenKind::Punct(":=")),
        Some(BindKind::RuntimeInferred)
    );
}

#[test]
fn other_puncts_are_not_bindings() {
    for p in ["=", "?", "@", "^", "~", "!"] {
        assert!(bind_kind(&TokenKind::Punct(leak(p))).is_none(), "{p}");
    }
}

#[test]
fn jump_keywords_are_exactly_four() {
    let mut n = 0;
    for k in lib::frontend::lexer::KEYWORDS {
        if is_jump_keyword(k) {
            n += 1;
        }
    }
    assert_eq!(n, 4, "跳转关键字应为 ret/jmp/stop/skip");
    // defer 不是跳转：它登记延迟执行，控制流不在此处转移。
    assert!(!is_jump_keyword("defer"));
}

/// 测试里需要 `&'static str`，把字面量借出去。
fn leak(s: &str) -> &'static str {
    match s {
        "=" => "=",
        "?" => "?",
        "@" => "@",
        "^" => "^",
        "~" => "~",
        _ => "!",
    }
}
