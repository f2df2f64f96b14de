#![allow(unused_imports)]

use lib::cli::{extract_imports, parse_code};
use lib::diag::{DiagLoc, DiagSink, Diagnostic, ErrorCode, FileId, Severity, Span, SubDiag};
use lib::frontend::ast::printer::{print_module, ty, PrintOpts};
use lib::frontend::ast::visitor::{walk_expr, walk_item, walk_module, walk_stmt, Visitor};
use lib::frontend::ast::{
    Arm, Expr, Field, Func, Item, Module, Param, Pattern, Stmt, StructDef, TypeExpr, UnionDef,
    UsePath, Variant,
};
use lib::frontend::counters::FrontendCounters;
use lib::frontend::escape::{BindingInfo, BindingKind, EscapeChecker, EscapeContext, OwnershipState};
use lib::frontend::lexer::{classify_comment, is_keyword, tokenize, CommentKind, Token, TokenKind, KEYWORDS};
use lib::frontend::parser::decl::{item_shape, ItemShape};
use lib::frontend::parser::expr::binding_power;
use lib::frontend::parser::stmt::{bind_kind, is_jump_keyword, BindKind};
use lib::frontend::parser::{parse, Parser};
use lib::frontend::resolve::module::{emit_circular_dependency, emit_undefined_module, Import, ModuleId, ModuleInfo, ModuleRegistry};
use lib::frontend::resolve::path::{PathError, PathResolver};
use lib::frontend::resolve::scope::{emit_redefinition_error, Scope, ScopeStack};
use lib::frontend::resolve::symbols::{Symbol, SymbolId, SymbolKind, SymbolTable};
use lib::frontend::resolve::Resolver;
use lib::frontend::typecheck::{Type, TypeChecker, TypeContext};
use lib::ice::{format_ice, FixedBuf, ISSUE_HINT, VERSION};
use lib::ExitCode;

#[test]
fn table_has_exactly_23_keywords() {
    // 规范 01-overview.md 第 3 节：「共 23 个」。数量变化必须先改规范。
    assert_eq!(KEYWORDS.len(), 23);
}

#[test]
fn table_has_no_duplicates() {
    for (i, &kw_i) in KEYWORDS.iter().enumerate() {
        for &kw_j in KEYWORDS.iter().skip(i + 1) {
            assert_ne!(kw_i, kw_j, "重复关键字：{}", kw_i);
        }
    }
}

#[test]
fn literals_and_builtin_names_are_not_keywords() {
    for w in ["true", "false", "nil", "self", "Self"] {
        assert!(!is_keyword(w), "{w} 是字面量或内置名字，不该进关键字表");
    }
}

#[test]
fn absent_words_from_other_languages_are_not_keywords() {
    // Kore 靠 `?`/`@` 吞掉整族关键字，这些词不该存在。
    for w in ["if", "else", "match", "switch", "for", "while", "enum", "const", "mut", "fn"] {
        assert!(!is_keyword(w), "{w} 不该是 Kore 关键字");
    }
}

#[test]
fn every_table_entry_is_recognized() {
    for w in KEYWORDS {
        assert!(is_keyword(w));
    }
}
