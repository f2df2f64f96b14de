#![allow(unused_imports)]

use lib::cli::{extract_imports, parse_code};
use lib::diag::{DiagLoc, DiagSink, Diagnostic, ErrorCode, FileId, Severity, Span, SubDiag};
use lib::frontend::ast::printer::{print_module, ty, PrintOpts};
use lib::frontend::ast::visitor::{walk_expr, walk_item, walk_module, walk_stmt, Visitor};
use lib::frontend::ast::{
    Arm, Expr, Field, Func, Item, Module, Param, Pattern, Stmt, StructDef, TypeExpr, UnionDef,
    UsePath, Variant,
};
use lib::frontend::counters::FrontendCounters;
use lib::frontend::escape::{BindingInfo, BindingKind, EscapeChecker, EscapeContext, OwnershipState};
use lib::frontend::lexer::{classify_comment, is_keyword, tokenize, CommentKind, Token, TokenKind, KEYWORDS};
use lib::frontend::parser::decl::{item_shape, ItemShape};
use lib::frontend::parser::expr::binding_power;
use lib::frontend::parser::stmt::{bind_kind, is_jump_keyword, BindKind};
use lib::frontend::parser::{parse, Parser};
use lib::frontend::resolve::module::{emit_circular_dependency, emit_undefined_module, Import, ModuleId, ModuleInfo, ModuleRegistry};
use lib::frontend::resolve::path::{PathError, PathResolver};
use lib::frontend::resolve::scope::{emit_redefinition_error, Scope, ScopeStack};
use lib::frontend::resolve::symbols::{Symbol, SymbolId, SymbolKind, SymbolTable};
use lib::frontend::resolve::Resolver;
use lib::frontend::typecheck::{Type, TypeChecker, TypeContext};
use lib::ice::{format_ice, FixedBuf, ISSUE_HINT, VERSION};
use lib::ExitCode;

fn sym(name: &str, kind: SymbolKind) -> Symbol {
    Symbol {
        name: name.into(),
        kind,
        span: Span::new(FileId(0), 0, 1),
        is_mut: false,
        is_public: false,
    }
}

#[test]
fn ids_are_dense_and_stable() {
    let mut t = SymbolTable::new();
    let a = t.insert(sym("a", SymbolKind::Func));
    let b = t.insert(sym("b", SymbolKind::Local));
    assert_eq!(a, SymbolId(0));
    assert_eq!(b, SymbolId(1));
    assert_eq!(t.get(a).unwrap().name, "a");
    assert_eq!(t.get(b).unwrap().kind, SymbolKind::Local);
    assert_eq!(t.len(), 2);
}

#[test]
fn same_name_can_be_inserted_twice() {
    // 遮蔽合法性由 scope 判定，表本身不拦。
    let mut t = SymbolTable::new();
    t.insert(sym("x", SymbolKind::Local));
    t.insert(sym("x", SymbolKind::Local));
    assert_eq!(t.len(), 2);
}

#[test]
fn out_of_range_id_is_none() {
    let t = SymbolTable::new();
    assert!(t.get(SymbolId(0)).is_none());
    assert!(t.is_empty());
}
