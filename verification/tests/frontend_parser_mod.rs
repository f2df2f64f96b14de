#![allow(unused_imports)]

use lib::cli::{extract_imports, parse_code};
use lib::diag::{DiagLoc, DiagSink, Diagnostic, ErrorCode, FileId, Severity, Span, SubDiag};
use lib::frontend::ast::printer::{print_module, ty, PrintOpts};
use lib::frontend::ast::visitor::{walk_expr, walk_item, walk_module, walk_stmt, Visitor};
use lib::frontend::ast::{
    Arm, Expr, Field, Func, Item, Module, Param, Pattern, Stmt, StructDef, TypeExpr, UnionDef,
    UsePath, Variant,
};
use lib::frontend::counters::FrontendCounters;
use lib::frontend::escape::{BindingInfo, BindingKind, EscapeChecker, EscapeContext, OwnershipState};
use lib::frontend::lexer::{classify_comment, is_keyword, tokenize, CommentKind, Token, TokenKind, KEYWORDS};
use lib::frontend::parser::decl::{item_shape, ItemShape};
use lib::frontend::parser::expr::binding_power;
use lib::frontend::parser::stmt::{bind_kind, is_jump_keyword, BindKind};
use lib::frontend::parser::{parse, Parser};
use lib::frontend::resolve::module::{emit_circular_dependency, emit_undefined_module, Import, ModuleId, ModuleInfo, ModuleRegistry};
use lib::frontend::resolve::path::{PathError, PathResolver};
use lib::frontend::resolve::scope::{emit_redefinition_error, Scope, ScopeStack};
use lib::frontend::resolve::symbols::{Symbol, SymbolId, SymbolKind, SymbolTable};
use lib::frontend::resolve::Resolver;
use lib::frontend::typecheck::{Type, TypeChecker, TypeContext};
use lib::ice::{format_ice, FixedBuf, ISSUE_HINT, VERSION};
use lib::ExitCode;

#[test]
fn empty_stream_parses_to_an_empty_module() {
    let mut sink = DiagSink::new();
    let toks = vec![Token::new(TokenKind::Eof, Span::new(FileId(0), 0, 0))];
    let m = parse(FileId(0), toks, &mut sink);
    assert!(m.items.is_empty());
    assert!(!sink.has_errors());
}

#[test]
fn unrecognized_tokens_do_not_hang() {
    let mut sink = DiagSink::new();
    let s = Span::new(FileId(0), 0, 1);
    let toks = vec![
        Token::new(TokenKind::Ident("main".into()), s),
        Token::new(TokenKind::Punct("::"), s),
        Token::new(TokenKind::Eof, Span::new(FileId(0), 6, 6)),
    ];
    let m = parse(FileId(0), toks, &mut sink);
    assert!(m.items.is_empty());
}
