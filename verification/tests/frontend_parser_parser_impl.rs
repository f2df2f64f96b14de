#![allow(unused_imports)]

use lib::cli::{extract_imports, parse_code};
use lib::diag::{DiagLoc, DiagSink, Diagnostic, ErrorCode, FileId, Severity, Span, SubDiag};
use lib::frontend::ast::printer::{print_module, ty, PrintOpts};
use lib::frontend::ast::visitor::{walk_expr, walk_item, walk_module, walk_stmt, Visitor};
use lib::frontend::ast::{
    Arm, Expr, Field, Func, Item, Module, Param, Pattern, Stmt, StructDef, TypeExpr, UnionDef,
    UsePath, Variant,
};
use lib::frontend::counters::FrontendCounters;
use lib::frontend::escape::{BindingInfo, BindingKind, EscapeChecker, EscapeContext, OwnershipState};
use lib::frontend::lexer::{classify_comment, is_keyword, tokenize, CommentKind, Token, TokenKind, KEYWORDS};
use lib::frontend::parser::decl::{item_shape, ItemShape};
use lib::frontend::parser::expr::binding_power;
use lib::frontend::parser::stmt::{bind_kind, is_jump_keyword, BindKind};
use lib::frontend::parser::{parse, Parser};
use lib::frontend::resolve::module::{emit_circular_dependency, emit_undefined_module, Import, ModuleId, ModuleInfo, ModuleRegistry};
use lib::frontend::resolve::path::{PathError, PathResolver};
use lib::frontend::resolve::scope::{emit_redefinition_error, Scope, ScopeStack};
use lib::frontend::resolve::symbols::{Symbol, SymbolId, SymbolKind, SymbolTable};
use lib::frontend::resolve::Resolver;
use lib::frontend::typecheck::{Type, TypeChecker, TypeContext};
use lib::ice::{format_ice, FixedBuf, ISSUE_HINT, VERSION};
use lib::ExitCode;

fn tok(kind: TokenKind) -> Token {
    Token::new(kind, Span::new(FileId(0), 0, 1))
}

fn eof() -> Token {
    Token::new(TokenKind::Eof, Span::new(FileId(0), 9, 9))
}

#[test]
fn comments_are_skipped_by_the_cursor() {
    let mut sink = DiagSink::new();
    let toks = vec![
        tok(TokenKind::Comment(CommentKind::ItemDoc, "文档".into())),
        tok(TokenKind::Ident("main".into())),
        eof(),
    ];
    let mut p = Parser::new(FileId(0), toks, &mut sink);
    assert_eq!(p.eat_ident().map(|(n, _)| n), Some("main".to_string()));
    assert!(p.at_eof());
}

#[test]
fn bump_stops_at_eof() {
    let mut sink = DiagSink::new();
    let mut p = Parser::new(FileId(0), vec![eof()], &mut sink);
    for _ in 0..3 {
        p.bump();
    }
    assert!(p.at_eof());
}

#[test]
fn expect_reports_and_does_not_consume() {
    let mut sink = DiagSink::new();
    let toks = vec![tok(TokenKind::Punct("?")), eof()];
    let mut p = Parser::new(FileId(0), toks, &mut sink);
    assert!(!p.expect_punct("::"));
    // 没吃掉，恢复逻辑才有东西可看。
    assert!(matches!(p.peek(), TokenKind::Punct("?")));
    drop(p);
    assert!(sink.has_errors());
}

#[test]
fn recovery_lands_on_the_next_binding() {
    let mut sink = DiagSink::new();
    let toks = vec![
        tok(TokenKind::Punct("?")),
        tok(TokenKind::Ident("f".into())),
        tok(TokenKind::Punct("::")),
        eof(),
    ];
    let mut p = Parser::new(FileId(0), toks, &mut sink);
    p.recover_to_item();
    assert!(matches!(p.peek(), TokenKind::Punct("::")));
}
