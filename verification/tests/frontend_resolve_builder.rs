#![allow(unused_imports)]

use lib::cli::{extract_imports, parse_code};
use lib::diag::{DiagLoc, DiagSink, Diagnostic, ErrorCode, FileId, Severity, Span, SubDiag};
use lib::frontend::ast::printer::{print_module, ty, PrintOpts};
use lib::frontend::ast::visitor::{walk_expr, walk_item, walk_module, walk_stmt, Visitor};
use lib::frontend::ast::{
    Arm, Expr, Field, Func, Item, Module, Param, Pattern, Stmt, StructDef, TypeExpr, UnionDef,
    UsePath, Variant,
};
use lib::frontend::counters::FrontendCounters;
use lib::frontend::escape::{BindingInfo, BindingKind, EscapeChecker, EscapeContext, OwnershipState};
use lib::frontend::lexer::{classify_comment, is_keyword, tokenize, CommentKind, Token, TokenKind, KEYWORDS};
use lib::frontend::parser::decl::{item_shape, ItemShape};
use lib::frontend::parser::expr::binding_power;
use lib::frontend::parser::stmt::{bind_kind, is_jump_keyword, BindKind};
use lib::frontend::parser::{parse, Parser};
use lib::frontend::resolve::module::{emit_circular_dependency, emit_undefined_module, Import, ModuleId, ModuleInfo, ModuleRegistry};
use lib::frontend::resolve::path::{PathError, PathResolver};
use lib::frontend::resolve::scope::{emit_redefinition_error, Scope, ScopeStack};
use lib::frontend::resolve::symbols::{Symbol, SymbolId, SymbolKind, SymbolTable};
use lib::frontend::resolve::Resolver;
use lib::frontend::typecheck::{Type, TypeChecker, TypeContext};
use lib::ice::{format_ice, FixedBuf, ISSUE_HINT, VERSION};
use lib::ExitCode;

fn span() -> Span {
    Span::new(FileId(0), 0, 1)
}

#[test]
fn module_level_func_is_registered() {
    let mut sink = DiagSink::new();
    let module = Module {
        items: vec![Item::Func(Func {
            is_public: false,
            name: "main".into(),
            params: Vec::new(),
            ret: None,
            err: None,
            body: Expr::Int("42".into(), span()),
            span: span(),
        })],
        span: span(),
    };

    let resolver = Resolver::new(&mut sink);
    let table = resolver.resolve(&module);

    // 符号表应包含 6 个内置函数 + 1 个 main 函数 = 7 个符号
    assert_eq!(table.len(), 7);

    // 查找 main 函数
    let main_sym = table.iter().into_iter().find(|(_, sym)| sym.name == "main").unwrap();
    assert_eq!(main_sym.1.name, "main");
    assert_eq!(main_sym.1.kind, SymbolKind::Func);
    assert!(!sink.has_errors());
}

#[test]
fn module_level_redefinition_is_error() {
    let mut sink = DiagSink::new();
    let module = Module {
        items: vec![
            Item::Func(Func {
                is_public: false,
                name: "foo".into(),
                params: Vec::new(),
                ret: None,
                err: None,
                body: Expr::Nil(span()),
                span: span(),
            }),
            Item::Func(Func {
                is_public: false,
                name: "foo".into(),
                params: Vec::new(),
                ret: None,
                err: None,
                body: Expr::Nil(span()),
                span: span(),
            }),
        ],
        span: span(),
    };

    let resolver = Resolver::new(&mut sink);
    let _table = resolver.resolve(&module);

    assert_eq!(sink.err_count(), 1);
    let diag = &sink.peek()[0];
    assert_eq!(diag.code, 4003);
    assert!(diag.msg.contains("重定义名字"));
}

#[test]
fn func_params_are_in_func_scope() {
    let mut sink = DiagSink::new();
    let module = Module {
        items: vec![Item::Func(Func {
            is_public: false,
            name: "add".into(),
            params: vec![
                Param {
                    name: "x".into(),
                    ty: TypeExpr::Named("i32".into(), span()),
                    is_mut: false,
                    span: span(),
                },
                Param {
                    name: "y".into(),
                    ty: TypeExpr::Named("i32".into(), span()),
                    is_mut: false,
                    span: span(),
                },
            ],
            ret: None,
            err: None,
            body: Expr::Binary {
                op: "+",
                lhs: Box::new(Expr::Path(vec!["x".into()], span())),
                rhs: Box::new(Expr::Path(vec!["y".into()], span())),
                span: span(),
            },
            span: span(),
        })],
        span: span(),
    };

    let resolver = Resolver::new(&mut sink);
    let table = resolver.resolve(&module);

    // 6 内置函数 + 1 func + 2 params = 9 symbols
    assert_eq!(table.len(), 9);
    assert!(!sink.has_errors());
}

#[test]
fn local_let_defines_in_scope() {
    let mut sink = DiagSink::new();
    let module = Module {
        items: vec![Item::Func(Func {
            is_public: false,
            name: "f".into(),
            params: Vec::new(),
            ret: None,
            err: None,
            body: Expr::Block {
                stmts: vec![
                    Stmt::Let {
                        name: "x".into(),
                        is_mut: false,
                        ty: None,
                        init: Expr::Int("1".into(), span()),
                        span: span(),
                    },
                    Stmt::Expr(Expr::Path(vec!["x".into()], span())),
                ],
                span: span(),
            },
            span: span(),
        })],
        span: span(),
    };

    let resolver = Resolver::new(&mut sink);
    let table = resolver.resolve(&module);

    // 6 内置函数 + 1 func + 1 local = 8 symbols
    assert_eq!(table.len(), 8);
    assert!(!sink.has_errors());
}

#[test]
fn undefined_name_is_error() {
    let mut sink = DiagSink::new();
    let module = Module {
        items: vec![Item::Func(Func {
            is_public: false,
            name: "f".into(),
            params: Vec::new(),
            ret: None,
            err: None,
            body: Expr::Path(vec!["undefined".into()], span()),
            span: span(),
        })],
        span: span(),
    };

    let resolver = Resolver::new(&mut sink);
    let _table = resolver.resolve(&module);

    assert_eq!(sink.err_count(), 1);
    let diag = &sink.peek()[0];
    assert_eq!(diag.code, ErrorCode::UndefinedName.as_u16());
}

#[test]
fn nested_block_creates_scope() {
    let mut sink = DiagSink::new();
    let module = Module {
        items: vec![Item::Func(Func {
            is_public: false,
            name: "f".into(),
            params: Vec::new(),
            ret: None,
            err: None,
            body: Expr::Block {
                stmts: vec![
                    Stmt::Let {
                        name: "x".into(),
                        is_mut: false,
                        ty: None,
                        init: Expr::Int("1".into(), span()),
                        span: span(),
                    },
                    Stmt::Expr(Expr::Block {
                        stmts: vec![
                            Stmt::Let {
                                name: "x".into(), // 遮蔽外层 x
                                is_mut: false,
                                ty: None,
                                init: Expr::Int("2".into(), span()),
                                span: span(),
                            },
                            Stmt::Expr(Expr::Path(vec!["x".into()], span())),
                        ],
                        span: span(),
                    }),
                ],
                span: span(),
            },
            span: span(),
        })],
        span: span(),
    };

    let resolver = Resolver::new(&mut sink);
    let table = resolver.resolve(&module);

    // 6 内置函数 + 1 func + 2 locals (外层 x + 内层 x) = 9 symbols
    assert_eq!(table.len(), 9);
    assert!(!sink.has_errors()); // 遮蔽合法，无错误
}

#[test]
fn pattern_bind_defines_name() {
    let mut sink = DiagSink::new();
    let module = Module {
        items: vec![Item::Func(Func {
            is_public: false,
            name: "f".into(),
            params: Vec::new(),
            ret: None,
            err: None,
            body: Expr::Branch {
                scrutinee: Some(Box::new(Expr::Int("1".into(), span()))),
                arms: vec![Arm {
                    pattern: Pattern::Bind("x".into(), span()),
                    body: Expr::Path(vec!["x".into()], span()),
                    span: span(),
                }],
                span: span(),
            },
            span: span(),
        })],
        span: span(),
    };

    let resolver = Resolver::new(&mut sink);
    let table = resolver.resolve(&module);

    // 6 内置函数 + 1 func + 1 pattern binding = 8 symbols
    assert_eq!(table.len(), 8);
    assert!(!sink.has_errors());
}
