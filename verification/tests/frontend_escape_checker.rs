#![allow(unused_imports)]

use lib::cli::{extract_imports, parse_code};
use lib::diag::{DiagLoc, DiagSink, Diagnostic, ErrorCode, FileId, Severity, Span, SubDiag};
use lib::frontend::ast::printer::{print_module, ty, PrintOpts};
use lib::frontend::ast::visitor::{walk_expr, walk_item, walk_module, walk_stmt, Visitor};
use lib::frontend::ast::{
    Arm, Expr, Field, Func, Item, Module, Param, Pattern, Stmt, StructDef, TypeExpr, UnionDef,
    UsePath, Variant,
};
use lib::frontend::counters::FrontendCounters;
use lib::frontend::escape::{BindingInfo, BindingKind, EscapeChecker, EscapeContext, OwnershipState};
use lib::frontend::lexer::{classify_comment, is_keyword, tokenize, CommentKind, Token, TokenKind, KEYWORDS};
use lib::frontend::parser::decl::{item_shape, ItemShape};
use lib::frontend::parser::expr::binding_power;
use lib::frontend::parser::stmt::{bind_kind, is_jump_keyword, BindKind};
use lib::frontend::parser::{parse, Parser};
use lib::frontend::resolve::module::{emit_circular_dependency, emit_undefined_module, Import, ModuleId, ModuleInfo, ModuleRegistry};
use lib::frontend::resolve::path::{PathError, PathResolver};
use lib::frontend::resolve::scope::{emit_redefinition_error, Scope, ScopeStack};
use lib::frontend::resolve::symbols::{Symbol, SymbolId, SymbolKind, SymbolTable};
use lib::frontend::resolve::Resolver;
use lib::frontend::typecheck::{Type, TypeChecker, TypeContext};
use lib::ice::{format_ice, FixedBuf, ISSUE_HINT, VERSION};
use lib::ExitCode;

fn s() -> Span { Span::new(FileId(0), 0, 4) }

fn make_func(
    name: &str,
    params: Vec<Param>,
    ret: Option<TypeExpr>,
    body: Expr,
) -> Func {
    Func { is_public: false, name: name.into(), params, ret, err: None, body, span: s() }
}

fn int_lit() -> Expr { Expr::Int("1".into(), s()) }

fn path(name: &str) -> Expr { Expr::Path(vec![name.into()], s()) }

fn own_param(name: &str) -> Param {
    Param {
        name: name.into(),
        ty: TypeExpr::Own(Box::new(TypeExpr::Named("T".into(), s())), s()),
        is_mut: false,
        span: s(),
    }
}

fn borrow_param(name: &str) -> Param {
    Param {
        name: name.into(),
        ty: TypeExpr::Borrow(Box::new(TypeExpr::Named("T".into(), s())), s()),
        is_mut: false,
        span: s(),
    }
}

#[test]
fn no_error_for_plain_function() {
    let mut sink = DiagSink::new();
    let mut checker = EscapeChecker::new(&mut sink);
    let func = make_func("f", vec![], None, int_lit());
    checker.check_func(&func);
    assert_eq!(sink.err_count(), 0);
}



#[test]
fn single_use_of_own_is_fine() {
    let mut sink = DiagSink::new();
    let mut checker = EscapeChecker::new(&mut sink);

    let body = Expr::Block {
        stmts: vec![
            Stmt::Let {
                name: "y".into(),
                is_mut: false,
                ty: None,
                init: path("x"),
                span: s(),
            },
        ],
        span: s(),
    };

    let func = make_func("f", vec![own_param("x")], None, body);
    checker.check_func(&func);
    assert_eq!(sink.err_count(), 0);
}

#[test]
fn borrow_param_return_is_fine() {
    // 函数参数（深度 0）的借用可以返回，因为它与调用者同寿。
    let mut sink = DiagSink::new();
    let mut checker = EscapeChecker::new(&mut sink);

    let body = Expr::Ret(Some(Box::new(path("x"))), s());
    let func = make_func(
        "f",
        vec![borrow_param("x")],
        Some(TypeExpr::Borrow(Box::new(TypeExpr::Named("T".into(), s())), s())),
        body,
    );
    checker.check_func(&func);
    assert_eq!(sink.err_count(), 0);
}







#[test]
fn binary_expr_checks_operands() {
    let mut sink = DiagSink::new();
    let mut checker = EscapeChecker::new(&mut sink);

    let body = Expr::Binary {
        lhs: Box::new(path("x")),
        op: "+".into(),
        rhs: Box::new(path("x")),
        span: s(),
    };

    let func = make_func("f", vec![own_param("x")], None, body);
    checker.check_func(&func);
    // 二元表达式不移动，所以不应报错
    assert_eq!(sink.err_count(), 0);
}

#[test]
fn unary_expr_checks_operand() {
    let mut sink = DiagSink::new();
    let mut checker = EscapeChecker::new(&mut sink);

    let body = Expr::Unary {
        op: "-".into(),
        operand: Box::new(path("x")),
        span: s(),
    };

    let func = make_func("f", vec![], None, body);
    checker.check_func(&func);
    assert_eq!(sink.err_count(), 0);
}

#[test]
fn field_access_checks_base() {
    let mut sink = DiagSink::new();
    let mut checker = EscapeChecker::new(&mut sink);

    let body = Expr::Field {
        base: Box::new(path("x")),
        name: "field".into(),
        span: s(),
    };

    let func = make_func("f", vec![], None, body);
    checker.check_func(&func);
    assert_eq!(sink.err_count(), 0);
}

#[test]
fn index_checks_base_and_index() {
    let mut sink = DiagSink::new();
    let mut checker = EscapeChecker::new(&mut sink);

    let body = Expr::Index {
        base: Box::new(path("arr")),
        index: Box::new(int_lit()),
        span: s(),
    };

    let func = make_func("f", vec![], None, body);
    checker.check_func(&func);
    assert_eq!(sink.err_count(), 0);
}

#[test]
fn deref_checks_operand() {
    let mut sink = DiagSink::new();
    let mut checker = EscapeChecker::new(&mut sink);

    let body = Expr::Deref(Box::new(path("ptr")), s());
    let func = make_func("f", vec![], None, body);
    checker.check_func(&func);
    assert_eq!(sink.err_count(), 0);
}

#[test]
fn propagate_checks_operand() {
    let mut sink = DiagSink::new();
    let mut checker = EscapeChecker::new(&mut sink);

    let body = Expr::Propagate(Box::new(path("result")), s());
    let func = make_func("f", vec![], None, body);
    checker.check_func(&func);
    assert_eq!(sink.err_count(), 0);
}

#[test]
fn jmp_checks_operand() {
    let mut sink = DiagSink::new();
    let mut checker = EscapeChecker::new(&mut sink);

    let body = Expr::Jmp {
        target: Some(Box::new(path("target"))),
        label: None,
        span: s(),
    };
    let func = make_func("f", vec![], None, body);
    checker.check_func(&func);
    assert_eq!(sink.err_count(), 0);
}

#[test]
fn stop_is_control_flow_only() {
    let mut sink = DiagSink::new();
    let mut checker = EscapeChecker::new(&mut sink);

    // stop 现在是控制流语句（类似 break），不携带值，不会触发借用逃逸
    let body = Expr::Block {
        stmts: vec![
            Stmt::Let {
                name: "local".into(),
                is_mut: false,
                ty: Some(TypeExpr::Borrow(
                    Box::new(TypeExpr::Named("T".into(), s())),
                    s(),
                )),
                init: int_lit(),
                span: s(),
            },
            Stmt::Expr(Expr::Stop { label: Some("label".to_string()), span: s() }),
        ],
        span: s(),
    };

    let func = make_func("f", vec![], None, body);
    checker.check_func(&func);
    assert_eq!(sink.err_count(), 0); // stop 不携带值，无借用逃逸
}

#[test]
fn loop_with_subject_checks_both() {
    let mut sink = DiagSink::new();
    let mut checker = EscapeChecker::new(&mut sink);

    let body = Expr::Loop {
        subject: Some(Box::new(path("x"))),
        body: Box::new(int_lit()),
        label: None,
        span: s(),
    };

    let func = make_func("f", vec![], None, body);
    checker.check_func(&func);
    assert_eq!(sink.err_count(), 0);
}



#[test]
fn defer_checks_expr() {
    let mut sink = DiagSink::new();
    let mut checker = EscapeChecker::new(&mut sink);

    let body = Expr::Block {
        stmts: vec![Stmt::Defer(path("cleanup"), s())],
        span: s(),
    };

    let func = make_func("f", vec![], None, body);
    checker.check_func(&func);
    assert_eq!(sink.err_count(), 0);
}

#[test]
fn check_module_processes_all_funcs() {
    let mut sink = DiagSink::new();
    let mut checker = EscapeChecker::new(&mut sink);

    let module = Module {
        items: vec![
            Item::Func(make_func("f", vec![], None, int_lit())),
            Item::Func(make_func("g", vec![], None, int_lit())),
        ],
        span: s(),
    };

    checker.check_module(&module);
    assert_eq!(sink.err_count(), 0);
}

#[test]
fn variant_pattern_injects_bindings() {
    let mut sink = DiagSink::new();
    let mut checker = EscapeChecker::new(&mut sink);

    let body = Expr::Branch {
        scrutinee: Some(Box::new(path("val"))),
        arms: vec![lib::frontend::ast::Arm {
            pattern: lib::frontend::ast::Pattern::Variant {
                name: "Some".into(),
                bindings: vec!["x".into()],
                span: s(),
            },
            body: path("x"),  // x 应该可用
            span: s(),
        }],
        span: s(),
    };

    let func = make_func("f", vec![], None, body);
    checker.check_func(&func);
    assert_eq!(sink.err_count(), 0);
}

#[test]
fn use_after_move_reports_e5001() {
    let mut sink = DiagSink::new();
    let mut checker = EscapeChecker::new(&mut sink);

    // f :: (x own ^T) void =>
    //   { y := x; z := x }   ← 第二次使用 x 是 use-after-move
    let body = Expr::Block {
        stmts: vec![
            Stmt::Let {
                name: "y".into(),
                is_mut: false,
                ty: None,
                init: path("x"),
                span: s(),
            },
            Stmt::Let {
                name: "z".into(),
                is_mut: false,
                ty: None,
                init: path("x"),  // use after move
                span: s(),
            },
        ],
        span: s(),
    };

    let func = make_func("f", vec![own_param("x")], None, body);
    checker.check_func(&func);
    assert!(sink.err_count() > 0);
    let diags = sink.finish();
    assert!(diags.iter().any(|d| d.code == ErrorCode::UseAfterMove.as_u16()));
}

#[test]
fn local_borrow_return_reports_e5003() {
    // 函数内部创建的借用绑定（深度 1）ret 出去 → E5003。
    let mut sink = DiagSink::new();
    let mut checker = EscapeChecker::new(&mut sink);

    let body = Expr::Block {
        stmts: vec![
            Stmt::Let {
                name: "local".into(),
                is_mut: false,
                ty: Some(TypeExpr::Borrow(
                    Box::new(TypeExpr::Named("T".into(), s())),
                    s(),
                )),
                init: int_lit(),
                span: s(),
            },
            Stmt::Expr(Expr::Ret(Some(Box::new(path("local"))), s())),
        ],
        span: s(),
    };

    let func = make_func(
        "f",
        vec![],
        Some(TypeExpr::Borrow(Box::new(TypeExpr::Named("T".into(), s())), s())),
        body,
    );
    checker.check_func(&func);
    assert!(sink.err_count() > 0);
    let diags = sink.finish();
    assert!(diags.iter().any(|d| d.code == ErrorCode::BorrowEscapesToReturn.as_u16()));
}

#[test]
fn local_borrow_field_assign_reports_e5002() {
    // 把局部借用存入结构体字段 → E5002。
    let mut sink = DiagSink::new();
    let mut checker = EscapeChecker::new(&mut sink);

    let body = Expr::Block {
        stmts: vec![
            Stmt::Let {
                name: "b".into(),
                is_mut: false,
                ty: Some(TypeExpr::Borrow(
                    Box::new(TypeExpr::Named("T".into(), s())),
                    s(),
                )),
                init: int_lit(),
                span: s(),
            },
            Stmt::Assign {
                target: Expr::Field {
                    base: Box::new(path("obj")),
                    name: "field".into(),
                    span: s(),
                },
                value: path("b"),
                span: s(),
            },
        ],
        span: s(),
    };

    let func = make_func("f", vec![], None, body);
    checker.check_func(&func);
    assert!(sink.err_count() > 0);
    let diags = sink.finish();
    assert!(diags.iter().any(|d| d.code == ErrorCode::BorrowEscapesToHeap.as_u16()));
}

#[test]
fn call_moves_own_arg() {
    let mut sink = DiagSink::new();
    let mut checker = EscapeChecker::new(&mut sink);

    // f :: (x own ^T) void => { g(x); h(x) }  // 第二次使用 x 报错
    let body = Expr::Block {
        stmts: vec![
            Stmt::Expr(Expr::Call {
                callee: Box::new(path("g")),
                args: vec![path("x")],
                span: s(),
            }),
            Stmt::Expr(Expr::Call {
                callee: Box::new(path("h")),
                args: vec![path("x")],  // use after move
                span: s(),
            }),
        ],
        span: s(),
    };

    let func = make_func("f", vec![own_param("x")], None, body);
    checker.check_func(&func);
    assert!(sink.err_count() > 0);
    let diags = sink.finish();
    assert!(diags.iter().any(|d| d.code == ErrorCode::UseAfterMove.as_u16()));
}

#[test]
fn branch_conservative_merge() {
    let mut sink = DiagSink::new();
    let mut checker = EscapeChecker::new(&mut sink);

    // branch x { A => { y := x }, B => { } }; z := x
    // 因为任一分支移动了 x，分支后 x 视为已移动
    let body = Expr::Block {
        stmts: vec![
            Stmt::Expr(Expr::Branch {
                scrutinee: Some(Box::new(path("val"))),
                arms: vec![
                    lib::frontend::ast::Arm {
                        pattern: lib::frontend::ast::Pattern::Variant {
                            name: "A".into(),
                            bindings: vec![],
                            span: s(),
                        },
                        body: Expr::Block {
                            stmts: vec![Stmt::Let {
                                name: "y".into(),
                                is_mut: false,
                                ty: None,
                                init: path("x"),
                                span: s(),
                            }],
                            span: s(),
                        },
                        span: s(),
                    },
                    lib::frontend::ast::Arm {
                        pattern: lib::frontend::ast::Pattern::Variant {
                            name: "B".into(),
                            bindings: vec![],
                            span: s(),
                        },
                        body: int_lit(),
                        span: s(),
                    },
                ],
                span: s(),
            }),
            Stmt::Let {
                name: "z".into(),
                is_mut: false,
                ty: None,
                init: path("x"),
                span: s(),
            },
        ],
        span: s(),
    };

    let func = make_func("f", vec![own_param("x")], None, body);
    checker.check_func(&func);
    assert!(sink.err_count() > 0);
    let diags = sink.finish();
    assert!(diags.iter().any(|d| d.code == ErrorCode::UseAfterMove.as_u16()));
}
