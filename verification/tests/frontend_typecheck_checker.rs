#![allow(unused_imports)]

use lib::cli::{extract_imports, parse_code};
use lib::diag::{DiagLoc, DiagSink, Diagnostic, ErrorCode, FileId, Severity, Span, SubDiag};
use lib::frontend::ast::printer::{print_module, ty, PrintOpts};
use lib::frontend::ast::visitor::{walk_expr, walk_item, walk_module, walk_stmt, Visitor};
use lib::frontend::ast::{
    Arm, Expr, Field, Func, Item, Module, Param, Pattern, Stmt, StructDef, TypeExpr, UnionDef,
    UsePath, Variant,
};
use lib::frontend::counters::FrontendCounters;
use lib::frontend::escape::{BindingInfo, BindingKind, EscapeChecker, EscapeContext, OwnershipState};
use lib::frontend::lexer::{classify_comment, is_keyword, tokenize, CommentKind, Token, TokenKind, KEYWORDS};
use lib::frontend::parser::decl::{item_shape, ItemShape};
use lib::frontend::parser::expr::binding_power;
use lib::frontend::parser::stmt::{bind_kind, is_jump_keyword, BindKind};
use lib::frontend::parser::{parse, Parser};
use lib::frontend::resolve::module::{emit_circular_dependency, emit_undefined_module, Import, ModuleId, ModuleInfo, ModuleRegistry};
use lib::frontend::resolve::path::{PathError, PathResolver};
use lib::frontend::resolve::scope::{emit_redefinition_error, Scope, ScopeStack};
use lib::frontend::resolve::symbols::{Symbol, SymbolId, SymbolKind, SymbolTable};
use lib::frontend::resolve::Resolver;
use lib::frontend::typecheck::{Type, TypeChecker, TypeContext};
use lib::ice::{format_ice, FixedBuf, ISSUE_HINT, VERSION};
use lib::ExitCode;

fn dummy_span() -> Span {
    Span::new(FileId(0), 0, 0)
}

#[test]
fn check_int_literal() {
    let symbols = SymbolTable::new();
    let mut sink = DiagSink::new();
    let mut checker = TypeChecker::new(&symbols, &mut sink);

    let expr = Expr::Int("42".to_string(), dummy_span());

    assert_eq!(checker.check_expr(&expr), Type::i32());
}

#[test]
fn check_float_literal() {
    let symbols = SymbolTable::new();
    let mut sink = DiagSink::new();
    let mut checker = TypeChecker::new(&symbols, &mut sink);

    let expr = Expr::Float("3.14".to_string(), dummy_span());

    assert_eq!(checker.check_expr(&expr), Type::float64());
}

#[test]
fn check_bool_literal() {
    let symbols = SymbolTable::new();
    let mut sink = DiagSink::new();
    let mut checker = TypeChecker::new(&symbols, &mut sink);

    let expr = Expr::Bool(true, dummy_span());

    assert_eq!(checker.check_expr(&expr), Type::Bool);
}

#[test]
fn check_binop_add_i32() {
    let symbols = SymbolTable::new();
    let mut sink = DiagSink::new();
    let mut checker = TypeChecker::new(&symbols, &mut sink);

    let expr = Expr::Binary {
        op: "+",
        lhs: Box::new(Expr::Int("1".to_string(), dummy_span())),
        rhs: Box::new(Expr::Int("2".to_string(), dummy_span())),
        span: dummy_span(),
    };

    assert_eq!(checker.check_expr(&expr), Type::i32());
    assert_eq!(sink.err_count(), 0);
}

#[test]
fn check_binop_type_mismatch() {
    let symbols = SymbolTable::new();
    let mut sink = DiagSink::new();
    let mut checker = TypeChecker::new(&symbols, &mut sink);

    let expr = Expr::Binary {
        op: "+",
        lhs: Box::new(Expr::Int("1".to_string(), dummy_span())),
        rhs: Box::new(Expr::Float("2.0".to_string(), dummy_span())),
        span: dummy_span(),
    };

    checker.check_expr(&expr);
    assert!(sink.err_count() > 0);
}

#[test]
fn check_comparison_returns_bool() {
    let symbols = SymbolTable::new();
    let mut sink = DiagSink::new();
    let mut checker = TypeChecker::new(&symbols, &mut sink);

    let expr = Expr::Binary {
        op: "<",
        lhs: Box::new(Expr::Int("1".to_string(), dummy_span())),
        rhs: Box::new(Expr::Int("2".to_string(), dummy_span())),
        span: dummy_span(),
    };

    assert_eq!(checker.check_expr(&expr), Type::Bool);
}

#[test]
fn check_logical_op_requires_bool() {
    let symbols = SymbolTable::new();
    let mut sink = DiagSink::new();
    let mut checker = TypeChecker::new(&symbols, &mut sink);

    let expr = Expr::Binary {
        op: "&&",
        lhs: Box::new(Expr::Int("1".to_string(), dummy_span())),
        rhs: Box::new(Expr::Bool(true, dummy_span())),
        span: dummy_span(),
    };

    checker.check_expr(&expr);
    assert!(sink.err_count() > 0);
}

// ---- 新增 case 的测试 ----

#[test]
fn unary_neg_i32_returns_i32() {
    let symbols = SymbolTable::new();
    let mut sink = DiagSink::new();
    let mut checker = TypeChecker::new(&symbols, &mut sink);
    let expr = Expr::Unary {
        op: "-",
        operand: Box::new(Expr::Int("1".to_string(), dummy_span())),
        span: dummy_span(),
    };
    assert_eq!(checker.check_expr(&expr), Type::i32());
    assert_eq!(sink.err_count(), 0);
}

#[test]
fn unary_neg_bool_emits_error() {
    let symbols = SymbolTable::new();
    let mut sink = DiagSink::new();
    let mut checker = TypeChecker::new(&symbols, &mut sink);
    let expr = Expr::Unary {
        op: "-",
        operand: Box::new(Expr::Bool(true, dummy_span())),
        span: dummy_span(),
    };
    checker.check_expr(&expr);
    assert!(sink.err_count() > 0);
}

#[test]
fn unary_not_bool_returns_bool() {
    let symbols = SymbolTable::new();
    let mut sink = DiagSink::new();
    let mut checker = TypeChecker::new(&symbols, &mut sink);
    let expr = Expr::Unary {
        op: "!",
        operand: Box::new(Expr::Bool(false, dummy_span())),
        span: dummy_span(),
    };
    assert_eq!(checker.check_expr(&expr), Type::Bool);
    assert_eq!(sink.err_count(), 0);
}

#[test]
fn unary_not_i32_emits_error() {
    let symbols = SymbolTable::new();
    let mut sink = DiagSink::new();
    let mut checker = TypeChecker::new(&symbols, &mut sink);
    let expr = Expr::Unary {
        op: "!",
        operand: Box::new(Expr::Int("1".to_string(), dummy_span())),
        span: dummy_span(),
    };
    checker.check_expr(&expr);
    assert!(sink.err_count() > 0);
}

#[test]
fn deref_unknown_returns_unknown_no_error() {
    // Path 返回 Unknown，解引用 Unknown 不应报错（类型信息缺失）
    let symbols = SymbolTable::new();
    let mut sink = DiagSink::new();
    let mut checker = TypeChecker::new(&symbols, &mut sink);
    let expr = Expr::Deref(
        Box::new(Expr::Path(vec!["x".to_string()], dummy_span())),
        dummy_span(),
    );
    assert_eq!(checker.check_expr(&expr), Type::Unknown);
    assert_eq!(sink.err_count(), 0);
}

#[test]
fn deref_non_pointer_emits_error() {
    let symbols = SymbolTable::new();
    let mut sink = DiagSink::new();
    let mut checker = TypeChecker::new(&symbols, &mut sink);
    // i32 不是指针，解引用应报错
    let expr = Expr::Deref(
        Box::new(Expr::Int("1".to_string(), dummy_span())),
        dummy_span(),
    );
    checker.check_expr(&expr);
    assert!(sink.err_count() > 0);
}

#[test]
fn index_unknown_returns_unknown_no_error() {
    let symbols = SymbolTable::new();
    let mut sink = DiagSink::new();
    let mut checker = TypeChecker::new(&symbols, &mut sink);
    let expr = Expr::Index {
        base: Box::new(Expr::Path(vec!["arr".to_string()], dummy_span())),
        index: Box::new(Expr::Int("0".to_string(), dummy_span())),
        span: dummy_span(),
    };
    assert_eq!(checker.check_expr(&expr), Type::Unknown);
    assert_eq!(sink.err_count(), 0);
}

#[test]
fn index_non_array_emits_error() {
    let symbols = SymbolTable::new();
    let mut sink = DiagSink::new();
    let mut checker = TypeChecker::new(&symbols, &mut sink);
    let expr = Expr::Index {
        base: Box::new(Expr::Int("1".to_string(), dummy_span())),
        index: Box::new(Expr::Int("0".to_string(), dummy_span())),
        span: dummy_span(),
    };
    checker.check_expr(&expr);
    assert!(sink.err_count() > 0);
}

#[test]
fn propagate_unknown_returns_unknown_no_error() {
    let symbols = SymbolTable::new();
    let mut sink = DiagSink::new();
    let mut checker = TypeChecker::new(&symbols, &mut sink);
    let expr = Expr::Propagate(
        Box::new(Expr::Path(vec!["r".to_string()], dummy_span())),
        dummy_span(),
    );
    assert_eq!(checker.check_expr(&expr), Type::Unknown);
    assert_eq!(sink.err_count(), 0);
}

#[test]
fn propagate_non_err_union_emits_error() {
    let symbols = SymbolTable::new();
    let mut sink = DiagSink::new();
    let mut checker = TypeChecker::new(&symbols, &mut sink);
    let expr = Expr::Propagate(
        Box::new(Expr::Int("1".to_string(), dummy_span())),
        dummy_span(),
    );
    checker.check_expr(&expr);
    assert!(sink.err_count() > 0);
}

#[test]
fn block_empty_returns_void() {
    let symbols = SymbolTable::new();
    let mut sink = DiagSink::new();
    let mut checker = TypeChecker::new(&symbols, &mut sink);
    let expr = Expr::Block { stmts: vec![], span: dummy_span() };
    assert_eq!(checker.check_expr(&expr), Type::Void);
    assert_eq!(sink.err_count(), 0);
}

#[test]
fn block_last_expr_stmt_returns_its_type() {
    let symbols = SymbolTable::new();
    let mut sink = DiagSink::new();
    let mut checker = TypeChecker::new(&symbols, &mut sink);
    let expr = Expr::Block {
        stmts: vec![Stmt::Expr(Expr::Int("42".to_string(), dummy_span()))],
        span: dummy_span(),
    };
    assert_eq!(checker.check_expr(&expr), Type::i32());
    assert_eq!(sink.err_count(), 0);
}

#[test]
fn ret_without_value_returns_never() {
    let symbols = SymbolTable::new();
    let mut sink = DiagSink::new();
    let mut checker = TypeChecker::new(&symbols, &mut sink);
    let expr = Expr::Ret(None, dummy_span());
    assert_eq!(checker.check_expr(&expr), Type::Never);
    assert_eq!(sink.err_count(), 0);
}

#[test]
fn ret_with_value_returns_never() {
    let symbols = SymbolTable::new();
    let mut sink = DiagSink::new();
    let mut checker = TypeChecker::new(&symbols, &mut sink);
    let expr = Expr::Ret(
        Some(Box::new(Expr::Int("1".to_string(), dummy_span()))),
        dummy_span(),
    );
    assert_eq!(checker.check_expr(&expr), Type::Never);
    assert_eq!(sink.err_count(), 0);
}

#[test]
fn stop_returns_never() {
    let symbols = SymbolTable::new();
    let mut sink = DiagSink::new();
    let mut checker = TypeChecker::new(&symbols, &mut sink);
    let expr = Expr::Stop { label: None, span: dummy_span() };
    assert_eq!(checker.check_expr(&expr), Type::Never);
}

#[test]
fn skip_returns_never() {
    let symbols = SymbolTable::new();
    let mut sink = DiagSink::new();
    let mut checker = TypeChecker::new(&symbols, &mut sink);
    let expr = Expr::Skip { label: None, span: dummy_span() };
    assert_eq!(checker.check_expr(&expr), Type::Never);
}

#[test]
fn jmp_returns_never() {
    let symbols = SymbolTable::new();
    let mut sink = DiagSink::new();
    let mut checker = TypeChecker::new(&symbols, &mut sink);
    let expr = Expr::Jmp {
        target: Some(Box::new(Expr::Path(vec!["label".to_string()], dummy_span()))),
        label: None,
        span: dummy_span(),
    };
    assert_eq!(checker.check_expr(&expr), Type::Never);
}

#[test]
fn loop_returns_void() {
    let symbols = SymbolTable::new();
    let mut sink = DiagSink::new();
    let mut checker = TypeChecker::new(&symbols, &mut sink);
    let body = Expr::Block { stmts: vec![], span: dummy_span() };
    let expr = Expr::Loop {
        subject: None,
        body: Box::new(body),
        label: None,
        span: dummy_span(),
    };
    assert_eq!(checker.check_expr(&expr), Type::Void);
    assert_eq!(sink.err_count(), 0);
}



#[test]
fn struct_field_type_correct_no_error() {
    let symbols = SymbolTable::new();
    let mut sink = DiagSink::new();
    let mut checker = TypeChecker::new(&symbols, &mut sink);

    // 定义结构体: Point { x: i32, y: i32 }
    checker.type_ctx.define_struct(
        "Point".to_string(),
        vec![
            ("x".to_string(), Type::i32()),
            ("y".to_string(), Type::i32()),
        ],
    );

    // 构造 Point { x: 42, y: 10 } - 类型正确
    let fields = vec![
        ("x".to_string(), Expr::Int("42".to_string(), dummy_span())),
        ("y".to_string(), Expr::Int("10".to_string(), dummy_span())),
    ];
    let expr = Expr::StructLit {
        name: "Point".to_string(),
        fields,
        span: dummy_span(),
    };

    let ty = checker.check_expr(&expr);
    assert_eq!(ty, Type::Struct("Point".to_string()));
    assert_eq!(sink.err_count(), 0); // 无错误
}

#[test]
fn struct_field_type_mismatch_emits_error() {
    let symbols = SymbolTable::new();
    let mut sink = DiagSink::new();
    let mut checker = TypeChecker::new(&symbols, &mut sink);

    // 定义结构体: Point { x: i32, y: i32 }
    checker.type_ctx.define_struct(
        "Point".to_string(),
        vec![
            ("x".to_string(), Type::i32()),
            ("y".to_string(), Type::i32()),
        ],
    );

    // 构造 Point { x: 42, y: true } - y 类型错误
    let fields = vec![
        ("x".to_string(), Expr::Int("42".to_string(), dummy_span())),
        ("y".to_string(), Expr::Bool(true, dummy_span())),
    ];
    let expr = Expr::StructLit {
        name: "Point".to_string(),
        fields,
        span: dummy_span(),
    };

    let ty = checker.check_expr(&expr);
    assert_eq!(ty, Type::Struct("Point".to_string()));
    assert_eq!(sink.err_count(), 1); // 期望一个类型不匹配错误

    let diags = sink.finish();
    assert_eq!(diags[0].code, ErrorCode::TypeMismatch.as_u16());
    assert!(diags[0].msg.contains("字段 'y' 类型不匹配"));
}
