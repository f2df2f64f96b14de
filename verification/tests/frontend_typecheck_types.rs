#![allow(unused_imports)]

use lib::cli::{extract_imports, parse_code};
use lib::diag::{DiagLoc, DiagSink, Diagnostic, ErrorCode, FileId, Severity, Span, SubDiag};
use lib::frontend::ast::printer::{print_module, ty, PrintOpts};
use lib::frontend::ast::visitor::{walk_expr, walk_item, walk_module, walk_stmt, Visitor};
use lib::frontend::ast::{
    Arm, Expr, Field, Func, Item, Module, Param, Pattern, Stmt, StructDef, TypeExpr, UnionDef,
    UsePath, Variant,
};
use lib::frontend::counters::FrontendCounters;
use lib::frontend::escape::{BindingInfo, BindingKind, EscapeChecker, EscapeContext, OwnershipState};
use lib::frontend::lexer::{classify_comment, is_keyword, tokenize, CommentKind, Token, TokenKind, KEYWORDS};
use lib::frontend::parser::decl::{item_shape, ItemShape};
use lib::frontend::parser::expr::binding_power;
use lib::frontend::parser::stmt::{bind_kind, is_jump_keyword, BindKind};
use lib::frontend::parser::{parse, Parser};
use lib::frontend::resolve::module::{emit_circular_dependency, emit_undefined_module, Import, ModuleId, ModuleInfo, ModuleRegistry};
use lib::frontend::resolve::path::{PathError, PathResolver};
use lib::frontend::resolve::scope::{emit_redefinition_error, Scope, ScopeStack};
use lib::frontend::resolve::symbols::{Symbol, SymbolId, SymbolKind, SymbolTable};
use lib::frontend::resolve::Resolver;
use lib::frontend::typecheck::{Type, TypeChecker, TypeContext};
use lib::ice::{format_ice, FixedBuf, ISSUE_HINT, VERSION};
use lib::ExitCode;

#[test]
fn basic_type_display() {
    assert_eq!(Type::i32().to_string(), "i32");
    assert_eq!(Type::u64().to_string(), "u64");
    assert_eq!(Type::float64().to_string(), "f64");
    assert_eq!(Type::Bool.to_string(), "bool");
    assert_eq!(Type::Str.to_string(), "str");
    assert_eq!(Type::Void.to_string(), "void");
}

#[test]
fn pointer_type_display() {
    assert_eq!(Type::Borrow(Box::new(Type::i32())).to_string(), "^i32");
    assert_eq!(Type::Own(Box::new(Type::Str)).to_string(), "own ^str");
}

#[test]
fn array_type_display() {
    let arr = Type::Array { elem: Box::new(Type::i32()), len: 10 };
    assert_eq!(arr.to_string(), "[10]i32");
}

#[test]
fn type_predicates() {
    assert!(Type::i32().is_int());
    assert!(Type::float64().is_float());
    assert!(Type::i32().is_numeric());
    assert!(Type::float64().is_numeric());
    assert!(!Type::Bool.is_numeric());
    assert!(Type::Never.is_never());
}

#[test]
fn never_type_display() {
    assert_eq!(Type::Never.to_string(), "never");
    assert!(!Type::Void.is_never());
    assert!(!Type::i32().is_never());
}

#[test]
fn error_union_type_display() {
    let eu = Type::ErrUnion {
        ok: Box::new(Type::i32()),
        err: Box::new(Type::Str),
    };
    assert_eq!(eu.to_string(), "i32 ! str");
}

#[test]
fn struct_union_type_display() {
    assert_eq!(Type::Struct("Point".to_string()).to_string(), "Point");
    assert_eq!(Type::Union("Result".to_string()).to_string(), "Result");
}

#[test]
fn func_type_display() {
    let f1 = Type::Func {
        params: vec![Type::i32(), Type::Str],
        ret: Box::new(Type::Bool),
        err: None,
    };
    assert_eq!(f1.to_string(), "(i32, str) bool");

    let f2 = Type::Func {
        params: vec![],
        ret: Box::new(Type::Void),
        err: Some(Box::new(Type::Str)),
    };
    assert_eq!(f2.to_string(), "() void ! str");
}

#[test]
fn unknown_type_display() {
    assert_eq!(Type::Unknown.to_string(), "<unknown>");
}

#[test]
fn integer_type_helpers() {
    assert_eq!(Type::i32(), Type::Int { signed: true, width: 32 });
    assert_eq!(Type::i64(), Type::Int { signed: true, width: 64 });
    assert_eq!(Type::u32(), Type::Int { signed: false, width: 32 });
    assert_eq!(Type::u64(), Type::Int { signed: false, width: 64 });
}

#[test]
fn float_type_helpers() {
    assert_eq!(Type::float64(), Type::Float { width: 64 });
    assert!(Type::float64().is_float());
    assert!(!Type::float64().is_int());
}

#[test]
fn type_equality() {
    assert_eq!(Type::i32(), Type::i32());
    assert_ne!(Type::i32(), Type::u32());
    assert_ne!(Type::i32(), Type::i64());
    assert_eq!(Type::Bool, Type::Bool);
    assert_ne!(Type::Void, Type::Never);
}

#[test]
fn complex_nested_types() {
    let t1 = Type::Array {
        elem: Box::new(Type::Borrow(Box::new(Type::i32()))),
        len: 5,
    };
    assert_eq!(t1.to_string(), "[5]^i32");

    let t2 = Type::Own(Box::new(Type::Array {
        elem: Box::new(Type::Str),
        len: 100,
    }));
    assert_eq!(t2.to_string(), "own ^[100]str");
}
