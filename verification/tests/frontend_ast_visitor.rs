#![allow(unused_imports)]

use lib::cli::{extract_imports, parse_code};
use lib::diag::{DiagLoc, DiagSink, Diagnostic, ErrorCode, FileId, Severity, Span, SubDiag};
use lib::frontend::ast::printer::{print_module, ty, PrintOpts};
use lib::frontend::ast::visitor::{walk_expr, walk_item, walk_module, walk_stmt, Visitor};
use lib::frontend::ast::{
    Arm, Expr, Field, Func, Item, Module, Param, Pattern, Stmt, StructDef, TypeExpr, UnionDef,
    UsePath, Variant,
};
use lib::frontend::counters::FrontendCounters;
use lib::frontend::escape::{BindingInfo, BindingKind, EscapeChecker, EscapeContext, OwnershipState};
use lib::frontend::lexer::{classify_comment, is_keyword, tokenize, CommentKind, Token, TokenKind, KEYWORDS};
use lib::frontend::parser::decl::{item_shape, ItemShape};
use lib::frontend::parser::expr::binding_power;
use lib::frontend::parser::stmt::{bind_kind, is_jump_keyword, BindKind};
use lib::frontend::parser::{parse, Parser};
use lib::frontend::resolve::module::{emit_circular_dependency, emit_undefined_module, Import, ModuleId, ModuleInfo, ModuleRegistry};
use lib::frontend::resolve::path::{PathError, PathResolver};
use lib::frontend::resolve::scope::{emit_redefinition_error, Scope, ScopeStack};
use lib::frontend::resolve::symbols::{Symbol, SymbolId, SymbolKind, SymbolTable};
use lib::frontend::resolve::Resolver;
use lib::frontend::typecheck::{Type, TypeChecker, TypeContext};
use lib::ice::{format_ice, FixedBuf, ISSUE_HINT, VERSION};
use lib::ExitCode;

struct Counter {
    exprs: usize,
}

impl Visitor for Counter {
    fn visit_module(&mut self, m: &Module) {
        walk_module(self, m);
    }
    fn visit_item(&mut self, it: &Item) {
        walk_item(self, it);
    }
    fn visit_stmt(&mut self, s: &Stmt) {
        walk_stmt(self, s);
    }
    fn visit_expr(&mut self, e: &Expr) {
        self.exprs += 1;
        walk_expr(self, e);
    }
}

#[test]
fn walk_reaches_nested_exprs() {
    let s = Span::new(FileId(0), 0, 1);
    // { x = 1 + 2 } —— 块 1 + 赋值目标 1 + 二元 1 + 两个字面量 2 = 5
    let body = Expr::Block {
        stmts: vec![Stmt::Assign {
            target: Expr::Path(vec!["x".into()], s),
            value: Expr::Binary {
                op: "+",
                lhs: Box::new(Expr::Int("1".into(), s)),
                rhs: Box::new(Expr::Int("2".into(), s)),
                span: s,
            },
            span: s,
        }],
        span: s,
    };
    let m = Module {
        items: vec![Item::Func(Func {
            is_public: false,
            name: "main".into(),
            params: Vec::new(),
            ret: None,
            err: None,
            body,
            span: s,
        })],
        span: s,
    };
    let mut c = Counter { exprs: 0 };
    c.visit_module(&m);
    assert_eq!(c.exprs, 5);
}
