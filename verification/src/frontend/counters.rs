//! Deterministic front-end counters: benchmarks compare units of work, not
//! wall-clock time, which the environment disturbs. The counters are
//! derived from what the passes produce.

use crate::frontend::ast::{Expr, Item, Module, Stmt};
use crate::frontend::lexer::Token;
use vstd::prelude::*;

verus! {

/// Counters of the front-end passes, one kind of unit of work each.
#[derive(Debug, Default, Clone)]
pub struct FrontendCounters {
    /// Tokens produced by the lexer, `Eof` included.
    pub tokens_produced: usize,
    /// Top-level items produced by the parser.
    pub items_parsed: usize,
    /// Expression nodes of the AST, counted recursively.
    pub expr_nodes: usize,
    /// Diagnostics reported, errors and warnings.
    pub diags_emitted: usize,
}

/// The expression nodes counted in `e`: itself, and those of its operands,
/// branch arm bodies and block statements. The elements of struct, array
/// and variant literals are not counted.
pub open spec fn expr_count(e: Expr) -> nat
    decreases e, 0nat,
{
    1 + match e {
        Expr::Binary { lhs, rhs, .. } => expr_count(*lhs) + expr_count(*rhs),
        Expr::Unary { operand, .. } => expr_count(*operand),
        Expr::Call { callee, args, .. } => expr_count(*callee) + exprs_count(args@),
        Expr::Field { base, .. } => expr_count(*base),
        Expr::Deref(base, _) => expr_count(*base),
        Expr::Propagate(base, _) => expr_count(*base),
        Expr::Index { base, index, .. } => expr_count(*base) + expr_count(*index),
        Expr::Loop { subject, body, .. } => (match subject {
            Some(s) => expr_count(*s),
            None => 0,
        }) + expr_count(*body),
        Expr::Branch { scrutinee, arms, .. } => (match scrutinee {
            Some(s) => expr_count(*s),
            None => 0,
        }) + arms_count(arms@),
        Expr::Block { stmts, .. } => stmts_count(stmts@),
        Expr::Ret(inner, _) => match inner {
            Some(x) => expr_count(*x),
            None => 0,
        },
        Expr::Jmp { target, .. } => match target {
            Some(t) => expr_count(*t),
            None => 0,
        },
        _ => 0,
    }
}

pub open spec fn exprs_count(s: Seq<Expr>) -> nat
    decreases s, 1nat,
{
    if s.len() == 0 {
        0
    } else {
        exprs_count(s.drop_last()) + expr_count(s.last())
    }
}

pub open spec fn arms_count(s: Seq<crate::frontend::ast::Arm>) -> nat
    decreases s, 1nat,
{
    if s.len() == 0 {
        0
    } else {
        arms_count(s.drop_last()) + expr_count(s.last().body)
    }
}

pub open spec fn stmts_count(s: Seq<Stmt>) -> nat
    decreases s, 1nat,
{
    if s.len() == 0 {
        0
    } else {
        stmts_count(s.drop_last()) + stmt_count(s.last())
    }
}

pub open spec fn stmt_count(s: Stmt) -> nat
    decreases s, 0nat,
{
    match s {
        Stmt::Let { init, .. } => expr_count(init),
        Stmt::Expr(e) => expr_count(e),
        Stmt::Assign { target, value, .. } => expr_count(target) + expr_count(value),
        Stmt::Defer(e, _) => expr_count(e),
    }
}

/// A function counts itself and its body; other items count nothing.
pub open spec fn item_count(it: Item) -> nat {
    match it {
        Item::Func(f) => 1 + expr_count(f.body),
        _ => 0,
    }
}

pub open spec fn items_count(s: Seq<Item>) -> nat
    decreases s.len(),
{
    if s.len() == 0 {
        0
    } else {
        items_count(s.drop_last()) + item_count(s.last())
    }
}

impl FrontendCounters {
    /// The counters of one run of the lexer and the parser.
    pub fn from_outputs(tokens: &[Token], module: &Module, diag_err: u32, diag_warn: u32) -> (c: FrontendCounters)
        requires
            items_count(module.items@) <= usize::MAX,
            diag_err + diag_warn <= u32::MAX,
        ensures
            c.tokens_produced == tokens@.len(),
            c.items_parsed == module.items@.len(),
            c.expr_nodes == items_count(module.items@),
            c.diags_emitted == diag_err + diag_warn,
    {
        FrontendCounters {
            tokens_produced: tokens.len(),
            items_parsed: module.items.len(),
            expr_nodes: count_exprs_in_module(module),
            diags_emitted: (diag_err + diag_warn) as usize,
        }
    }
}

fn count_exprs_in_module(module: &Module) -> (n: usize)
    requires
        items_count(module.items@) <= usize::MAX,
    ensures
        n == items_count(module.items@),
{
    let mut n: usize = 0;
    let mut i: usize = 0;
    while i < module.items.len()
        invariant
            i <= module.items@.len(),
            n == items_count(module.items@.take(i as int)),
            items_count(module.items@) <= usize::MAX,
        decreases module.items@.len() - i,
    {
        proof {
            assert(module.items@.take(i + 1).drop_last() =~= module.items@.take(i as int));
            lemma_items_prefix(module.items@, i + 1);
        }
        n = n + count_exprs_in_item(&module.items[i]);
        i = i + 1;
    }
    proof {
        assert(module.items@.take(i as int) =~= module.items@);
    }
    n
}

proof fn lemma_items_prefix(s: Seq<Item>, k: int)
    requires
        0 <= k <= s.len(),
    ensures
        items_count(s.take(k)) <= items_count(s),
    decreases s.len(),
{
    if k < s.len() {
        assert(s.drop_last().take(k) =~= s.take(k));
        lemma_items_prefix(s.drop_last(), k);
    } else {
        assert(s.take(k) =~= s);
    }
}

fn count_exprs_in_item(item: &Item) -> (n: usize)
    requires
        item_count(*item) <= usize::MAX,
    ensures
        n == item_count(*item),
{
    match item {
        Item::Func(f) => 1 + count_exprs(&f.body),
        _ => 0,
    }
}

fn count_exprs(expr: &Expr) -> (n: usize)
    requires
        expr_count(*expr) <= usize::MAX,
    ensures
        n == expr_count(*expr),
    decreases expr, 2nat,
{
    let inner: usize = match expr {
        Expr::Binary { lhs, rhs, .. } => count_exprs(lhs) + count_exprs(rhs),
        Expr::Unary { operand, .. } => count_exprs(operand),
        Expr::Call { callee, args, .. } => count_exprs(callee) + count_expr_list(args),
        Expr::Field { base, .. } => count_exprs(base),
        Expr::Deref(base, _) => count_exprs(base),
        Expr::Propagate(base, _) => count_exprs(base),
        Expr::Index { base, index, .. } => count_exprs(base) + count_exprs(index),
        Expr::Loop { subject, body, .. } => {
            let s = match subject {
                Some(sj) => count_exprs(sj),
                None => 0,
            };
            s + count_exprs(body)
        },
        Expr::Branch { scrutinee, arms, .. } => {
            let s = match scrutinee {
                Some(sc) => count_exprs(sc),
                None => 0,
            };
            s + count_arm_list(arms)
        },
        Expr::Block { stmts, .. } => count_stmt_list(stmts),
        Expr::Ret(inner, _) => match inner {
            Some(x) => count_exprs(x),
            None => 0,
        },
        Expr::Jmp { target, .. } => match target {
            Some(t) => count_exprs(t),
            None => 0,
        },
        _ => 0,
    };
    1 + inner
}

fn count_expr_list(v: &Vec<Expr>) -> (n: usize)
    requires
        exprs_count(v@) <= usize::MAX,
    ensures
        n == exprs_count(v@),
    decreases v@, 1nat,
{
    let mut n: usize = 0;
    let mut i: usize = 0;
    while i < v.len()
        invariant
            i <= v@.len(),
            n == exprs_count(v@.take(i as int)),
            exprs_count(v@) <= usize::MAX,
        decreases v@.len() - i,
    {
        proof {
            assert(v@.take(i + 1).drop_last() =~= v@.take(i as int));
            lemma_exprs_prefix(v@, i + 1);
            assert(decreases_to!(v@ => v@[i as int]));
        }
        n = n + count_exprs(&v[i]);
        i = i + 1;
    }
    proof {
        assert(v@.take(i as int) =~= v@);
    }
    n
}

proof fn lemma_exprs_prefix(s: Seq<Expr>, k: int)
    requires
        0 <= k <= s.len(),
    ensures
        exprs_count(s.take(k)) <= exprs_count(s),
    decreases s.len(),
{
    if k < s.len() {
        assert(s.drop_last().take(k) =~= s.take(k));
        lemma_exprs_prefix(s.drop_last(), k);
    } else {
        assert(s.take(k) =~= s);
    }
}

fn count_arm_list(v: &Vec<crate::frontend::ast::Arm>) -> (n: usize)
    requires
        arms_count(v@) <= usize::MAX,
    ensures
        n == arms_count(v@),
    decreases v@, 1nat,
{
    let mut n: usize = 0;
    let mut i: usize = 0;
    while i < v.len()
        invariant
            i <= v@.len(),
            n == arms_count(v@.take(i as int)),
            arms_count(v@) <= usize::MAX,
        decreases v@.len() - i,
    {
        proof {
            assert(v@.take(i + 1).drop_last() =~= v@.take(i as int));
            lemma_arms_prefix(v@, i + 1);
            assert(decreases_to!(v@ => v@[i as int]));
        }
        n = n + count_exprs(&v[i].body);
        i = i + 1;
    }
    proof {
        assert(v@.take(i as int) =~= v@);
    }
    n
}

proof fn lemma_arms_prefix(s: Seq<crate::frontend::ast::Arm>, k: int)
    requires
        0 <= k <= s.len(),
    ensures
        arms_count(s.take(k)) <= arms_count(s),
    decreases s.len(),
{
    if k < s.len() {
        assert(s.drop_last().take(k) =~= s.take(k));
        lemma_arms_prefix(s.drop_last(), k);
    } else {
        assert(s.take(k) =~= s);
    }
}

fn count_stmt_list(v: &Vec<Stmt>) -> (n: usize)
    requires
        stmts_count(v@) <= usize::MAX,
    ensures
        n == stmts_count(v@),
    decreases v@, 1nat,
{
    let mut n: usize = 0;
    let mut i: usize = 0;
    while i < v.len()
        invariant
            i <= v@.len(),
            n == stmts_count(v@.take(i as int)),
            stmts_count(v@) <= usize::MAX,
        decreases v@.len() - i,
    {
        proof {
            assert(v@.take(i + 1).drop_last() =~= v@.take(i as int));
            lemma_stmts_prefix(v@, i + 1);
            assert(decreases_to!(v@ => v@[i as int]));
        }
        n = n + count_exprs_in_stmt(&v[i]);
        i = i + 1;
    }
    proof {
        assert(v@.take(i as int) =~= v@);
    }
    n
}

proof fn lemma_stmts_prefix(s: Seq<Stmt>, k: int)
    requires
        0 <= k <= s.len(),
    ensures
        stmts_count(s.take(k)) <= stmts_count(s),
    decreases s.len(),
{
    if k < s.len() {
        assert(s.drop_last().take(k) =~= s.take(k));
        lemma_stmts_prefix(s.drop_last(), k);
    } else {
        assert(s.take(k) =~= s);
    }
}

fn count_exprs_in_stmt(stmt: &Stmt) -> (n: usize)
    requires
        stmt_count(*stmt) <= usize::MAX,
    ensures
        n == stmt_count(*stmt),
    decreases stmt, 2nat,
{
    match stmt {
        Stmt::Let { init, .. } => count_exprs(init),
        Stmt::Expr(e) => count_exprs(e),
        Stmt::Assign { target, value, .. } => count_exprs(target) + count_exprs(value),
        Stmt::Defer(e, _) => count_exprs(e),
    }
}

} // verus!
