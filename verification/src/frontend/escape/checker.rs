//! The escape checker: two flow-sensitive rules.
//!
//! 1. Use after move (E5001): an `own ^T` binding is not used once moved.
//! 2. No escape (E5002, E5003): a borrow is not stored where it outlives
//!    its source.
//!
//! Binding kinds come from written types; a binding without one is plain,
//! so nothing is assumed of inferred types.

use super::context::{
    own_states, all_plain, binding_of, lemma_all_plain_binding, lemma_all_plain_define, lemma_all_plain_pop, lemma_all_plain_push,
    lemma_all_plain_restored, snap_view, BindingInfo, BindingKind, EscapeContext, OwnershipState,
};
use crate::diag::{DiagLoc, DiagSink, Diagnostic, ErrorCode, Severity, Span};
use crate::frontend::ast::{Arm, Expr, Func, Item, Module, Param, Pattern, Stmt, TypeExpr};
use crate::text::{concat3, u64_to_decimal};
use super::rules::{
    arm_bound, bind_plain, defined, depth_of, esc_args, esc_arms, esc_expr, esc_stmt, esc_stmts, func_diags,
    head_name, join_all, join_one, lemma_reported_after_none, lemma_reported_after_trans, module_diags,
    param_scopes, reported_after, use_diags, EscDiag, Snapshot,
};
use vstd::prelude::*;

verus! {

/// The kind of binding a written type makes.
pub open spec fn kind_of_type(ty: TypeExpr) -> BindingKind {
    match ty {
        TypeExpr::Own(..) => BindingKind::Own,
        TypeExpr::Borrow(..) => BindingKind::Borrow,
        _ => BindingKind::Plain,
    }
}

/// The kind of binding a written type makes.
fn binding_kind_from_type(ty: &TypeExpr) -> (k: BindingKind)
    ensures
        k == kind_of_type(*ty),
{
    match ty {
        TypeExpr::Own(..) => BindingKind::Own,
        TypeExpr::Borrow(..) => BindingKind::Borrow,
        _ => BindingKind::Plain,
    }
}

/// `b` holds `a` and perhaps more after it.
pub open spec fn grows(a: Seq<Diagnostic>, b: Seq<Diagnostic>) -> bool {
    a.len() <= b.len() && forall|i: int| 0 <= i < a.len() ==> #[trigger] b[i] == a[i]
}

/// A diagnostic of this checker: an error with one of its three codes.
pub open spec fn escape_error(d: Diagnostic) -> bool {
    &&& d.severity == Severity::Error
    &&& (d.code == 5001 || d.code == 5002 || d.code == 5003)
}

/// `b` holds `a`, then only errors of this checker.
pub open spec fn escape_reports(a: Seq<Diagnostic>, b: Seq<Diagnostic>) -> bool {
    &&& grows(a, b)
    &&& forall|i: int| a.len() <= i < b.len() ==> escape_error(#[trigger] b[i])
}

/// Whether `name` refers to a borrow made inside the function (deeper than
/// the parameters, which live as long as the caller).
pub open spec fn local_borrow(scopes: Seq<Seq<(String, BindingInfo)>>, name: Seq<char>) -> bool {
    binding_of(scopes, name) matches Some(b) && b.kind == BindingKind::Borrow && b.depth > 0
}

/// The kind a `let` declares: that of its written type, plain without one.
pub open spec fn let_kind(ty: Option<TypeExpr>) -> BindingKind {
    match ty {
        Some(t) => kind_of_type(t),
        None => BindingKind::Plain,
    }
}

/// Whether no `let` that the checker meets in `e` is written with an `own`
/// or borrowed type.
pub open spec fn plain_expr(e: Expr) -> bool
    decreases e, 0nat,
{
    match e {
        Expr::Block { stmts, .. } => plain_stmts(stmts@),
        Expr::Ret(Some(v), _) => plain_expr(*v),
        Expr::Call { callee, args, .. } => plain_expr(*callee) && plain_exprs(args@),
        Expr::Binary { lhs, rhs, .. } => plain_expr(*lhs) && plain_expr(*rhs),
        Expr::Unary { operand, .. } => plain_expr(*operand),
        Expr::Field { base, .. } => plain_expr(*base),
        Expr::Index { base, index, .. } => plain_expr(*base) && plain_expr(*index),
        Expr::Deref(inner, _) => plain_expr(*inner),
        Expr::Propagate(inner, _) => plain_expr(*inner),
        Expr::Jmp { target, .. } => match target {
            Some(t) => plain_expr(*t),
            None => true,
        },
        Expr::Loop { subject, body, .. } => (match subject {
            Some(sj) => plain_expr(*sj),
            None => true,
        }) && plain_expr(*body),
        Expr::Branch { scrutinee, arms, .. } => (match scrutinee {
            Some(sc) => plain_expr(*sc),
            None => true,
        }) && plain_arms(arms@),
        _ => true,
    }
}

pub open spec fn plain_exprs(s: Seq<Expr>) -> bool
    decreases s, 1nat,
{
    if s.len() == 0 {
        true
    } else {
        plain_exprs(s.drop_last()) && plain_expr(s.last())
    }
}

pub open spec fn plain_arms(s: Seq<Arm>) -> bool
    decreases s, 1nat,
{
    if s.len() == 0 {
        true
    } else {
        plain_arms(s.drop_last()) && plain_expr(s.last().body)
    }
}

pub open spec fn plain_stmts(s: Seq<Stmt>) -> bool
    decreases s, 1nat,
{
    if s.len() == 0 {
        true
    } else {
        plain_stmts(s.drop_last()) && plain_stmt(s.last())
    }
}

pub open spec fn plain_stmt(s: Stmt) -> bool
    decreases s, 0nat,
{
    match s {
        Stmt::Let { ty, init, .. } => let_kind(ty) == BindingKind::Plain && plain_expr(init),
        Stmt::Assign { target, value, .. } => plain_expr(value) && plain_expr(target),
        Stmt::Defer(e, _) => plain_expr(e),
        Stmt::Expr(e) => plain_expr(e),
    }
}

/// A function whose parameters and `let`s are all written without `own`
/// and borrowed types.
pub open spec fn plain_func(f: Func) -> bool {
    &&& forall|i: int| 0 <= i < f.params@.len() ==> kind_of_type(#[trigger] f.params@[i].ty) == BindingKind::Plain
    &&& plain_expr(f.body)
}

proof fn lemma_plain_exprs(s: Seq<Expr>, i: int)
    requires
        plain_exprs(s),
        0 <= i < s.len(),
    ensures
        plain_expr(s[i]),
    decreases s.len(),
{
    if i < s.len() - 1 {
        lemma_plain_exprs(s.drop_last(), i);
    }
}

proof fn lemma_plain_arms(s: Seq<Arm>, i: int)
    requires
        plain_arms(s),
        0 <= i < s.len(),
    ensures
        plain_expr(s[i].body),
    decreases s.len(),
{
    if i < s.len() - 1 {
        lemma_plain_arms(s.drop_last(), i);
    }
}

proof fn lemma_plain_stmts(s: Seq<Stmt>, i: int)
    requires
        plain_stmts(s),
        0 <= i < s.len(),
    ensures
        plain_stmt(s[i]),
    decreases s.len(),
{
    if i < s.len() - 1 {
        lemma_plain_stmts(s.drop_last(), i);
    }
}

/// The escape checker; it runs once per function.
pub struct EscapeChecker<'a> {
    ctx: EscapeContext,
    sink: &'a mut DiagSink,
}

impl<'a> EscapeChecker<'a> {
    /// The diagnostics reported so far.
    pub closed spec fn reported(&self) -> Seq<Diagnostic> {
        self.sink@
    }

    /// The bindings in scope.
    pub closed spec fn scopes(&self) -> Seq<Seq<(String, BindingInfo)>> {
        self.ctx.scopes_view()
    }

    pub fn new(sink: &'a mut DiagSink) -> (c: EscapeChecker<'a>)
        ensures
            c.reported() == old(sink)@,
            c.scopes() == seq![Seq::<(String, BindingInfo)>::empty()],
    {
        EscapeChecker { ctx: EscapeContext::new(), sink }
    }

    /// Checks every top-level function.
    pub fn check_module(&mut self, module: &Module)
        ensures
            escape_reports(old(self).reported(), final(self).reported()),
            (forall|i: int|
                0 <= i < module.items@.len() ==> (#[trigger] module.items@[i] matches Item::Func(f) ==> plain_func(f)))
                ==> final(self).reported() == old(self).reported(),
            reported_after(old(self).reported(), final(self).reported(), module_diags(module.items@)),
    {
        let mut i: usize = 0;
        proof {
            lemma_reported_after_none(self.sink@);
            assert(module.items@.take(0) =~= Seq::<Item>::empty());
        }
        while i < module.items.len()
            invariant
                i <= module.items@.len(),
                reported_after(old(self).sink@, self.sink@, module_diags(module.items@.take(i as int))),
                escape_reports(old(self).sink@, self.sink@),
                (forall|i: int|
                    0 <= i < module.items@.len() ==> (#[trigger] module.items@[i] matches Item::Func(f) ==> plain_func(f)))
                    ==> self.sink@ == old(self).sink@,
            decreases module.items@.len() - i,
        {
            let ghost before = self.sink@;
            proof {
                assert(module.items@.take(i + 1).drop_last() =~= module.items@.take(i as int));
                assert(module.items@.take(i + 1).last() == module.items@[i as int]);
            }
            match &module.items[i] {
                Item::Func(f) => {
                    self.check_func(f);
                    proof {
                        lemma_reported_after_trans(
                            old(self).sink@,
                            before,
                            self.sink@,
                            module_diags(module.items@.take(i as int)),
                            func_diags(*f),
                        );
                    }
                },
                _ => {
                    proof {
                        assert(module_diags(module.items@.take(i as int)) + Seq::<EscDiag>::empty() =~= module_diags(
                            module.items@.take(i as int),
                        ));
                    }
                },
            }
            i = i + 1;
        }
        proof {
            assert(module.items@.take(i as int) =~= module.items@);
        }
    }

    /// Checks one function, from a fresh context.
    pub fn check_func(&mut self, func: &Func)
        ensures
            escape_reports(old(self).reported(), final(self).reported()),
            plain_func(*func) ==> final(self).reported() == old(self).reported(),
            reported_after(old(self).reported(), final(self).reported(), func_diags(*func)),
    {
        self.ctx = EscapeContext::new();
        proof {
            assert(func.params@.take(0) =~= Seq::<Param>::empty());
        }
        proof {
            let s0 = self.ctx.scopes_view();
            assert forall|a: int, b: int| 0 <= a < s0.len() && 0 <= b < s0[a].len() implies (#[trigger] s0[a][b]).1.kind
                == BindingKind::Plain by {
                assert(s0[a].len() == 0);
            }
        }
        // Parameters live at depth 0.
        let mut i: usize = 0;
        while i < func.params.len()
            invariant
                i <= func.params@.len(),
                self.ctx.scopes_view() == param_scopes(func.params@.take(i as int)),
                escape_reports(old(self).sink@, self.sink@),
                self.sink@ == old(self).sink@,
                plain_func(*func) ==> all_plain(self.ctx.scopes_view()),
            decreases func.params@.len() - i,
        {
            assert(func.params@[i as int] == func.params[i as int]);
            proof {
                assert(func.params@.take(i + 1).drop_last() =~= func.params@.take(i as int));
                assert(func.params@.take(i + 1).last() == func.params@[i as int]);
            }
            self.register_param(&func.params[i]);
            i = i + 1;
        }
        proof {
            assert(func.params@.take(i as int) =~= func.params@);
        }
        self.check_expr(&func.body);
    }

    fn register_param(&mut self, param: &Param)
        ensures
            final(self).sink == old(self).sink,
            kind_of_type(param.ty) == BindingKind::Plain && all_plain(old(self).ctx.scopes_view()) ==> all_plain(
                final(self).ctx.scopes_view(),
            ),
            final(self).ctx.scopes_view() == defined(
                old(self).ctx.scopes_view(),
                param.name,
                BindingInfo { kind: kind_of_type(param.ty), state: OwnershipState::Live, depth: 0 },
            ),
    {
        proof {
            if kind_of_type(param.ty) == BindingKind::Plain && all_plain(self.ctx.scopes_view())
                && self.ctx.scopes_view().len() > 0 {
                lemma_all_plain_define(
                    self.ctx.scopes_view(),
                    param.name,
                    BindingInfo { kind: BindingKind::Plain, state: OwnershipState::Live, depth: 0 },
                );
            }
        }
        let kind = binding_kind_from_type(&param.ty);
        self.ctx.define(param.name.clone(), BindingInfo { kind, state: OwnershipState::Live, depth: 0 });
    }

    fn emit(&mut self, code: ErrorCode, msg: String, span: Span)
        ensures
            final(self).sink@ == old(self).sink@.push(final(self).sink@.last()),
            final(self).sink@.last().code == code.spec_code(),
            final(self).sink@.last().severity == Severity::Error,
            final(self).sink@.last().msg == msg,
            final(self).sink@.last().loc == DiagLoc::At(span),
            final(self).ctx == old(self).ctx,
    {
        self.sink.emit(Diagnostic::error(code.as_u16(), msg, DiagLoc::At(span)));
    }

    /// A use of `name`: reported as E5001 when it refers to an `own`
    /// binding that has moved.
    fn check_use(&mut self, name: &str, span: Span)
        ensures
            final(self).ctx == old(self).ctx,
            (binding_of(old(self).ctx.scopes_view(), name@) matches Some(b) && b.kind == BindingKind::Own
                && b.state is Moved) ==> {
                &&& final(self).sink@.len() == old(self).sink@.len() + 1
                &&& escape_reports(old(self).sink@, final(self).sink@)
                &&& final(self).sink@.last().code == 5001
                &&& final(self).sink@.last().severity == Severity::Error
                &&& final(self).sink@.last().loc == DiagLoc::At(span)
            },
            !(binding_of(old(self).ctx.scopes_view(), name@) matches Some(b) && b.kind == BindingKind::Own
                && b.state is Moved) ==> final(self).sink@ == old(self).sink@,
            reported_after(old(self).sink@, final(self).sink@, use_diags(old(self).ctx.scopes_view(), name@, span)),
    {
        proof {
            crate::frontend::escape::context::lemma_locate(self.ctx.scopes_view(), name@);
            lemma_reported_after_none(self.sink@);
        }
        let moved_at: Option<Span> = match self.ctx.lookup(name) {
            Some(info) => if info.kind == BindingKind::Own {
                match info.state {
                    OwnershipState::Moved(site) => Some(site),
                    OwnershipState::Live => None,
                }
            } else {
                None
            },
            None => None,
        };
        match moved_at {
            Some(site) => {
                let off = u64_to_decimal(site.lo as u64);
                let head = concat3("'", name, "' 在移动后被使用（首次移动位置：偏移 ");
                let msg = concat3(head.as_str(), off.as_str(), "）");
                self.emit(ErrorCode::UseAfterMove, msg, span);
                proof {
                    assert(self.sink@.subrange(0, old(self).sink@.len() as int) =~= old(self).sink@);
                    assert(self.sink@[old(self).sink@.len() + 0int] == self.sink@.last());
                }
            },
            None => {},
        }
    }

    /// Whether `name` refers to a borrow made inside the function.
    fn is_local_borrow(&self, name: &str) -> (b: bool)
        ensures
            b == local_borrow(self.ctx.scopes_view(), name@),
    {
        match self.ctx.lookup(name) {
            Some(info) => info.kind == BindingKind::Borrow && info.depth > 0,
            None => false,
        }
    }

    /// Binds the names of an arm's pattern as plain bindings.
    fn inject_arm_bindings(&mut self, pattern: &Pattern)
        ensures
            final(self).sink == old(self).sink,
            all_plain(old(self).ctx.scopes_view()) ==> all_plain(final(self).ctx.scopes_view()),
            final(self).ctx.scopes_view() == arm_bound(old(self).ctx.scopes_view(), *pattern),
    {
        let depth = self.ctx.depth();
        match pattern {
            Pattern::Bind(name, _) => {
                let b = BindingInfo::plain(depth);
                proof {
                    if all_plain(self.ctx.scopes_view()) && self.ctx.scopes_view().len() > 0 {
                        lemma_all_plain_define(self.ctx.scopes_view(), *name, b);
                    }
                }
                self.ctx.define(name.clone(), b);
            },
            Pattern::Variant { bindings, .. } => {
                let mut k: usize = 0;
                proof {
                    assert(bindings@.take(0) =~= Seq::<String>::empty());
                }
                while k < bindings.len()
                    invariant
                        k <= bindings@.len(),
                        depth == depth_of(old(self).ctx.scopes_view()),
                        self.ctx.scopes_view() == bind_plain(old(self).ctx.scopes_view(), bindings@.take(k as int), depth),
                        self.sink == old(self).sink,
                        all_plain(old(self).ctx.scopes_view()) ==> all_plain(self.ctx.scopes_view()),
                    decreases bindings@.len() - k,
                {
                    proof {
                        assert(bindings@.take(k + 1).drop_last() =~= bindings@.take(k as int));
                    }
                    let b = BindingInfo::plain(depth);
                    proof {
                        if all_plain(self.ctx.scopes_view()) && self.ctx.scopes_view().len() > 0 {
                            lemma_all_plain_define(self.ctx.scopes_view(), bindings@[k as int], b);
                        }
                    }
                    self.ctx.define(bindings[k].clone(), b);
                    k = k + 1;
                }
                proof {
                    assert(bindings@.take(k as int) =~= bindings@);
                }
            },
            _ => {},
        }
    }

    /// The name a path expression starts with, if it is a path.
    fn path_head(e: &Expr) -> (r: Option<(&String, Span)>)
        ensures
            r matches Some((n, sp)) ==> e matches Expr::Path(segs, s) && segs@.len() > 0 && *n == segs@[0]
                && sp == s,
            r is None ==> !(e matches Expr::Path(segs, _) && segs@.len() > 0),
    {
        match e {
            Expr::Path(segments, span) => if segments.len() > 0 {
                Some((&segments[0], *span))
            } else {
                None
            },
            _ => None,
        }
    }

    #[verifier::loop_isolation(false)]
    #[verifier::rlimit(100)]
    fn check_expr(&mut self, expr: &Expr)
        ensures
            escape_reports(old(self).sink@, final(self).sink@),
            all_plain(old(self).ctx.scopes_view()) && plain_expr(*expr) ==> final(self).sink@ == old(self).sink@
                && all_plain(final(self).ctx.scopes_view()),
            final(self).ctx.scopes_view() == esc_expr(old(self).ctx.scopes_view(), *expr).0,
            reported_after(old(self).sink@, final(self).sink@, esc_expr(old(self).ctx.scopes_view(), *expr).1),
        decreases expr,
    {
        let ghost plain = all_plain(self.ctx.scopes_view()) && plain_expr(*expr);
        let ghost st0 = self.ctx.scopes_view();
        let ghost d0 = self.sink@;
        proof {
            lemma_reported_after_none(d0);
        }
        match expr {
            Expr::Block { stmts, .. } => {
                proof {
                    if plain {
                        lemma_all_plain_push(self.ctx.scopes_view());
                    }
                }
                self.ctx.push_scope();
                let ghost st1 = self.ctx.scopes_view();
                let mut i: usize = 0;
                while i < stmts.len()
                    invariant
                        i <= stmts@.len(),
                        st1 == st0.push(Seq::empty()),
                        self.ctx.scopes_view() == esc_stmts(st1, *expr, i as int).0,
                        reported_after(d0, self.sink@, esc_stmts(st1, *expr, i as int).1),
                        escape_reports(old(self).sink@, self.sink@),
                        plain ==> self.sink@ == old(self).sink@ && all_plain(self.ctx.scopes_view()),
                    decreases stmts@.len() - i,
                {
                    proof {
                        assert(decreases_to!(expr => stmts@[i as int]));
                        if plain {
                            lemma_plain_stmts(stmts@, i as int);
                        }
                    }
                    let ghost before = self.sink@;
                    let ghost r = esc_stmts(st1, *expr, i as int);
                    self.check_stmt(&stmts[i]);
                    proof {
                        let x = esc_stmt(r.0, stmts@[i as int]);
                        assert(esc_stmts(st1, *expr, i + 1) == (x.0, r.1 + x.1));
                        lemma_reported_after_trans(d0, before, self.sink@, r.1, x.1);
                    }
                    i = i + 1;
                }
                proof {
                    if plain && self.ctx.scopes_view().len() > 1 {
                        lemma_all_plain_pop(self.ctx.scopes_view());
                    }
                }
                self.ctx.pop_scope();
            },
            // Returning a local borrow lets it escape (E5003).
            Expr::Ret(Some(val), span) => {
                self.check_expr(val);
                let ghost mid = self.sink@;
                let ghost r = esc_expr(st0, **val);
                match Self::path_head(val) {
                    Some((name, _)) => {
                        proof {
                            if plain {
                                lemma_all_plain_binding(self.ctx.scopes_view(), name@);
                            }
                        }
                        if self.is_local_borrow(name.as_str()) {
                            let msg = concat3("借用指针 '", name.as_str(), "' 不能作为返回值逃逸");
                            self.emit(ErrorCode::BorrowEscapesToReturn, msg, *span);
                            proof {
                                let d = EscDiag { code: 5003, msg: super::rules::escapes_to_return_msg(name@), span: *span };
                                assert(self.sink@.subrange(0, mid.len() as int) =~= mid);
                                assert(self.sink@[mid.len() + 0int] == self.sink@.last());
                                assert(reported_after(mid, self.sink@, seq![d]));
                                lemma_reported_after_trans(d0, mid, self.sink@, r.1, seq![d]);
                                assert(r.1 + seq![d] =~= r.1.push(d));
                            }
                        }
                    },
                    None => {},
                }
            },
            Expr::Ret(None, _) => {},
            // Passing an `own` binding as an argument moves it.
            Expr::Call { callee, args, .. } => {
                self.check_expr(callee);
                let ghost r = esc_expr(st0, **callee);
                let mut i: usize = 0;
                while i < args.len()
                    invariant
                        i <= args@.len(),
                        self.ctx.scopes_view() == esc_args(r.0, *expr, i as int).0,
                        reported_after(d0, self.sink@, r.1 + esc_args(r.0, *expr, i as int).1),
                        escape_reports(old(self).sink@, self.sink@),
                        plain ==> self.sink@ == old(self).sink@ && all_plain(self.ctx.scopes_view()),
                    decreases args@.len() - i,
                {
                    proof {
                        assert(decreases_to!(expr => args@[i as int]));
                        if plain {
                            lemma_plain_exprs(args@, i as int);
                        }
                    }
                    let ghost a = esc_args(r.0, *expr, i as int);
                    let ghost before = self.sink@;
                    let arg = &args[i];
                    self.check_expr(arg);
                    let ghost x = esc_expr(a.0, args@[i as int]);
                    proof {
                        lemma_reported_after_trans(d0, before, self.sink@, r.1 + a.1, x.1);
                    }
                    match Self::path_head(arg) {
                        Some((name, span)) => {
                            proof {
                                if plain {
                                    lemma_all_plain_binding(self.ctx.scopes_view(), name@);
                                    crate::frontend::escape::context::lemma_locate(self.ctx.scopes_view(), name@);
                                }
                            }
                            let ghost mid = self.sink@;
                            self.check_use(name.as_str(), span);
                            self.ctx.mark_moved(name.as_str(), span);
                            proof {
                                let u = use_diags(x.0, name@, span);
                                lemma_reported_after_trans(d0, mid, self.sink@, r.1 + a.1 + x.1, u);
                                assert(r.1 + a.1 + x.1 + u =~= r.1 + (a.1 + x.1 + u));
                            }
                        },
                        None => {
                            proof {
                                assert(r.1 + a.1 + x.1 =~= r.1 + (a.1 + x.1));
                            }
                        },
                    }
                    i = i + 1;
                }
            },
            Expr::Path(segments, span) => {
                if segments.len() > 0 {
                    proof {
                        if plain {
                            lemma_all_plain_binding(self.ctx.scopes_view(), segments@[0]@);
                        }
                    }
                    self.check_use(segments[0].as_str(), *span);
                }
            },
            Expr::Binary { lhs, rhs, .. } => {
                self.check_expr(lhs);
                let ghost mid = self.sink@;
                self.check_expr(rhs);
                proof {
                    let r1 = esc_expr(st0, **lhs);
                    lemma_reported_after_trans(d0, mid, self.sink@, r1.1, esc_expr(r1.0, **rhs).1);
                }
            },
            Expr::Unary { operand, .. } => self.check_expr(operand),
            Expr::Field { base, .. } => self.check_expr(base),
            Expr::Index { base, index, .. } => {
                self.check_expr(base);
                let ghost mid = self.sink@;
                self.check_expr(index);
                proof {
                    let r1 = esc_expr(st0, **base);
                    lemma_reported_after_trans(d0, mid, self.sink@, r1.1, esc_expr(r1.0, **index).1);
                }
            },
            Expr::Deref(inner, _) => self.check_expr(inner),
            Expr::Propagate(inner, _) => self.check_expr(inner),
            Expr::Jmp { target, .. } => match target {
                Some(t) => self.check_expr(t),
                None => {},
            },
            Expr::Loop { subject, body, .. } => {
                match subject {
                    Some(sj) => self.check_expr(sj),
                    None => {},
                }
                let ghost mid = self.sink@;
                let ghost r1 = match subject {
                    Some(sj) => esc_expr(st0, **sj),
                    None => (st0, Seq::<EscDiag>::empty()),
                };
                self.check_expr(body);
                proof {
                    lemma_reported_after_trans(d0, mid, self.sink@, r1.1, esc_expr(r1.0, **body).1);
                }
            },
            Expr::Branch { scrutinee, arms, span } => {
                match scrutinee {
                    Some(sc) => self.check_expr(sc),
                    None => {},
                }
                let ghost r0 = match scrutinee {
                    Some(sc) => esc_expr(st0, **sc),
                    None => (st0, Seq::<EscDiag>::empty()),
                };
                // Each arm starts from the state before the branch.
                let base_snap = self.ctx.snapshot_moves();
                let ghost base = own_states(r0.0);
                let mut arm_snaps: Vec<Vec<(String, OwnershipState)>> = Vec::new();
                let mut i: usize = 0;
                while i < arms.len()
                    invariant
                        i <= arms@.len(),
                        snap_view(base_snap@) == base,
                        self.ctx.scopes_view() == esc_arms(r0.0, base, *expr, i as int).0,
                        snaps_view(arm_snaps@) == esc_arms(r0.0, base, *expr, i as int).1,
                        reported_after(d0, self.sink@, r0.1 + esc_arms(r0.0, base, *expr, i as int).2),
                        escape_reports(old(self).sink@, self.sink@),
                        plain ==> self.sink@ == old(self).sink@ && all_plain(self.ctx.scopes_view()),
                    decreases arms@.len() - i,
                {
                    proof {
                        assert(decreases_to!(expr => arms@[i as int]));
                        if plain {
                            lemma_plain_arms(arms@, i as int);
                            lemma_all_plain_restored(self.ctx.scopes_view(), snap_view(base_snap@));
                        }
                    }
                    let ghost a = esc_arms(r0.0, base, *expr, i as int);
                    let ghost before = self.sink@;
                    self.ctx.restore_snapshot(base_snap.as_slice());
                    proof {
                        if plain {
                            lemma_all_plain_push(self.ctx.scopes_view());
                        }
                    }
                    self.ctx.push_scope();
                    self.inject_arm_bindings(&arms[i].pattern);
                    assert(arms@[i as int] == arms[i as int]);
                    let ghost entered = self.ctx.scopes_view();
                    self.check_expr(&arms[i].body);
                    proof {
                        if plain && self.ctx.scopes_view().len() > 1 {
                            lemma_all_plain_pop(self.ctx.scopes_view());
                        }
                        let x = esc_expr(entered, arms@[i as int].body);
                        lemma_reported_after_trans(d0, before, self.sink@, r0.1 + a.2, x.1);
                        assert(r0.1 + a.2 + x.1 =~= r0.1 + (a.2 + x.1));
                    }
                    self.ctx.pop_scope();
                    let snap = self.ctx.snapshot_moves();
                    arm_snaps.push(snap);
                    proof {
                        assert(snaps_view(arm_snaps@) =~= a.1.push(own_states(self.ctx.scopes_view())));
                    }
                    i = i + 1;
                }
                // Join: moved in any arm is moved after the branch.
                proof {
                    if plain {
                        lemma_all_plain_restored(self.ctx.scopes_view(), snap_view(base_snap@));
                    }
                }
                let ghost a = esc_arms(r0.0, base, *expr, arms@.len() as int);
                self.ctx.restore_snapshot(base_snap.as_slice());
                let ghost start = self.ctx.scopes_view();
                let ghost sink_after = self.sink@;
                let mut a_i: usize = 0;
                proof {
                    assert(snaps_view(arm_snaps@).take(0) =~= Seq::<Snapshot>::empty());
                }
                while a_i < arm_snaps.len()
                    invariant
                        a_i <= arm_snaps@.len(),
                        snaps_view(arm_snaps@) == a.1,
                        self.ctx.scopes_view() == join_all(start, a.1.take(a_i as int), *span),
                        self.sink@ == sink_after,
                        escape_reports(old(self).sink@, self.sink@),
                        plain ==> self.sink@ == old(self).sink@ && all_plain(self.ctx.scopes_view()),
                    decreases arm_snaps@.len() - a_i,
                {
                    let snap = &arm_snaps[a_i];
                    let ghost outer = self.ctx.scopes_view();
                    proof {
                        assert(a.1.take(a_i + 1).drop_last() =~= a.1.take(a_i as int));
                        assert(a.1[a_i as int] == snap_view(snap@));
                        assert(snap_view(snap@).take(0) =~= Seq::<(Seq<char>, OwnershipState)>::empty());
                    }
                    let mut k: usize = 0;
                    while k < snap.len()
                        invariant
                            k <= snap@.len(),
                            self.ctx.scopes_view() == join_one(outer, snap_view(snap@).take(k as int), *span),
                            self.sink@ == sink_after,
                            escape_reports(old(self).sink@, self.sink@),
                            plain ==> self.sink@ == old(self).sink@ && all_plain(self.ctx.scopes_view()),
                        decreases snap@.len() - k,
                    {
                        proof {
                            assert(snap_view(snap@).take(k + 1).drop_last() =~= snap_view(snap@).take(k as int));
                            assert(snap_view(snap@).take(k + 1).last() == (snap@[k as int].0@, snap@[k as int].1));
                        }
                        match snap[k].1 {
                            OwnershipState::Moved(_) => {
                                proof {
                                    if plain {
                                        lemma_all_plain_binding(self.ctx.scopes_view(), snap@[k as int].0@);
                                        crate::frontend::escape::context::lemma_locate(
                                            self.ctx.scopes_view(),
                                            snap@[k as int].0@,
                                        );
                                    }
                                }
                                self.ctx.mark_moved(snap[k].0.as_str(), *span);
                            },
                            OwnershipState::Live => {},
                        }
                        k = k + 1;
                    }
                    proof {
                        assert(snap_view(snap@).take(k as int) =~= snap_view(snap@));
                    }
                    a_i = a_i + 1;
                }
                proof {
                    assert(a.1.take(a_i as int) =~= a.1);
                }
            },
            // Literals, nil, skip and stop need nothing.
            _ => {},
        }
    }

    #[verifier::loop_isolation(false)]
    fn check_stmt(&mut self, stmt: &Stmt)
        ensures
            escape_reports(old(self).sink@, final(self).sink@),
            all_plain(old(self).ctx.scopes_view()) && plain_stmt(*stmt) ==> final(self).sink@ == old(self).sink@
                && all_plain(final(self).ctx.scopes_view()),
            final(self).ctx.scopes_view() == esc_stmt(old(self).ctx.scopes_view(), *stmt).0,
            reported_after(old(self).sink@, final(self).sink@, esc_stmt(old(self).ctx.scopes_view(), *stmt).1),
        decreases stmt,
    {
        let ghost plain = all_plain(self.ctx.scopes_view()) && plain_stmt(*stmt);
        let ghost st0 = self.ctx.scopes_view();
        let ghost d0 = self.sink@;
        match stmt {
            Stmt::Let { name, ty, init, .. } => {
                // The initial value first: it may move something.
                self.check_expr(init);
                // Binding a path moves the `own` binding it names.
                match Self::path_head(init) {
                    Some((src, span)) => {
                        proof {
                            if plain {
                                lemma_all_plain_binding(self.ctx.scopes_view(), src@);
                                crate::frontend::escape::context::lemma_locate(self.ctx.scopes_view(), src@);
                            }
                        }
                        self.ctx.mark_moved(src.as_str(), span);
                    },
                    None => {},
                }
                let kind = match ty {
                    Some(t) => binding_kind_from_type(t),
                    None => BindingKind::Plain,
                };
                let depth = self.ctx.depth();
                let info = BindingInfo { kind, state: OwnershipState::Live, depth };
                proof {
                    if plain && self.ctx.scopes_view().len() > 0 {
                        lemma_all_plain_define(self.ctx.scopes_view(), *name, info);
                    }
                }
                self.ctx.define(name.clone(), info);
            },
            Stmt::Assign { target, value, span } => {
                self.check_expr(value);
                let ghost r = esc_expr(st0, *value);
                let ghost mid = self.sink@;
                proof {
                    lemma_reported_after_none(mid);
                }
                // A local borrow stored in a field may escape to the heap (E5002).
                let into_field = match target {
                    Expr::Field { .. } => true,
                    _ => false,
                };
                if into_field {
                    match Self::path_head(value) {
                        Some((name, _)) => {
                            proof {
                                if plain {
                                    lemma_all_plain_binding(self.ctx.scopes_view(), name@);
                                }
                            }
                            if self.is_local_borrow(name.as_str()) {
                                let msg = concat3("借用指针 '", name.as_str(), "' 不能存入结构体字段（可能逃逸到堆）");
                                self.emit(ErrorCode::BorrowEscapesToHeap, msg, *span);
                                proof {
                                    assert(self.sink@.subrange(0, mid.len() as int) =~= mid);
                                    assert(self.sink@[mid.len() + 0int] == self.sink@.last());
                                }
                            }
                        },
                        None => {},
                    }
                }
                let ghost dd = match head_name(*value) {
                    Some((n, _)) => if *target is Field && local_borrow(r.0, n@) {
                        seq![EscDiag { code: 5002, msg: super::rules::escapes_to_heap_msg(n@), span: *span }]
                    } else {
                        Seq::<EscDiag>::empty()
                    },
                    None => Seq::<EscDiag>::empty(),
                };
                proof {
                    assert(reported_after(mid, self.sink@, dd));
                    lemma_reported_after_trans(d0, mid, self.sink@, r.1, dd);
                }
                let ghost reported = self.sink@;
                self.check_expr(target);
                proof {
                    lemma_reported_after_trans(d0, reported, self.sink@, r.1 + dd, esc_expr(r.0, *target).1);
                    if reported.len() > old(self).sink@.len() {
                        let k = reported.len() - 1;
                        assert(self.sink@[k] == reported[k]);
                    }
                }
            },
            Stmt::Defer(expr, _) => self.check_expr(expr),
            Stmt::Expr(expr) => self.check_expr(expr),
        }
    }
}

/// The snapshots of a branch's arms, names as character sequences.
pub open spec fn snaps_view(v: Seq<Vec<(String, OwnershipState)>>) -> Seq<Snapshot> {
    v.map_values(|s: Vec<(String, OwnershipState)>| snap_view(s@))
}

} // verus!
