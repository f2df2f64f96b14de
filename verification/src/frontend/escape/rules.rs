//! The escape rules as functions: how checking an expression changes the
//! bindings in scope, and which errors it reports, in order.

use super::checker::{kind_of_type, let_kind, local_borrow};
use super::context::{locate, own_states, restored, with_state, BindingInfo, BindingKind, OwnershipState};
use crate::diag::{DiagLoc, Diagnostic, Severity, Span};
use crate::frontend::ast::{Expr, Func, Item, Param, Pattern, Stmt};
use crate::text::decimal;
use vstd::prelude::*;

verus! {

/// The bindings in scope, outermost scope first.
pub type Scopes = Seq<Seq<(String, BindingInfo)>>;

/// The states of the `own` bindings, by name.
pub type Snapshot = Seq<(Seq<char>, OwnershipState)>;

/// An error of the escape check: its code, message and position.
pub struct EscDiag {
    pub code: u16,
    pub msg: Seq<char>,
    pub span: Span,
}

/// `d` reports `e`.
pub open spec fn reports(d: Diagnostic, e: EscDiag) -> bool {
    &&& d.code == e.code
    &&& d.severity == Severity::Error
    &&& d.msg@ == e.msg
    &&& d.loc == DiagLoc::At(e.span)
}

/// `b` is `a` followed by reports of `ds`, in order.
pub open spec fn reported_after(a: Seq<Diagnostic>, b: Seq<Diagnostic>, ds: Seq<EscDiag>) -> bool {
    &&& b.len() == a.len() + ds.len()
    &&& b.subrange(0, a.len() as int) == a
    &&& forall|i: int| 0 <= i < ds.len() ==> reports(#[trigger] b[a.len() + i], ds[i])
}

pub proof fn lemma_reported_after_trans(
    a: Seq<Diagnostic>,
    b: Seq<Diagnostic>,
    c: Seq<Diagnostic>,
    d1: Seq<EscDiag>,
    d2: Seq<EscDiag>,
)
    requires
        reported_after(a, b, d1),
        reported_after(b, c, d2),
    ensures
        reported_after(a, c, d1 + d2),
{
    assert(c.subrange(0, a.len() as int) =~= a) by {
        assert forall|i: int| 0 <= i < a.len() implies c[i] == a[i] by {
            assert(c.subrange(0, b.len() as int)[i] == b[i]);
            assert(b.subrange(0, a.len() as int)[i] == a[i]);
        }
    }
    assert forall|i: int| 0 <= i < (d1 + d2).len() implies reports(#[trigger] c[a.len() + i], (d1 + d2)[i]) by {
        if i < d1.len() {
            assert(c.subrange(0, b.len() as int)[a.len() + i] == b[a.len() + i]);
            assert(reports(b[a.len() + i], d1[i]));
        } else {
            let k = i - d1.len();
            assert(reports(c[b.len() + k], d2[k]));
        }
    }
}

pub proof fn lemma_reported_after_none(a: Seq<Diagnostic>)
    ensures
        reported_after(a, a, Seq::empty()),
{
    assert(a.subrange(0, a.len() as int) =~= a);
}

/// The first name of a path expression, with the path's position.
pub open spec fn head_name(e: Expr) -> Option<(String, Span)> {
    match e {
        Expr::Path(segs, sp) => if segs@.len() > 0 {
            Some((segs@[0], sp))
        } else {
            None
        },
        _ => None,
    }
}

/// The depth of the innermost scope.
pub open spec fn depth_of(st: Scopes) -> usize {
    if st.len() > 0 {
        (st.len() - 1) as usize
    } else {
        0
    }
}

/// `st` with a binding added to its innermost scope.
pub open spec fn defined(st: Scopes, name: String, info: BindingInfo) -> Scopes {
    if st.len() > 0 {
        st.update(st.len() - 1, st.last().push((name, info)))
    } else {
        st
    }
}

/// `st` without its innermost scope; the outermost one stays.
pub open spec fn popped(st: Scopes) -> Scopes {
    if st.len() > 1 {
        st.drop_last()
    } else {
        st
    }
}

/// `st` after the `own` binding `name` refers to moves at `site`; other
/// bindings do not move.
pub open spec fn moved(st: Scopes, name: Seq<char>, site: Span) -> Scopes {
    match locate(st, name) {
        Some((i, j)) => if st[i][j].1.kind == BindingKind::Own {
            with_state(st, i, j, OwnershipState::Moved(site))
        } else {
            st
        },
        None => st,
    }
}

pub open spec fn use_after_move_msg(name: Seq<char>, site: Span) -> Seq<char> {
    "'"@ + name + "' 在移动后被使用（首次移动位置：偏移 "@ + decimal(site.lo as nat) + "）"@
}

pub open spec fn escapes_to_return_msg(name: Seq<char>) -> Seq<char> {
    "借用指针 '"@ + name + "' 不能作为返回值逃逸"@
}

pub open spec fn escapes_to_heap_msg(name: Seq<char>) -> Seq<char> {
    "借用指针 '"@ + name + "' 不能存入结构体字段（可能逃逸到堆）"@
}

/// A use of `name` at `span`: an error where it names an `own` binding
/// that has moved.
pub open spec fn use_diags(st: Scopes, name: Seq<char>, span: Span) -> Seq<EscDiag> {
    match locate(st, name) {
        Some((i, j)) => if st[i][j].1.kind == BindingKind::Own && st[i][j].1.state is Moved {
            seq![EscDiag { code: 5001, msg: use_after_move_msg(name, st[i][j].1.state->Moved_0), span }]
        } else {
            Seq::empty()
        },
        None => Seq::empty(),
    }
}

/// `st` with each of `names` bound as a plain binding at depth `d`.
pub open spec fn bind_plain(st: Scopes, names: Seq<String>, d: usize) -> Scopes
    decreases names.len(),
{
    if names.len() == 0 {
        st
    } else {
        defined(
            bind_plain(st, names.drop_last(), d),
            names.last(),
            BindingInfo { kind: BindingKind::Plain, state: OwnershipState::Live, depth: d },
        )
    }
}

/// `st` with an arm's pattern names bound as plain bindings.
pub open spec fn arm_bound(st: Scopes, p: Pattern) -> Scopes {
    match p {
        Pattern::Bind(name, _) => defined(
            st,
            name,
            BindingInfo { kind: BindingKind::Plain, state: OwnershipState::Live, depth: depth_of(st) },
        ),
        Pattern::Variant { bindings, .. } => bind_plain(st, bindings@, depth_of(st)),
        _ => st,
    }
}

/// `st` after every binding that `snap` records as moved moves at `site`.
pub open spec fn join_one(st: Scopes, snap: Snapshot, site: Span) -> Scopes
    decreases snap.len(),
{
    if snap.len() == 0 {
        st
    } else {
        let before = join_one(st, snap.drop_last(), site);
        if snap.last().1 is Moved {
            moved(before, snap.last().0, site)
        } else {
            before
        }
    }
}

/// `st` after joining the states every arm of a branch ended in.
pub open spec fn join_all(st: Scopes, snaps: Seq<Snapshot>, site: Span) -> Scopes
    decreases snaps.len(),
{
    if snaps.len() == 0 {
        st
    } else {
        join_one(join_all(st, snaps.drop_last(), site), snaps.last(), site)
    }
}

/// Checking `e` from the bindings `st`: the bindings after, and the errors.
pub open spec fn esc_expr(st: Scopes, e: Expr) -> (Scopes, Seq<EscDiag>)
    decreases e, 2int, 0int,
{
    match e {
        Expr::Block { stmts, .. } => {
            let r = esc_stmts(st.push(Seq::empty()), e, stmts@.len() as int);
            (popped(r.0), r.1)
        },
        Expr::Ret(Some(v), span) => {
            let r = esc_expr(st, *v);
            match head_name(*v) {
                Some((n, _)) => if local_borrow(r.0, n@) {
                    (r.0, r.1.push(EscDiag { code: 5003, msg: escapes_to_return_msg(n@), span }))
                } else {
                    r
                },
                None => r,
            }
        },
        Expr::Call { callee, args, .. } => {
            let r = esc_expr(st, *callee);
            let a = esc_args(r.0, e, args@.len() as int);
            (a.0, r.1 + a.1)
        },
        Expr::Path(segs, span) => if segs@.len() > 0 {
            (st, use_diags(st, segs@[0]@, span))
        } else {
            (st, Seq::empty())
        },
        Expr::Binary { lhs, rhs, .. } => {
            let r1 = esc_expr(st, *lhs);
            let r2 = esc_expr(r1.0, *rhs);
            (r2.0, r1.1 + r2.1)
        },
        Expr::Unary { operand, .. } => esc_expr(st, *operand),
        Expr::Field { base, .. } => esc_expr(st, *base),
        Expr::Index { base, index, .. } => {
            let r1 = esc_expr(st, *base);
            let r2 = esc_expr(r1.0, *index);
            (r2.0, r1.1 + r2.1)
        },
        Expr::Deref(inner, _) => esc_expr(st, *inner),
        Expr::Propagate(inner, _) => esc_expr(st, *inner),
        Expr::Jmp { target, .. } => match target {
            Some(t) => esc_expr(st, *t),
            None => (st, Seq::empty()),
        },
        Expr::Loop { subject, body, .. } => {
            let r1 = match subject {
                Some(sj) => esc_expr(st, *sj),
                None => (st, Seq::empty()),
            };
            let r2 = esc_expr(r1.0, *body);
            (r2.0, r1.1 + r2.1)
        },
        Expr::Branch { scrutinee, arms, span } => {
            let r0 = match scrutinee {
                Some(sc) => esc_expr(st, *sc),
                None => (st, Seq::empty()),
            };
            let base = own_states(r0.0);
            let a = esc_arms(r0.0, base, e, arms@.len() as int);
            (join_all(restored(a.0, base), a.1, span), r0.1 + a.2)
        },
        _ => (st, Seq::empty()),
    }
}

/// The first `i` arguments of the call `e`: each is checked, then a path
/// argument is a use of its name, and moves it.
pub open spec fn esc_args(st: Scopes, e: Expr, i: int) -> (Scopes, Seq<EscDiag>)
    decreases e, 1int, i,
{
    match e {
        Expr::Call { args, .. } => if 0 < i <= args@.len() {
            proof {
                assert(decreases_to!(e => args@[i - 1]));
            }
            let r = esc_args(st, e, i - 1);
            let x = esc_expr(r.0, args@[i - 1]);
            match head_name(args@[i - 1]) {
                Some((n, sp)) => (moved(x.0, n@, sp), r.1 + x.1 + use_diags(x.0, n@, sp)),
                None => (x.0, r.1 + x.1),
            }
        } else {
            (st, Seq::empty())
        },
        _ => (st, Seq::empty()),
    }
}

/// The first `i` statements of the block `e`.
pub open spec fn esc_stmts(st: Scopes, e: Expr, i: int) -> (Scopes, Seq<EscDiag>)
    decreases e, 1int, i,
{
    match e {
        Expr::Block { stmts, .. } => if 0 < i <= stmts@.len() {
            proof {
                assert(decreases_to!(e => stmts@[i - 1]));
            }
            let r = esc_stmts(st, e, i - 1);
            let x = esc_stmt(r.0, stmts@[i - 1]);
            (x.0, r.1 + x.1)
        } else {
            (st, Seq::empty())
        },
        _ => (st, Seq::empty()),
    }
}

/// The first `i` arms of the branch `e`, each checked from the states of
/// `base`, in a scope of its own: the bindings after the last, the states
/// each ended in, and the errors.
pub open spec fn esc_arms(st: Scopes, base: Snapshot, e: Expr, i: int) -> (Scopes, Seq<Snapshot>, Seq<EscDiag>)
    decreases e, 1int, i,
{
    match e {
        Expr::Branch { arms, .. } => if 0 < i <= arms@.len() {
            proof {
                assert(decreases_to!(e => arms@[i - 1]));
            }
            let r = esc_arms(st, base, e, i - 1);
            let entered = arm_bound(restored(r.0, base).push(Seq::empty()), arms@[i - 1].pattern);
            let x = esc_expr(entered, arms@[i - 1].body);
            let after = popped(x.0);
            (after, r.1.push(own_states(after)), r.2 + x.1)
        } else {
            (st, Seq::empty(), Seq::empty())
        },
        _ => (st, Seq::empty(), Seq::empty()),
    }
}

/// Checking one statement.
pub open spec fn esc_stmt(st: Scopes, s: Stmt) -> (Scopes, Seq<EscDiag>)
    decreases s, 3int, 0int,
{
    match s {
        Stmt::Let { name, ty, init, .. } => {
            let r = esc_expr(st, init);
            let after = match head_name(init) {
                Some((src, sp)) => moved(r.0, src@, sp),
                None => r.0,
            };
            (
                defined(
                    after,
                    name,
                    BindingInfo { kind: let_kind(ty), state: OwnershipState::Live, depth: depth_of(after) },
                ),
                r.1,
            )
        },
        Stmt::Assign { target, value, span } => {
            let r = esc_expr(st, value);
            let d = match head_name(value) {
                Some((n, _)) => if target is Field && local_borrow(r.0, n@) {
                    seq![EscDiag { code: 5002, msg: escapes_to_heap_msg(n@), span }]
                } else {
                    Seq::empty()
                },
                None => Seq::empty(),
            };
            let t = esc_expr(r.0, target);
            (t.0, r.1 + d + t.1)
        },
        Stmt::Defer(x, _) => esc_expr(st, x),
        Stmt::Expr(x) => esc_expr(st, x),
    }
}

/// The bindings a function's body starts from: its parameters, at depth 0.
pub open spec fn param_scopes(params: Seq<Param>) -> Scopes
    decreases params.len(),
{
    if params.len() == 0 {
        seq![Seq::empty()]
    } else {
        defined(
            param_scopes(params.drop_last()),
            params.last().name,
            BindingInfo { kind: kind_of_type(params.last().ty), state: OwnershipState::Live, depth: 0 },
        )
    }
}

/// The errors of one function.
pub open spec fn func_diags(f: Func) -> Seq<EscDiag> {
    esc_expr(param_scopes(f.params@), f.body).1
}

/// The errors of a module's functions, in order.
pub open spec fn module_diags(items: Seq<Item>) -> Seq<EscDiag>
    decreases items.len(),
{
    if items.len() == 0 {
        Seq::empty()
    } else {
        module_diags(items.drop_last()) + match items.last() {
            Item::Func(f) => func_diags(f),
            _ => Seq::empty(),
        }
    }
}

} // verus!
