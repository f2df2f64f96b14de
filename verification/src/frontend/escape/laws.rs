//! What the escape rules promise of a branch: each arm is checked from the
//! ownership states the bindings had before the branch, so a move in one
//! arm is never seen by a sibling arm.

use super::context::{
    latest_in, locate, own_states, own_states_in, restored, with_state, BindingInfo, BindingKind, OwnershipState,
};
use super::rules::{
    arm_bound, bind_plain, defined, depth_of, esc_args, esc_arms, esc_expr, esc_stmt, esc_stmts, join_all, join_one,
    moved, popped, use_diags, EscDiag, Scopes, Snapshot,
};
use super::checker::local_borrow;
use crate::frontend::ast::{Expr, Pattern, Stmt};
use vstd::prelude::*;

verus! {

/// Two bindings with the same name, kind and depth; with `states`, an
/// `own` binding also in the same state.
pub open spec fn same_binding(x: (String, BindingInfo), y: (String, BindingInfo), states: bool) -> bool {
    &&& x.0 == y.0
    &&& x.1.kind == y.1.kind
    &&& x.1.depth == y.1.depth
    &&& (states && x.1.kind == BindingKind::Own ==> x.1.state == y.1.state)
}

/// Two stacks of scopes that hold the same bindings, position by position.
pub open spec fn same_scopes(a: Scopes, b: Scopes, states: bool) -> bool {
    &&& a.len() == b.len()
    &&& forall|i: int| 0 <= i < a.len() ==> (#[trigger] a[i]).len() == b[i].len()
    &&& forall|i: int, j: int|
        0 <= i < a.len() && 0 <= j < a[i].len() ==> same_binding(#[trigger] a[i][j], b[i][j], states)
}

/// `r` holds the bindings of `a`, and perhaps more at the end of its
/// innermost scope.
pub open spec fn extends_last(r: Scopes, a: Scopes) -> bool {
    &&& r.len() == a.len()
    &&& forall|i: int| 0 <= i < a.len() - 1 ==> (#[trigger] r[i]).len() == a[i].len()
    &&& forall|i: int| 0 <= i < a.len() ==> (#[trigger] r[i]).len() >= a[i].len()
    &&& forall|i: int, j: int|
        0 <= i < a.len() && 0 <= j < a[i].len() ==> same_binding(#[trigger] r[i][j], a[i][j], false)
}

/// No two bindings share a name.
pub open spec fn distinct_names(st: Scopes) -> bool {
    forall|i1: int, j1: int, i2: int, j2: int|
        0 <= i1 < st.len() && 0 <= j1 < st[i1].len() && 0 <= i2 < st.len() && 0 <= j2 < st[i2].len() && (
        #[trigger] st[i1][j1]).0@ == (#[trigger] st[i2][j2]).0@ ==> i1 == i2 && j1 == j2
}

pub proof fn lemma_same_scopes_refl(a: Scopes, states: bool)
    ensures
        same_scopes(a, a, states),
{
}

pub proof fn lemma_same_scopes_sym(a: Scopes, b: Scopes, states: bool)
    requires
        same_scopes(a, b, states),
    ensures
        same_scopes(b, a, states),
{
    assert forall|i: int, j: int| 0 <= i < b.len() && 0 <= j < b[i].len() implies same_binding(
        #[trigger] b[i][j],
        a[i][j],
        states,
    ) by {
        assert(same_binding(a[i][j], b[i][j], states));
    }
}

pub proof fn lemma_same_scopes_trans(a: Scopes, b: Scopes, c: Scopes, states: bool)
    requires
        same_scopes(a, b, states),
        same_scopes(b, c, states),
    ensures
        same_scopes(a, c, states),
{
    assert forall|i: int, j: int| 0 <= i < a.len() && 0 <= j < a[i].len() implies same_binding(
        #[trigger] a[i][j],
        c[i][j],
        states,
    ) by {
        assert(same_binding(a[i][j], b[i][j], states));
        assert(same_binding(b[i][j], c[i][j], states));
    }
}

/// Agreeing in states implies agreeing in shape.
pub proof fn lemma_same_scopes_shape(a: Scopes, b: Scopes)
    requires
        same_scopes(a, b, true),
    ensures
        same_scopes(a, b, false),
{
    assert forall|i: int, j: int| 0 <= i < a.len() && 0 <= j < a[i].len() implies same_binding(
        #[trigger] a[i][j],
        b[i][j],
        false,
    ) by {
        assert(same_binding(a[i][j], b[i][j], true));
    }
}

proof fn lemma_latest_in_same(a: Seq<(String, BindingInfo)>, b: Seq<(String, BindingInfo)>, n: Seq<char>)
    requires
        a.len() == b.len(),
        forall|j: int| 0 <= j < a.len() ==> (#[trigger] a[j]).0 == b[j].0,
    ensures
        latest_in(a, n) == latest_in(b, n),
    decreases a.len(),
{
    if a.len() > 0 {
        lemma_latest_in_same(a.drop_last(), b.drop_last(), n);
    }
}

/// The same names locate the same binding.
pub proof fn lemma_locate_same(a: Scopes, b: Scopes, states: bool, n: Seq<char>)
    requires
        same_scopes(a, b, states),
    ensures
        locate(a, n) == locate(b, n),
    decreases a.len(),
{
    if a.len() > 0 {
        let k = a.len() - 1;
        assert forall|j: int| 0 <= j < a.last().len() implies (#[trigger] a.last()[j]).0 == b.last()[j].0 by {
            assert(same_binding(a[k][j], b[k][j], states));
        }
        lemma_latest_in_same(a.last(), b.last(), n);
        assert(same_scopes(a.drop_last(), b.drop_last(), states)) by {
            assert forall|i: int, j: int|
                0 <= i < a.drop_last().len() && 0 <= j < a.drop_last()[i].len() implies same_binding(
                #[trigger] a.drop_last()[i][j],
                b.drop_last()[i][j],
                states,
            ) by {
                assert(same_binding(a[i][j], b[i][j], states));
            }
        }
        lemma_locate_same(a.drop_last(), b.drop_last(), states, n);
    }
}

/// Changing one binding's state keeps the shape, and keeps agreement when
/// both sides change the same binding to the same state.
pub proof fn lemma_with_state(a: Scopes, b: Scopes, states: bool, i: int, j: int, x: OwnershipState)
    requires
        same_scopes(a, b, states),
        0 <= i < a.len(),
        0 <= j < a[i].len(),
    ensures
        same_scopes(with_state(a, i, j, x), with_state(b, i, j, x), states),
        same_scopes(with_state(a, i, j, x), a, false),
{
    let wa = with_state(a, i, j, x);
    let wb = with_state(b, i, j, x);
    assert(same_binding(a[i][j], b[i][j], states));
    assert forall|p: int, q: int| 0 <= p < wa.len() && 0 <= q < wa[p].len() implies same_binding(
        #[trigger] wa[p][q],
        wb[p][q],
        states,
    ) by {
        assert(same_binding(a[p][q], b[p][q], states));
    }
    assert forall|p: int, q: int| 0 <= p < wa.len() && 0 <= q < wa[p].len() implies same_binding(
        #[trigger] wa[p][q],
        a[p][q],
        false,
    ) by {}
}

pub proof fn lemma_moved(a: Scopes, b: Scopes, n: Seq<char>, site: crate::diag::Span)
    requires
        same_scopes(a, b, true),
    ensures
        same_scopes(moved(a, n, site), moved(b, n, site), true),
        same_scopes(moved(a, n, site), a, false),
{
    lemma_locate_same(a, b, true, n);
    super::context::lemma_locate(a, n);
    match locate(a, n) {
        Some((i, j)) => {
            assert(same_binding(a[i][j], b[i][j], true));
            lemma_with_state(a, b, true, i, j, OwnershipState::Moved(site));
        },
        None => {
            lemma_same_scopes_refl(a, false);
        },
    }
}

pub proof fn lemma_use_diags(a: Scopes, b: Scopes, n: Seq<char>, span: crate::diag::Span)
    requires
        same_scopes(a, b, true),
    ensures
        use_diags(a, n, span) == use_diags(b, n, span),
{
    lemma_locate_same(a, b, true, n);
    super::context::lemma_locate(a, n);
    match locate(a, n) {
        Some((i, j)) => {
            assert(same_binding(a[i][j], b[i][j], true));
        },
        None => {},
    }
}

pub proof fn lemma_local_borrow(a: Scopes, b: Scopes, states: bool, n: Seq<char>)
    requires
        same_scopes(a, b, states),
    ensures
        local_borrow(a, n) == local_borrow(b, n),
{
    lemma_locate_same(a, b, states, n);
    super::context::lemma_locate(a, n);
    match locate(a, n) {
        Some((i, j)) => {
            assert(same_binding(a[i][j], b[i][j], states));
        },
        None => {},
    }
}

proof fn lemma_own_states_in(a: Seq<(String, BindingInfo)>, b: Seq<(String, BindingInfo)>)
    requires
        a.len() == b.len(),
        forall|j: int| 0 <= j < a.len() ==> same_binding(#[trigger] a[j], b[j], true),
    ensures
        own_states_in(a) == own_states_in(b),
    decreases a.len(),
{
    if a.len() > 0 {
        lemma_own_states_in(a.drop_last(), b.drop_last());
        assert(same_binding(a[a.len() - 1], b[b.len() - 1], true));
    }
}

/// Agreeing stacks have the same ownership states.
pub proof fn lemma_own_states(a: Scopes, b: Scopes)
    requires
        same_scopes(a, b, true),
    ensures
        own_states(a) == own_states(b),
    decreases a.len(),
{
    if a.len() > 0 {
        let k = a.len() - 1;
        assert forall|j: int| 0 <= j < a.last().len() implies same_binding(#[trigger] a.last()[j], b.last()[j], true) by {
            assert(same_binding(a[k][j], b[k][j], true));
        }
        lemma_own_states_in(a.last(), b.last());
        assert(same_scopes(a.drop_last(), b.drop_last(), true)) by {
            assert forall|i: int, j: int|
                0 <= i < a.drop_last().len() && 0 <= j < a.drop_last()[i].len() implies same_binding(
                #[trigger] a.drop_last()[i][j],
                b.drop_last()[i][j],
                true,
            ) by {
                assert(same_binding(a[i][j], b[i][j], true));
            }
        }
        lemma_own_states(a.drop_last(), b.drop_last());
    }
}

/// Restoring the same snapshot keeps agreement and shape.
pub proof fn lemma_restored(a: Scopes, b: Scopes, snap: Snapshot)
    requires
        same_scopes(a, b, true),
    ensures
        same_scopes(restored(a, snap), restored(b, snap), true),
        same_scopes(restored(a, snap), a, false),
    decreases snap.len(),
{
    if snap.len() == 0 {
        lemma_same_scopes_refl(a, false);
    } else {
        lemma_restored(a, b, snap.drop_last());
        let ra = restored(a, snap.drop_last());
        let rb = restored(b, snap.drop_last());
        lemma_locate_same(ra, rb, true, snap.last().0);
        super::context::lemma_locate(ra, snap.last().0);
        match locate(ra, snap.last().0) {
            Some((i, j)) => {
                lemma_with_state(ra, rb, true, i, j, snap.last().1);
                lemma_same_scopes_trans(with_state(ra, i, j, snap.last().1), ra, a, false);
            },
            None => {},
        }
    }
}

pub proof fn lemma_join_one(a: Scopes, b: Scopes, snap: Snapshot, site: crate::diag::Span)
    requires
        same_scopes(a, b, true),
    ensures
        same_scopes(join_one(a, snap, site), join_one(b, snap, site), true),
        same_scopes(join_one(a, snap, site), a, false),
    decreases snap.len(),
{
    if snap.len() == 0 {
        lemma_same_scopes_refl(a, false);
    } else {
        lemma_join_one(a, b, snap.drop_last(), site);
        let ja = join_one(a, snap.drop_last(), site);
        let jb = join_one(b, snap.drop_last(), site);
        if snap.last().1 is Moved {
            lemma_moved(ja, jb, snap.last().0, site);
            lemma_same_scopes_trans(moved(ja, snap.last().0, site), ja, a, false);
        }
    }
}

pub proof fn lemma_join_all(a: Scopes, b: Scopes, snaps: Seq<Snapshot>, site: crate::diag::Span)
    requires
        same_scopes(a, b, true),
    ensures
        same_scopes(join_all(a, snaps, site), join_all(b, snaps, site), true),
        same_scopes(join_all(a, snaps, site), a, false),
    decreases snaps.len(),
{
    if snaps.len() == 0 {
        lemma_same_scopes_refl(a, false);
    } else {
        lemma_join_all(a, b, snaps.drop_last(), site);
        let ja = join_all(a, snaps.drop_last(), site);
        let jb = join_all(b, snaps.drop_last(), site);
        lemma_join_one(ja, jb, snaps.last(), site);
        lemma_same_scopes_trans(join_one(ja, snaps.last(), site), ja, a, false);
    }
}

pub proof fn lemma_defined(a: Scopes, b: Scopes, n: String, info: BindingInfo)
    requires
        same_scopes(a, b, true),
    ensures
        same_scopes(defined(a, n, info), defined(b, n, info), true),
        extends_last(defined(a, n, info), a),
{
    let da = defined(a, n, info);
    let db = defined(b, n, info);
    if a.len() > 0 {
        let k = a.len() - 1;
        assert forall|i: int, j: int| 0 <= i < da.len() && 0 <= j < da[i].len() implies same_binding(
            #[trigger] da[i][j],
            db[i][j],
            true,
        ) by {
            if !(i == k && j == a[k].len()) {
                assert(same_binding(a[i][j], b[i][j], true));
            }
        }
    }
}

pub proof fn lemma_push(a: Scopes, b: Scopes, states: bool)
    requires
        same_scopes(a, b, states),
    ensures
        same_scopes(a.push(Seq::empty()), b.push(Seq::empty()), states),
{
    let pa = a.push(Seq::<(String, BindingInfo)>::empty());
    let pb = b.push(Seq::<(String, BindingInfo)>::empty());
    assert forall|i: int, j: int| 0 <= i < pa.len() && 0 <= j < pa[i].len() implies same_binding(
        #[trigger] pa[i][j],
        pb[i][j],
        states,
    ) by {
        assert(same_binding(a[i][j], b[i][j], states));
    }
}

pub proof fn lemma_popped(a: Scopes, b: Scopes, states: bool)
    requires
        same_scopes(a, b, states),
    ensures
        same_scopes(popped(a), popped(b), states),
{
    if a.len() > 1 {
        let pa = a.drop_last();
        let pb = b.drop_last();
        assert forall|i: int, j: int| 0 <= i < pa.len() && 0 <= j < pa[i].len() implies same_binding(
            #[trigger] pa[i][j],
            pb[i][j],
            states,
        ) by {
            assert(same_binding(a[i][j], b[i][j], states));
        }
    }
}

pub proof fn lemma_bind_plain(a: Scopes, b: Scopes, names: Seq<String>, d: usize)
    requires
        same_scopes(a, b, true),
    ensures
        same_scopes(bind_plain(a, names, d), bind_plain(b, names, d), true),
    decreases names.len(),
{
    if names.len() > 0 {
        lemma_bind_plain(a, b, names.drop_last(), d);
        lemma_defined(
            bind_plain(a, names.drop_last(), d),
            bind_plain(b, names.drop_last(), d),
            names.last(),
            BindingInfo { kind: BindingKind::Plain, state: OwnershipState::Live, depth: d },
        );
    }
}

pub proof fn lemma_arm_bound(a: Scopes, b: Scopes, p: Pattern)
    requires
        same_scopes(a, b, true),
    ensures
        same_scopes(arm_bound(a, p), arm_bound(b, p), true),
{
    match p {
        Pattern::Bind(name, _) => lemma_defined(
            a,
            b,
            name,
            BindingInfo { kind: BindingKind::Plain, state: OwnershipState::Live, depth: depth_of(a) },
        ),
        Pattern::Variant { bindings, .. } => lemma_bind_plain(a, b, bindings@, depth_of(a)),
        _ => {},
    }
}

/// Checking an expression from agreeing bindings reports the same errors
/// and ends in agreeing bindings: states of bindings that are not `own`
/// never matter.
pub proof fn lemma_esc_agree(a: Scopes, b: Scopes, e: Expr)
    requires
        same_scopes(a, b, true),
    ensures
        esc_expr(a, e).1 == esc_expr(b, e).1,
        same_scopes(esc_expr(a, e).0, esc_expr(b, e).0, true),
    decreases e, 2int, 0int,
{
    match e {
        Expr::Block { stmts, .. } => {
            lemma_push(a, b, true);
            lemma_stmts_agree(a.push(Seq::empty()), b.push(Seq::empty()), e, stmts@.len() as int);
            lemma_popped(
                esc_stmts(a.push(Seq::empty()), e, stmts@.len() as int).0,
                esc_stmts(b.push(Seq::empty()), e, stmts@.len() as int).0,
                true,
            );
        },
        Expr::Ret(Some(v), span) => {
            lemma_esc_agree(a, b, *v);
            match head_name_of(*v) {
                Some(n) => lemma_local_borrow(esc_expr(a, *v).0, esc_expr(b, *v).0, true, n@),
                None => {},
            }
        },
        Expr::Call { callee, args, .. } => {
            lemma_esc_agree(a, b, *callee);
            lemma_args_agree(esc_expr(a, *callee).0, esc_expr(b, *callee).0, e, args@.len() as int);
        },
        Expr::Path(segs, span) => {
            if segs@.len() > 0 {
                lemma_use_diags(a, b, segs@[0]@, span);
            }
        },
        Expr::Binary { lhs, rhs, .. } => {
            lemma_esc_agree(a, b, *lhs);
            lemma_esc_agree(esc_expr(a, *lhs).0, esc_expr(b, *lhs).0, *rhs);
        },
        Expr::Unary { operand, .. } => lemma_esc_agree(a, b, *operand),
        Expr::Field { base, .. } => lemma_esc_agree(a, b, *base),
        Expr::Index { base, index, .. } => {
            lemma_esc_agree(a, b, *base);
            lemma_esc_agree(esc_expr(a, *base).0, esc_expr(b, *base).0, *index);
        },
        Expr::Deref(inner, _) => lemma_esc_agree(a, b, *inner),
        Expr::Propagate(inner, _) => lemma_esc_agree(a, b, *inner),
        Expr::Jmp { target, .. } => match target {
            Some(t) => lemma_esc_agree(a, b, *t),
            None => {},
        },
        Expr::Loop { subject, body, .. } => {
            match subject {
                Some(sj) => lemma_esc_agree(a, b, *sj),
                None => {},
            }
            let ra = match subject {
                Some(sj) => esc_expr(a, *sj).0,
                None => a,
            };
            let rb = match subject {
                Some(sj) => esc_expr(b, *sj).0,
                None => b,
            };
            lemma_esc_agree(ra, rb, *body);
        },
        Expr::Branch { scrutinee, arms, span } => {
            match scrutinee {
                Some(sc) => lemma_esc_agree(a, b, *sc),
                None => {},
            }
            let ra = match scrutinee {
                Some(sc) => esc_expr(a, *sc).0,
                None => a,
            };
            let rb = match scrutinee {
                Some(sc) => esc_expr(b, *sc).0,
                None => b,
            };
            lemma_own_states(ra, rb);
            let base = own_states(ra);
            lemma_arms_agree(ra, rb, base, e, arms@.len() as int);
            let xa = esc_arms(ra, base, e, arms@.len() as int);
            let xb = esc_arms(rb, base, e, arms@.len() as int);
            lemma_restored(xa.0, xb.0, base);
            lemma_join_all(restored(xa.0, base), restored(xb.0, base), xa.1, span);
        },
        _ => {},
    }
}

/// The name a path expression starts with.
pub open spec fn head_name_of(e: Expr) -> Option<String> {
    match super::rules::head_name(e) {
        Some((n, _)) => Some(n),
        None => None,
    }
}

pub proof fn lemma_args_agree(a: Scopes, b: Scopes, e: Expr, i: int)
    requires
        same_scopes(a, b, true),
    ensures
        esc_args(a, e, i).1 == esc_args(b, e, i).1,
        same_scopes(esc_args(a, e, i).0, esc_args(b, e, i).0, true),
    decreases e, 1int, i,
{
    match e {
        Expr::Call { args, .. } => if 0 < i <= args@.len() {
            assert(decreases_to!(e => args@[i - 1]));
            lemma_args_agree(a, b, e, i - 1);
            let ra = esc_args(a, e, i - 1).0;
            let rb = esc_args(b, e, i - 1).0;
            lemma_esc_agree(ra, rb, args@[i - 1]);
            let xa = esc_expr(ra, args@[i - 1]).0;
            let xb = esc_expr(rb, args@[i - 1]).0;
            match super::rules::head_name(args@[i - 1]) {
                Some((n, sp)) => {
                    lemma_moved(xa, xb, n@, sp);
                    lemma_use_diags(xa, xb, n@, sp);
                },
                None => {},
            }
        },
        _ => {},
    }
}

pub proof fn lemma_stmts_agree(a: Scopes, b: Scopes, e: Expr, i: int)
    requires
        same_scopes(a, b, true),
    ensures
        esc_stmts(a, e, i).1 == esc_stmts(b, e, i).1,
        same_scopes(esc_stmts(a, e, i).0, esc_stmts(b, e, i).0, true),
    decreases e, 1int, i,
{
    match e {
        Expr::Block { stmts, .. } => if 0 < i <= stmts@.len() {
            assert(decreases_to!(e => stmts@[i - 1]));
            lemma_stmts_agree(a, b, e, i - 1);
            lemma_stmt_agree(esc_stmts(a, e, i - 1).0, esc_stmts(b, e, i - 1).0, stmts@[i - 1]);
        },
        _ => {},
    }
}

pub proof fn lemma_arms_agree(a: Scopes, b: Scopes, base: Snapshot, e: Expr, i: int)
    requires
        same_scopes(a, b, true),
    ensures
        esc_arms(a, base, e, i).2 == esc_arms(b, base, e, i).2,
        esc_arms(a, base, e, i).1 == esc_arms(b, base, e, i).1,
        same_scopes(esc_arms(a, base, e, i).0, esc_arms(b, base, e, i).0, true),
    decreases e, 1int, i,
{
    match e {
        Expr::Branch { arms, .. } => if 0 < i <= arms@.len() {
            assert(decreases_to!(e => arms@[i - 1]));
            lemma_arms_agree(a, b, base, e, i - 1);
            let ra = esc_arms(a, base, e, i - 1).0;
            let rb = esc_arms(b, base, e, i - 1).0;
            lemma_restored(ra, rb, base);
            lemma_push(restored(ra, base), restored(rb, base), true);
            lemma_arm_bound(
                restored(ra, base).push(Seq::empty()),
                restored(rb, base).push(Seq::empty()),
                arms@[i - 1].pattern,
            );
            let ea = arm_bound(restored(ra, base).push(Seq::empty()), arms@[i - 1].pattern);
            let eb = arm_bound(restored(rb, base).push(Seq::empty()), arms@[i - 1].pattern);
            lemma_esc_agree(ea, eb, arms@[i - 1].body);
            lemma_popped(esc_expr(ea, arms@[i - 1].body).0, esc_expr(eb, arms@[i - 1].body).0, true);
            lemma_own_states(popped(esc_expr(ea, arms@[i - 1].body).0), popped(esc_expr(eb, arms@[i - 1].body).0));
        },
        _ => {},
    }
}

pub proof fn lemma_stmt_agree(a: Scopes, b: Scopes, s: Stmt)
    requires
        same_scopes(a, b, true),
    ensures
        esc_stmt(a, s).1 == esc_stmt(b, s).1,
        same_scopes(esc_stmt(a, s).0, esc_stmt(b, s).0, true),
    decreases s, 3int, 0int,
{
    match s {
        Stmt::Let { name, ty, init, .. } => {
            lemma_esc_agree(a, b, init);
            let ra = esc_expr(a, init).0;
            let rb = esc_expr(b, init).0;
            let (aa, ab) = match super::rules::head_name(init) {
                Some((src, sp)) => {
                    lemma_moved(ra, rb, src@, sp);
                    (moved(ra, src@, sp), moved(rb, src@, sp))
                },
                None => (ra, rb),
            };
            assert(depth_of(aa) == depth_of(ab));
            lemma_defined(
                aa,
                ab,
                name,
                BindingInfo { kind: super::checker::let_kind(ty), state: OwnershipState::Live, depth: depth_of(aa) },
            );
        },
        Stmt::Assign { target, value, span } => {
            lemma_esc_agree(a, b, value);
            let ra = esc_expr(a, value).0;
            let rb = esc_expr(b, value).0;
            match super::rules::head_name(value) {
                Some((n, _)) => lemma_local_borrow(ra, rb, true, n@),
                None => {},
            }
            lemma_esc_agree(ra, rb, target);
        },
        Stmt::Defer(x, _) => lemma_esc_agree(a, b, x),
        Stmt::Expr(x) => lemma_esc_agree(a, b, x),
    }
}

pub proof fn lemma_ext_trans(x: Scopes, y: Scopes, z: Scopes)
    requires
        extends_last(x, y),
        extends_last(y, z),
    ensures
        extends_last(x, z),
{
    assert forall|i: int, j: int| 0 <= i < z.len() && 0 <= j < z[i].len() implies same_binding(
        #[trigger] x[i][j],
        z[i][j],
        false,
    ) by {
        assert(same_binding(y[i][j], z[i][j], false));
        assert(same_binding(x[i][j], y[i][j], false));
    }
}

pub proof fn lemma_same_ext(x: Scopes, y: Scopes)
    requires
        same_scopes(x, y, false),
    ensures
        extends_last(x, y),
{
    assert forall|i: int, j: int| 0 <= i < y.len() && 0 <= j < y[i].len() implies same_binding(
        #[trigger] x[i][j],
        y[i][j],
        false,
    ) by {
        assert(same_binding(x[i][j], y[i][j], false));
    }
}

pub proof fn lemma_ext_pop(x: Scopes, y: Scopes)
    requires
        extends_last(x, y.push(Seq::empty())),
        y.len() > 0,
    ensures
        same_scopes(popped(x), y, false),
{
    let py = y.push(Seq::<(String, BindingInfo)>::empty());
    if x.len() > 1 {
        let d = x.drop_last();
        assert forall|i: int| 0 <= i < d.len() implies (#[trigger] d[i]).len() == y[i].len() by {
            assert(py[i] == y[i]);
        }
        assert forall|i: int, j: int| 0 <= i < d.len() && 0 <= j < d[i].len() implies same_binding(
            #[trigger] d[i][j],
            y[i][j],
            false,
        ) by {
            assert(py[i] == y[i]);
            assert(same_binding(x[i][j], py[i][j], false));
        }
    }
}

pub proof fn lemma_bind_plain_shape(a: Scopes, names: Seq<String>, d: usize)
    requires
        a.len() > 0,
    ensures
        extends_last(bind_plain(a, names, d), a),
    decreases names.len(),
{
    if names.len() == 0 {
        lemma_same_ext(a, a);
    } else {
        lemma_bind_plain_shape(a, names.drop_last(), d);
        let x = bind_plain(a, names.drop_last(), d);
        lemma_same_scopes_refl(x, true);
        lemma_defined(
            x,
            x,
            names.last(),
            BindingInfo { kind: BindingKind::Plain, state: OwnershipState::Live, depth: d },
        );
        lemma_ext_trans(bind_plain(a, names, d), x, a);
    }
}

pub proof fn lemma_arm_bound_shape(a: Scopes, p: Pattern)
    requires
        a.len() > 0,
    ensures
        extends_last(arm_bound(a, p), a),
{
    lemma_same_scopes_refl(a, true);
    match p {
        Pattern::Bind(name, _) => lemma_defined(
            a,
            a,
            name,
            BindingInfo { kind: BindingKind::Plain, state: OwnershipState::Live, depth: depth_of(a) },
        ),
        Pattern::Variant { bindings, .. } => lemma_bind_plain_shape(a, bindings@, depth_of(a)),
        _ => lemma_same_ext(a, a),
    }
}

/// Checking an expression changes only the states of the bindings in
/// scope: the bindings themselves stay as they were.
pub proof fn lemma_esc_shape(a: Scopes, e: Expr)
    requires
        a.len() > 0,
    ensures
        same_scopes(esc_expr(a, e).0, a, false),
    decreases e, 2int, 0int,
{
    lemma_same_scopes_refl(a, false);
    match e {
        Expr::Block { stmts, .. } => {
            lemma_stmts_shape(a.push(Seq::empty()), e, stmts@.len() as int);
            lemma_ext_pop(esc_stmts(a.push(Seq::empty()), e, stmts@.len() as int).0, a);
        },
        Expr::Ret(Some(v), _) => lemma_esc_shape(a, *v),
        Expr::Call { callee, args, .. } => {
            lemma_esc_shape(a, *callee);
            let r = esc_expr(a, *callee).0;
            lemma_args_shape(r, e, args@.len() as int);
            lemma_same_scopes_trans(esc_args(r, e, args@.len() as int).0, r, a, false);
        },
        Expr::Binary { lhs, rhs, .. } => {
            lemma_esc_shape(a, *lhs);
            let r = esc_expr(a, *lhs).0;
            lemma_esc_shape(r, *rhs);
            lemma_same_scopes_trans(esc_expr(r, *rhs).0, r, a, false);
        },
        Expr::Unary { operand, .. } => lemma_esc_shape(a, *operand),
        Expr::Field { base, .. } => lemma_esc_shape(a, *base),
        Expr::Index { base, index, .. } => {
            lemma_esc_shape(a, *base);
            let r = esc_expr(a, *base).0;
            lemma_esc_shape(r, *index);
            lemma_same_scopes_trans(esc_expr(r, *index).0, r, a, false);
        },
        Expr::Deref(inner, _) => lemma_esc_shape(a, *inner),
        Expr::Propagate(inner, _) => lemma_esc_shape(a, *inner),
        Expr::Jmp { target, .. } => match target {
            Some(t) => lemma_esc_shape(a, *t),
            None => {},
        },
        Expr::Loop { subject, body, .. } => {
            let r = match subject {
                Some(sj) => esc_expr(a, *sj).0,
                None => a,
            };
            match subject {
                Some(sj) => lemma_esc_shape(a, *sj),
                None => {},
            }
            lemma_esc_shape(r, *body);
            lemma_same_scopes_trans(esc_expr(r, *body).0, r, a, false);
        },
        Expr::Branch { scrutinee, arms, span } => {
            let r = match scrutinee {
                Some(sc) => esc_expr(a, *sc).0,
                None => a,
            };
            match scrutinee {
                Some(sc) => lemma_esc_shape(a, *sc),
                None => {},
            }
            let base = own_states(r);
            lemma_arms_shape(r, base, e, arms@.len() as int);
            let x = esc_arms(r, base, e, arms@.len() as int);
            lemma_same_scopes_refl(x.0, true);
            lemma_restored(x.0, x.0, base);
            let rs = restored(x.0, base);
            lemma_same_scopes_refl(rs, true);
            lemma_join_all(rs, rs, x.1, span);
            lemma_same_scopes_trans(join_all(rs, x.1, span), rs, x.0, false);
            lemma_same_scopes_trans(join_all(rs, x.1, span), x.0, r, false);
            lemma_same_scopes_trans(join_all(rs, x.1, span), r, a, false);
        },
        _ => {},
    }
}

pub proof fn lemma_args_shape(a: Scopes, e: Expr, i: int)
    requires
        a.len() > 0,
    ensures
        same_scopes(esc_args(a, e, i).0, a, false),
    decreases e, 1int, i,
{
    lemma_same_scopes_refl(a, false);
    match e {
        Expr::Call { args, .. } => if 0 < i <= args@.len() {
            assert(decreases_to!(e => args@[i - 1]));
            lemma_args_shape(a, e, i - 1);
            let r = esc_args(a, e, i - 1).0;
            lemma_esc_shape(r, args@[i - 1]);
            let x = esc_expr(r, args@[i - 1]).0;
            lemma_same_scopes_trans(x, r, a, false);
            match super::rules::head_name(args@[i - 1]) {
                Some((n, sp)) => {
                    lemma_same_scopes_refl(x, true);
                    lemma_moved(x, x, n@, sp);
                    lemma_same_scopes_trans(moved(x, n@, sp), x, a, false);
                },
                None => {},
            }
        },
        _ => {},
    }
}

pub proof fn lemma_stmts_shape(a: Scopes, e: Expr, i: int)
    requires
        a.len() > 0,
    ensures
        extends_last(esc_stmts(a, e, i).0, a),
    decreases e, 1int, i,
{
    lemma_same_ext(a, a);
    match e {
        Expr::Block { stmts, .. } => if 0 < i <= stmts@.len() {
            assert(decreases_to!(e => stmts@[i - 1]));
            lemma_stmts_shape(a, e, i - 1);
            let r = esc_stmts(a, e, i - 1).0;
            lemma_stmt_shape(r, stmts@[i - 1]);
            lemma_ext_trans(esc_stmt(r, stmts@[i - 1]).0, r, a);
        },
        _ => {},
    }
}

pub proof fn lemma_arms_shape(a: Scopes, base: Snapshot, e: Expr, i: int)
    requires
        a.len() > 0,
    ensures
        same_scopes(esc_arms(a, base, e, i).0, a, false),
    decreases e, 1int, i,
{
    lemma_same_scopes_refl(a, false);
    match e {
        Expr::Branch { arms, .. } => if 0 < i <= arms@.len() {
            assert(decreases_to!(e => arms@[i - 1]));
            lemma_arms_shape(a, base, e, i - 1);
            let r = esc_arms(a, base, e, i - 1).0;
            lemma_same_scopes_refl(r, true);
            lemma_restored(r, r, base);
            let rs = restored(r, base);
            let pushed = rs.push(Seq::<(String, BindingInfo)>::empty());
            lemma_arm_bound_shape(pushed, arms@[i - 1].pattern);
            let entered = arm_bound(pushed, arms@[i - 1].pattern);
            lemma_esc_shape(entered, arms@[i - 1].body);
            let x = esc_expr(entered, arms@[i - 1].body).0;
            lemma_same_ext(x, entered);
            lemma_ext_trans(x, entered, pushed);
            lemma_ext_pop(x, rs);
            lemma_same_scopes_trans(popped(x), rs, r, false);
            lemma_same_scopes_trans(popped(x), r, a, false);
        },
        _ => {},
    }
}

pub proof fn lemma_stmt_shape(a: Scopes, s: Stmt)
    requires
        a.len() > 0,
    ensures
        extends_last(esc_stmt(a, s).0, a),
    decreases s, 3int, 0int,
{
    match s {
        Stmt::Let { name, ty, init, .. } => {
            lemma_esc_shape(a, init);
            let r = esc_expr(a, init).0;
            let after = match super::rules::head_name(init) {
                Some((src, sp)) => moved(r, src@, sp),
                None => r,
            };
            match super::rules::head_name(init) {
                Some((src, sp)) => {
                    lemma_same_scopes_refl(r, true);
                    lemma_moved(r, r, src@, sp);
                    lemma_same_scopes_trans(after, r, a, false);
                },
                None => {},
            }
            lemma_same_scopes_refl(after, true);
            lemma_defined(
                after,
                after,
                name,
                BindingInfo { kind: super::checker::let_kind(ty), state: OwnershipState::Live, depth: depth_of(after) },
            );
            lemma_same_ext(after, a);
            lemma_ext_trans(esc_stmt(a, s).0, after, a);
        },
        Stmt::Assign { target, value, .. } => {
            lemma_esc_shape(a, value);
            let r = esc_expr(a, value).0;
            lemma_esc_shape(r, target);
            lemma_same_scopes_trans(esc_expr(r, target).0, r, a, false);
            lemma_same_ext(esc_expr(r, target).0, a);
        },
        Stmt::Defer(x, _) => {
            lemma_esc_shape(a, x);
            lemma_same_ext(esc_expr(a, x).0, a);
        },
        Stmt::Expr(x) => {
            lemma_esc_shape(a, x);
            lemma_same_ext(esc_expr(a, x).0, a);
        },
    }
}

/// The state the last entry named `n` of a snapshot records.
pub open spec fn snap_state(snap: Snapshot, n: Seq<char>) -> Option<OwnershipState>
    decreases snap.len(),
{
    if snap.len() == 0 {
        None
    } else if snap.last().0 == n {
        Some(snap.last().1)
    } else {
        snap_state(snap.drop_last(), n)
    }
}

proof fn lemma_snap_state_concat(x: Snapshot, y: Snapshot, n: Seq<char>)
    ensures
        snap_state(x + y, n) == (if snap_state(y, n) is Some {
            snap_state(y, n)
        } else {
            snap_state(x, n)
        }),
    decreases y.len(),
{
    if y.len() == 0 {
        assert(x + y =~= x);
    } else {
        assert((x + y).drop_last() =~= x + y.drop_last());
        assert((x + y).last() == y.last());
        lemma_snap_state_concat(x, y.drop_last(), n);
    }
}

proof fn lemma_latest_in_none(scope: Seq<(String, BindingInfo)>, n: Seq<char>)
    ensures
        latest_in(scope, n) is None ==> forall|j: int| 0 <= j < scope.len() ==> (#[trigger] scope[j]).0@ != n,
    decreases scope.len(),
{
    if scope.len() > 0 {
        lemma_latest_in_none(scope.drop_last(), n);
        assert forall|j: int| 0 <= j < scope.len() - 1 implies scope.drop_last()[j] == #[trigger] scope[j] by {}
    }
}

/// A name that locates nothing names no binding.
proof fn lemma_locate_none(st: Scopes, n: Seq<char>)
    ensures
        locate(st, n) is None ==> forall|i: int, j: int|
            0 <= i < st.len() && 0 <= j < st[i].len() ==> (#[trigger] st[i][j]).0@ != n,
    decreases st.len(),
{
    if st.len() > 0 {
        lemma_latest_in_none(st.last(), n);
        lemma_locate_none(st.drop_last(), n);
        assert forall|i: int| 0 <= i < st.len() - 1 implies st.drop_last()[i] == #[trigger] st[i] by {}
    }
}

/// Restoring a snapshot onto bindings of distinct names gives each binding
/// the state the snapshot last records for its name, and leaves the rest.
proof fn lemma_restored_states(s: Scopes, st: Scopes, snap: Snapshot)
    requires
        same_scopes(s, st, false),
        distinct_names(st),
    ensures
        same_scopes(restored(s, snap), st, false),
        forall|i: int, j: int|
            0 <= i < st.len() && 0 <= j < st[i].len() ==> (#[trigger] restored(s, snap)[i][j]).1.state == match snap_state(
                snap,
                st[i][j].0@,
            ) {
                Some(x) => x,
                None => s[i][j].1.state,
            },
    decreases snap.len(),
{
    lemma_same_scopes_refl(s, true);
    lemma_restored(s, s, snap);
    lemma_same_scopes_trans(restored(s, snap), s, st, false);
    if snap.len() > 0 {
        lemma_restored_states(s, st, snap.drop_last());
        let prev = restored(s, snap.drop_last());
        let n = snap.last().0;
        super::context::lemma_locate(prev, n);
        lemma_locate_none(prev, n);
        match locate(prev, n) {
            Some((p, q)) => {
                assert forall|i: int, j: int| 0 <= i < st.len() && 0 <= j < st[i].len() implies (
                #[trigger] restored(s, snap)[i][j]).1.state == match snap_state(snap, st[i][j].0@) {
                    Some(x) => x,
                    None => s[i][j].1.state,
                } by {
                    assert(same_binding(prev[i][j], st[i][j], false));
                    assert(same_binding(prev[p][q], st[p][q], false));
                    if i == p && j == q {
                    } else {
                        assert(st[i][j].0@ != st[p][q].0@);
                    }
                }
            },
            None => {
                assert forall|i: int, j: int| 0 <= i < st.len() && 0 <= j < st[i].len() implies (
                #[trigger] restored(s, snap)[i][j]).1.state == match snap_state(snap, st[i][j].0@) {
                    Some(x) => x,
                    None => s[i][j].1.state,
                } by {
                    assert(same_binding(prev[i][j], st[i][j], false));
                    assert(prev[i][j].0@ != n);
                }
            },
        }
    }
}

proof fn lemma_own_states_in_entry(scope: Seq<(String, BindingInfo)>, n: Seq<char>)
    requires
        forall|j1: int, j2: int|
            0 <= j1 < scope.len() && 0 <= j2 < scope.len() && (#[trigger] scope[j1]).0@ == (#[trigger] scope[j2]).0@
                ==> j1 == j2,
    ensures
        (forall|j: int| 0 <= j < scope.len() ==> (#[trigger] scope[j]).0@ != n) ==> snap_state(own_states_in(scope), n)
            is None,
        forall|j: int|
            0 <= j < scope.len() && (#[trigger] scope[j]).0@ == n && scope[j].1.kind == BindingKind::Own ==> snap_state(
                own_states_in(scope),
                n,
            ) == Some(scope[j].1.state),
    decreases scope.len(),
{
    if scope.len() > 0 {
        let d = scope.drop_last();
        assert forall|j1: int, j2: int|
            0 <= j1 < d.len() && 0 <= j2 < d.len() && (#[trigger] d[j1]).0@ == (#[trigger] d[j2]).0@ implies j1 == j2 by {
            assert(scope[j1] == d[j1] && scope[j2] == d[j2]);
        }
        lemma_own_states_in_entry(d, n);
        let tail = if scope.last().1.kind == BindingKind::Own {
            seq![(scope.last().0@, scope.last().1.state)]
        } else {
            Seq::<(Seq<char>, OwnershipState)>::empty()
        };
        assert(own_states_in(scope) == own_states_in(d) + tail);
        lemma_snap_state_concat(own_states_in(d), tail, n);
        reveal_with_fuel(snap_state, 2);
        assert(tail.len() > 0 ==> tail.drop_last() =~= Seq::<(Seq<char>, OwnershipState)>::empty());
        assert forall|j: int| 0 <= j < d.len() implies #[trigger] d[j] == scope[j] by {}
        let k = scope.len() - 1;
        assert forall|j: int|
            0 <= j < scope.len() && (#[trigger] scope[j]).0@ == n && scope[j].1.kind == BindingKind::Own implies snap_state(
            own_states_in(scope),
            n,
        ) == Some(scope[j].1.state) by {
            if j < k {
                assert(scope[k].0@ != n);
                assert(d[j] == scope[j]);
            }
        }
    }
}

/// In bindings of distinct names, the ownership states record each `own`
/// binding's state under its name.
proof fn lemma_own_states_entry(st: Scopes, i: int, j: int)
    requires
        distinct_names(st),
        0 <= i < st.len(),
        0 <= j < st[i].len(),
        st[i][j].1.kind == BindingKind::Own,
    ensures
        snap_state(own_states(st), st[i][j].0@) == Some(st[i][j].1.state),
    decreases st.len(),
{
    let n = st[i][j].0@;
    let k = st.len() - 1;
    let last = st.last();
    assert forall|j1: int, j2: int|
        0 <= j1 < last.len() && 0 <= j2 < last.len() && (#[trigger] last[j1]).0@ == (#[trigger] last[j2]).0@ implies j1
        == j2 by {
        assert(st[k][j1] == last[j1] && st[k][j2] == last[j2]);
    }
    lemma_own_states_in_entry(last, n);
    lemma_snap_state_concat(own_states(st.drop_last()), own_states_in(last), n);
    if i == k {
        assert(last[j] == st[i][j]);
    } else {
        assert forall|q: int| 0 <= q < last.len() implies (#[trigger] last[q]).0@ != n by {
            assert(st[k][q] == last[q]);
        }
        let d = st.drop_last();
        assert forall|i1: int, j1: int, i2: int, j2: int|
            0 <= i1 < d.len() && 0 <= j1 < d[i1].len() && 0 <= i2 < d.len() && 0 <= j2 < d[i2].len() && (
            #[trigger] d[i1][j1]).0@ == (#[trigger] d[i2][j2]).0@ implies i1 == i2 && j1 == j2 by {
            assert(d[i1] == st[i1] && d[i2] == st[i2]);
        }
        assert(d[i] == st[i]);
        lemma_own_states_entry(d, i, j);
    }
}

/// Restoring the ownership states of `st` onto bindings shaped like it
/// gives back bindings that agree with `st`, when no two share a name.
pub proof fn lemma_restore_round_trip(s: Scopes, st: Scopes)
    requires
        same_scopes(s, st, false),
        distinct_names(st),
    ensures
        same_scopes(restored(s, own_states(st)), st, true),
{
    lemma_restored_states(s, st, own_states(st));
    let r = restored(s, own_states(st));
    assert forall|i: int, j: int| 0 <= i < r.len() && 0 <= j < r[i].len() implies same_binding(
        #[trigger] r[i][j],
        st[i][j],
        true,
    ) by {
        assert(same_binding(r[i][j], st[i][j], false));
        if r[i][j].1.kind == BindingKind::Own {
            lemma_own_states_entry(st, i, j);
        }
    }
}

/// The errors of the first `i` arms of the branch `e`, each checked alone
/// from the bindings `st`, in a scope of its own.
pub open spec fn arms_alone(st: Scopes, e: Expr, i: int) -> Seq<EscDiag>
    decreases i,
{
    match e {
        Expr::Branch { arms, .. } => if 0 < i <= arms@.len() {
            arms_alone(st, e, i - 1) + esc_expr(arm_bound(st.push(Seq::empty()), arms@[i - 1].pattern), arms@[i - 1].body).1
        } else {
            Seq::empty()
        },
        _ => Seq::empty(),
    }
}

/// Each arm of a branch is checked from the bindings as they stood before
/// the branch: the errors of the arms are those each arm gives when it is
/// checked alone from there, so a move in one arm is never seen by a
/// sibling (two arms that each move the same `own` binding report
/// nothing for it). Bindings are taken to have distinct names.
pub proof fn law_arms_start_from_branch_state(st: Scopes, e: Expr, i: int)
    requires
        st.len() > 0,
        distinct_names(st),
    ensures
        esc_arms(st, own_states(st), e, i).2 == arms_alone(st, e, i),
        same_scopes(esc_arms(st, own_states(st), e, i).0, st, false),
    decreases i,
{
    let base = own_states(st);
    lemma_arms_shape(st, base, e, i);
    match e {
        Expr::Branch { arms, .. } => if 0 < i <= arms@.len() {
            law_arms_start_from_branch_state(st, e, i - 1);
            let r = esc_arms(st, base, e, i - 1).0;
            lemma_restore_round_trip(r, st);
            let rs = restored(r, base);
            lemma_push(rs, st, true);
            lemma_arm_bound(rs.push(Seq::empty()), st.push(Seq::empty()), arms@[i - 1].pattern);
            lemma_esc_agree(
                arm_bound(rs.push(Seq::empty()), arms@[i - 1].pattern),
                arm_bound(st.push(Seq::empty()), arms@[i - 1].pattern),
                arms@[i - 1].body,
            );
        },
        _ => {},
    }
}

/// A branch without a scrutinee reports exactly the errors of its arms,
/// each checked alone from the bindings before the branch.
pub proof fn law_branch_errors(st: Scopes, arms: Vec<super::super::ast::Arm>, span: crate::diag::Span)
    requires
        st.len() > 0,
        distinct_names(st),
    ensures
        esc_expr(st, Expr::Branch { scrutinee: None, arms, span }).1 == arms_alone(
            st,
            Expr::Branch { scrutinee: None, arms, span },
            arms@.len() as int,
        ),
{
    let e = Expr::Branch { scrutinee: None, arms, span };
    law_arms_start_from_branch_state(st, e, arms@.len() as int);
    assert(Seq::<EscDiag>::empty() + arms_alone(st, e, arms@.len() as int) =~= arms_alone(st, e, arms@.len() as int));
}

} // verus!
