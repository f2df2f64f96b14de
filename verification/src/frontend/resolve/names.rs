//! Which names the second pass of resolution reports as undefined, and
//! where: a walk over the function bodies that tracks the names bound in
//! each local scope.

use crate::diag::{DiagLoc, Diagnostic, Span};
use crate::frontend::ast::{Expr, Item, Param, Pattern, Stmt};
use crate::frontend::resolve::scope::resolve_in;
use crate::frontend::resolve::symbols::SymbolId;
use crate::text::joined;
use vstd::prelude::*;

verus! {

/// A report of code E4002: its message and position.
pub struct NameReport {
    pub msg: Seq<char>,
    pub span: Span,
}

/// The names bound in each local scope, innermost last.
pub type Locals = Seq<Set<Seq<char>>>;

/// The names of local scopes of symbols.
pub open spec fn local_names(locals: Seq<Map<Seq<char>, SymbolId>>) -> Locals {
    locals.map_values(|m: Map<Seq<char>, SymbolId>| m.dom())
}

/// Whether `k` is bound in a local scope or at module level.
pub open spec fn visible(locals: Locals, module: Set<Seq<char>>, k: Seq<char>) -> bool
    decreases locals.len(),
{
    if locals.len() == 0 {
        module.contains(k)
    } else {
        locals.last().contains(k) || visible(locals.drop_last(), module, k)
    }
}

/// A name resolves exactly when it is visible.
pub proof fn lemma_resolve_visible(locals: Seq<Map<Seq<char>, SymbolId>>, module: Map<Seq<char>, SymbolId>, k: Seq<char>)
    ensures
        (resolve_in(locals, module, k) is Some) == visible(local_names(locals), module.dom(), k),
    decreases locals.len(),
{
    if locals.len() > 0 {
        lemma_resolve_visible(locals.drop_last(), module, k);
        assert(local_names(locals).drop_last() =~= local_names(locals.drop_last()));
    }
}

/// `locals` with `k` bound in the innermost scope.
pub open spec fn bind_name(locals: Locals, k: Seq<char>) -> Locals {
    if locals.len() > 0 {
        locals.update(locals.len() - 1, locals.last().insert(k))
    } else {
        locals
    }
}

/// The message for a path of other than one segment.
pub open spec fn multi_segment_msg(segs: Seq<String>) -> Seq<char> {
    "多段路径 `"@ + joined(segs, "::"@) + "` 在 Kore0 中不支持"@
}

/// The message that reports `n` as undefined.
pub open spec fn undefined_msg(n: Seq<char>) -> Seq<char> {
    "未定义的名字 `"@ + n + "`"@
}

/// What a path expression reports: a single name that is not visible, or
/// any path of other than one segment.
pub open spec fn path_reports(locals: Locals, module: Set<Seq<char>>, segs: Seq<String>, span: Span) -> Seq<NameReport> {
    if segs.len() == 1 {
        if visible(locals, module, segs[0]@) {
            Seq::empty()
        } else {
            seq![NameReport { msg: undefined_msg(segs[0]@), span }]
        }
    } else {
        seq![NameReport { msg: multi_segment_msg(segs), span }]
    }
}

/// `locals` after a pattern binds its names; `_` binds nothing.
pub open spec fn pattern_names(locals: Locals, p: Pattern) -> Locals {
    match p {
        Pattern::Variant { bindings, .. } => bind_all(locals, bindings@),
        Pattern::Bind(name, _) => if name@ == "_"@ {
            locals
        } else {
            bind_name(locals, name@)
        },
        _ => locals,
    }
}

/// `locals` after binding each of `names` but `_`, in order.
pub open spec fn bind_all(locals: Locals, names: Seq<String>) -> Locals
    decreases names.len(),
{
    if names.len() == 0 {
        locals
    } else {
        let before = bind_all(locals, names.drop_last());
        if names.last()@ == "_"@ {
            before
        } else {
            bind_name(before, names.last()@)
        }
    }
}

/// Resolving `e` from the local scopes `locals`: the scopes after, and the
/// reports, in order.
pub open spec fn res_expr(locals: Locals, module: Set<Seq<char>>, e: Expr) -> (Locals, Seq<NameReport>)
    decreases e, 2int, 0int,
{
    match e {
        Expr::Path(segs, span) => (locals, path_reports(locals, module, segs@, span)),
        Expr::Field { base, .. } => res_expr(locals, module, *base),
        Expr::Block { stmts, .. } => {
            let r = res_stmts(locals.push(Set::empty()), module, e, stmts@.len() as int);
            (r.0.drop_last(), r.1)
        },
        Expr::Branch { scrutinee, arms, .. } => {
            let r = match scrutinee {
                Some(s) => res_expr(locals, module, *s),
                None => (locals, Seq::empty()),
            };
            let a = res_arms(r.0, module, e, arms@.len() as int);
            (a.0, r.1 + a.1)
        },
        Expr::Loop { subject, body, .. } => {
            let r = match subject {
                Some(s) => res_expr(locals, module, *s),
                None => (locals, Seq::empty()),
            };
            let b = res_expr(r.0, module, *body);
            (b.0, r.1 + b.1)
        },
        Expr::Call { callee, args, .. } => {
            let r = res_expr(locals, module, *callee);
            let a = res_list(r.0, module, e, args@.len() as int);
            (a.0, r.1 + a.1)
        },
        Expr::Index { base, index, .. } => {
            let r1 = res_expr(locals, module, *base);
            let r2 = res_expr(r1.0, module, *index);
            (r2.0, r1.1 + r2.1)
        },
        Expr::Deref(inner, _) => res_expr(locals, module, *inner),
        Expr::Propagate(inner, _) => res_expr(locals, module, *inner),
        Expr::Jmp { target, .. } => match target {
            Some(t) => res_expr(locals, module, *t),
            None => (locals, Seq::empty()),
        },
        Expr::Ret(v, _) => match v {
            Some(v) => res_expr(locals, module, *v),
            None => (locals, Seq::empty()),
        },
        Expr::Unary { operand, .. } => res_expr(locals, module, *operand),
        Expr::Binary { lhs, rhs, .. } => {
            let r1 = res_expr(locals, module, *lhs);
            let r2 = res_expr(r1.0, module, *rhs);
            (r2.0, r1.1 + r2.1)
        },
        Expr::StructLit { fields, .. } => res_list(locals, module, e, fields@.len() as int),
        Expr::ArrayLit { elements, .. } => res_list(locals, module, e, elements@.len() as int),
        Expr::VariantConstructor { payload, .. } => match payload {
            Some(p) => res_expr(locals, module, *p),
            None => (locals, Seq::empty()),
        },
        _ => (locals, Seq::empty()),
    }
}

/// The first `i` arguments of a call, elements of an array literal, or
/// field values of a struct literal `e`, in order.
pub open spec fn res_list(locals: Locals, module: Set<Seq<char>>, e: Expr, i: int) -> (Locals, Seq<NameReport>)
    decreases e, 1int, i,
{
    if i <= 0 {
        (locals, Seq::empty())
    } else {
        match e {
            Expr::Call { args, .. } => if i <= args@.len() {
                proof {
                    assert(decreases_to!(e => args@[i - 1]));
                }
                let r = res_list(locals, module, e, i - 1);
                let x = res_expr(r.0, module, args@[i - 1]);
                (x.0, r.1 + x.1)
            } else {
                (locals, Seq::empty())
            },
            Expr::ArrayLit { elements, .. } => if i <= elements@.len() {
                proof {
                    assert(decreases_to!(e => elements@[i - 1]));
                }
                let r = res_list(locals, module, e, i - 1);
                let x = res_expr(r.0, module, elements@[i - 1]);
                (x.0, r.1 + x.1)
            } else {
                (locals, Seq::empty())
            },
            Expr::StructLit { fields, .. } => if i <= fields@.len() {
                proof {
                    assert(decreases_to!(e => fields@[i - 1]));
                }
                let r = res_list(locals, module, e, i - 1);
                let x = res_expr(r.0, module, fields@[i - 1].1);
                (x.0, r.1 + x.1)
            } else {
                (locals, Seq::empty())
            },
            _ => (locals, Seq::empty()),
        }
    }
}

/// The first `i` statements of the block `e`.
pub open spec fn res_stmts(locals: Locals, module: Set<Seq<char>>, e: Expr, i: int) -> (Locals, Seq<NameReport>)
    decreases e, 1int, i,
{
    match e {
        Expr::Block { stmts, .. } => if 0 < i <= stmts@.len() {
            proof {
                assert(decreases_to!(e => stmts@[i - 1]));
            }
            let r = res_stmts(locals, module, e, i - 1);
            let x = res_stmt(r.0, module, stmts@[i - 1]);
            (x.0, r.1 + x.1)
        } else {
            (locals, Seq::empty())
        },
        _ => (locals, Seq::empty()),
    }
}

/// The first `i` arms of the branch `e`: each binds its pattern's names in
/// the enclosing scope, then its body is resolved.
pub open spec fn res_arms(locals: Locals, module: Set<Seq<char>>, e: Expr, i: int) -> (Locals, Seq<NameReport>)
    decreases e, 1int, i,
{
    match e {
        Expr::Branch { arms, .. } => if 0 < i <= arms@.len() {
            proof {
                assert(decreases_to!(e => arms@[i - 1]));
            }
            let r = res_arms(locals, module, e, i - 1);
            let x = res_expr(pattern_names(r.0, arms@[i - 1].pattern), module, arms@[i - 1].body);
            (x.0, r.1 + x.1)
        } else {
            (locals, Seq::empty())
        },
        _ => (locals, Seq::empty()),
    }
}

/// Resolving one statement: a `let` binds its name after its value.
pub open spec fn res_stmt(locals: Locals, module: Set<Seq<char>>, s: Stmt) -> (Locals, Seq<NameReport>)
    decreases s, 3int, 0int,
{
    match s {
        Stmt::Let { name, init, .. } => {
            let r = res_expr(locals, module, init);
            (bind_name(r.0, name@), r.1)
        },
        Stmt::Assign { target, value, .. } => {
            let r1 = res_expr(locals, module, target);
            let r2 = res_expr(r1.0, module, value);
            (r2.0, r1.1 + r2.1)
        },
        Stmt::Defer(x, _) => res_expr(locals, module, x),
        Stmt::Expr(x) => res_expr(locals, module, x),
    }
}

/// The names of a function's parameters.
pub open spec fn param_names(params: Seq<Param>) -> Set<Seq<char>> {
    Set::new(|k: Seq<char>| exists|j: int| 0 <= j < params.len() && #[trigger] params[j].name@ == k)
}

pub proof fn lemma_param_names_push(params: Seq<Param>, i: int)
    requires
        0 <= i < params.len(),
    ensures
        param_names(params.take(i + 1)) == param_names(params.take(i)).insert(params[i].name@),
{
    let a = params.take(i + 1);
    let b = params.take(i);
    assert forall|k: Seq<char>| #[trigger] param_names(a).contains(k) implies param_names(b).insert(params[i].name@).contains(k) by {
        let j = choose|j: int| 0 <= j < a.len() && #[trigger] a[j].name@ == k;
        if j < i {
            assert(b[j] == a[j]);
        }
    }
    assert forall|k: Seq<char>| #[trigger] param_names(b).insert(params[i].name@).contains(k) implies param_names(a).contains(k) by {
        if k == params[i].name@ {
            assert(a[i] == params[i]);
        } else {
            let j = choose|j: int| 0 <= j < b.len() && #[trigger] b[j].name@ == k;
            assert(a[j] == b[j]);
        }
    }
    assert(param_names(a) =~= param_names(b).insert(params[i].name@));
}

/// The reports of one item: a function's body, resolved in a scope that
/// holds its parameters.
pub open spec fn item_reports(module: Set<Seq<char>>, it: Item) -> Seq<NameReport> {
    match it {
        Item::Func(f) => res_expr(seq![param_names(f.params@)], module, f.body).1,
        _ => Seq::empty(),
    }
}

/// The reports of a module's items, in order.
pub open spec fn items_reports(module: Set<Seq<char>>, items: Seq<Item>) -> Seq<NameReport>
    decreases items.len(),
{
    if items.len() == 0 {
        Seq::empty()
    } else {
        items_reports(module, items.drop_last()) + item_reports(module, items.last())
    }
}

/// The diagnostics of code E4002 among `ds`.
pub open spec fn name_diags(ds: Seq<Diagnostic>) -> Seq<Diagnostic> {
    ds.filter(|d: Diagnostic| d.code == 4002)
}

/// `d` is the report `r`.
pub open spec fn is_report(d: Diagnostic, r: NameReport) -> bool {
    d.msg@ == r.msg && d.loc == DiagLoc::At(r.span)
}

/// `b` holds `a`, then diagnostics whose reports of code E4002 are `rs`,
/// in order.
pub open spec fn reports_names(a: Seq<Diagnostic>, b: Seq<Diagnostic>, rs: Seq<NameReport>) -> bool {
    &&& a.len() <= b.len()
    &&& b.subrange(0, a.len() as int) == a
    &&& name_diags(b.subrange(a.len() as int, b.len() as int)).len() == rs.len()
    &&& forall|i: int|
        0 <= i < rs.len() ==> is_report(#[trigger] name_diags(b.subrange(a.len() as int, b.len() as int))[i], rs[i])
}

pub proof fn lemma_reports_names_none(a: Seq<Diagnostic>)
    ensures
        reports_names(a, a, Seq::empty()),
{
    assert(a.subrange(0, a.len() as int) =~= a);
    assert(a.subrange(a.len() as int, a.len() as int) =~= Seq::<Diagnostic>::empty());
    reveal_with_fuel(Seq::filter, 1);
}

pub proof fn lemma_reports_names_trans(
    a: Seq<Diagnostic>,
    b: Seq<Diagnostic>,
    c: Seq<Diagnostic>,
    r1: Seq<NameReport>,
    r2: Seq<NameReport>,
)
    requires
        reports_names(a, b, r1),
        reports_names(b, c, r2),
    ensures
        reports_names(a, c, r1 + r2),
{
    let x = b.subrange(a.len() as int, b.len() as int);
    let y = c.subrange(b.len() as int, c.len() as int);
    let z = c.subrange(a.len() as int, c.len() as int);
    assert(c.subrange(0, a.len() as int) =~= a) by {
        assert forall|i: int| 0 <= i < a.len() implies c[i] == a[i] by {
            assert(c.subrange(0, b.len() as int)[i] == b[i]);
            assert(b.subrange(0, a.len() as int)[i] == a[i]);
        }
    }
    assert(z =~= x + y) by {
        assert forall|i: int| 0 <= i < x.len() implies z[i] == x[i] by {
            assert(c.subrange(0, b.len() as int)[a.len() + i] == b[a.len() + i]);
        }
    }
    Seq::filter_distributes_over_add(x, y, |d: Diagnostic| d.code == 4002);
    assert(name_diags(z) == name_diags(x) + name_diags(y));
}

/// Diagnostics of other codes only report no name.
pub proof fn lemma_reports_names_no_undefined(a: Seq<Diagnostic>, b: Seq<Diagnostic>)
    requires
        a.len() <= b.len(),
        forall|i: int| 0 <= i < a.len() ==> #[trigger] b[i] == a[i],
        forall|i: int| a.len() <= i < b.len() ==> (#[trigger] b[i]).code != 4002,
    ensures
        reports_names(a, b, Seq::empty()),
{
    assert(b.subrange(0, a.len() as int) =~= a);
    lemma_no_name_diags(b.subrange(a.len() as int, b.len() as int));
}

proof fn lemma_no_name_diags(ds: Seq<Diagnostic>)
    requires
        forall|i: int| 0 <= i < ds.len() ==> (#[trigger] ds[i]).code != 4002,
    ensures
        name_diags(ds).len() == 0,
    decreases ds.len(),
{
    reveal(Seq::filter);
    if ds.len() > 0 {
        lemma_no_name_diags(ds.drop_last());
        assert(ds.last().code != 4002);
    }
}

/// One diagnostic of another code reports no name.
pub proof fn lemma_reports_names_other(a: Seq<Diagnostic>, d: Diagnostic)
    requires
        d.code != 4002,
    ensures
        reports_names(a, a.push(d), Seq::empty()),
{
    let b = a.push(d);
    assert(b.subrange(0, a.len() as int) =~= a);
    assert(b.subrange(a.len() as int, b.len() as int) =~= seq![d]);
    reveal_with_fuel(Seq::filter, 2);
    assert(seq![d].drop_last() =~= Seq::<Diagnostic>::empty());
}

/// One diagnostic of code E4002 reports itself.
pub proof fn lemma_reports_names_one(a: Seq<Diagnostic>, d: Diagnostic, r: NameReport)
    requires
        d.code == 4002,
        is_report(d, r),
    ensures
        reports_names(a, a.push(d), seq![r]),
{
    let b = a.push(d);
    assert(b.subrange(0, a.len() as int) =~= a);
    assert(b.subrange(a.len() as int, b.len() as int) =~= seq![d]);
    reveal_with_fuel(Seq::filter, 2);
    assert(seq![d].drop_last() =~= Seq::<Diagnostic>::empty());
    assert(name_diags(seq![d]) =~= seq![d]);
}

} // verus!
