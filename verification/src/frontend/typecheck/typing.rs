//! The typing rules: the type the checker gives each expression, and how
//! statements and patterns extend the variable scopes.
//!
//! An expression is typed in a context of definitions, a stack of variable
//! scopes (innermost last), the declared return type of the enclosing
//! function, and whether its value is dropped (it stands as a statement).

use super::checker::{assignable, binop_rejected, binop_type, env_define, env_lookup, is_numeric};
use super::context::{entry_value, variant_home, TypeContext};
use super::types::{Type, TypeView};
use crate::diag::{DiagLoc, Diagnostic, Severity, Span};
use crate::frontend::ast::{Expr, Func, Item, Param, Pattern, Stmt};
use vstd::prelude::*;

verus! {

/// Variable scopes, outermost first.
pub type Env = Seq<Map<Seq<char>, TypeView>>;

/// The value of an optional type.
pub open spec fn opt_view(o: Option<Type>) -> Option<TypeView> {
    match o {
        Some(t) => Some(t@),
        None => None,
    }
}

/// The type of a name in an expression: a variable of known type, else a
/// function of that name, else unknown.
pub open spec fn path_ty(c: TypeContext, env: Env, name: Seq<char>) -> TypeView {
    let func = match c.func_def(name) {
        Some(f) => f@,
        None => TypeView::Unknown,
    };
    match env_lookup(env, name) {
        Some(v) => if v is Unknown {
            func
        } else {
            v
        },
        None => func,
    }
}

/// The type of field `field` of a value of type `base`.
pub open spec fn field_ty(c: TypeContext, base: TypeView, field: Seq<char>) -> TypeView {
    match base {
        TypeView::Struct(n) => match c.struct_def(n) {
            Some(fs) => match entry_value(fs@, field) {
                Some(t) => t@,
                None => TypeView::Unknown,
            },
            None => TypeView::Unknown,
        },
        _ => TypeView::Unknown,
    }
}

/// The type of a unary expression whose operand has type `t`.
pub open spec fn unary_ty(op: Seq<char>, t: TypeView) -> TypeView {
    if op == "-"@ {
        if !is_numeric(t) && !(t is Unknown) {
            TypeView::Unknown
        } else {
            t
        }
    } else if op == "!"@ {
        TypeView::Bool
    } else {
        TypeView::Unknown
    }
}

/// The type of a variant constructor `.v`: the union that declares `v`;
/// `.Ok` and `.Err` otherwise build the error union the function returns.
pub open spec fn variant_ty(c: TypeContext, ret: Option<TypeView>, v: Seq<char>) -> TypeView {
    match variant_home(c.union_entries(), v) {
        Some(i) => TypeView::Union(c.union_entries()[i].0@),
        None => if v == "Ok"@ || v == "Err"@ {
            match ret {
                Some(r) => if r is ErrUnion {
                    r
                } else {
                    TypeView::Unknown
                },
                None => TypeView::Unknown,
            }
        } else {
            TypeView::Unknown
        },
    }
}

/// The scopes after binding each of `names` with an unknown type.
pub open spec fn bind_unknown(env: Env, names: Seq<String>) -> Env
    decreases names.len(),
{
    if names.len() == 0 {
        env
    } else {
        env_define(bind_unknown(env, names.drop_last()), names.last()@, TypeView::Unknown)
    }
}

/// The scopes in which an arm's body is typed: its pattern's names bound,
/// with unknown types.
pub open spec fn pattern_env(env: Env, p: Pattern) -> Env {
    match p {
        Pattern::Bind(name, _) => env_define(env, name@, TypeView::Unknown),
        Pattern::Variant { bindings, .. } => bind_unknown(env, bindings@),
        _ => env,
    }
}

/// The scopes after a statement: a `let` binds its name, with its
/// annotation's type, else its initial value's.
pub open spec fn stmt_env(c: TypeContext, env: Env, ret: Option<TypeView>, st: Stmt) -> Env
    decreases st, 3int, 0int,
{
    match st {
        Stmt::Let { name, ty, init, .. } => env_define(
            env,
            name@,
            match ty {
                Some(te) => c.resolved(te)@,
                None => expr_ty(c, env, ret, false, init),
            },
        ),
        _ => env,
    }
}

/// The scopes after the first `i` statements of the block `e`.
pub open spec fn stmts_env(c: TypeContext, env: Env, ret: Option<TypeView>, e: Expr, i: int) -> Env
    decreases e, 1int, i,
{
    match e {
        Expr::Block { stmts, .. } => if 0 < i <= stmts@.len() {
            proof {
                assert(decreases_to!(e => stmts@[i - 1]));
            }
            stmt_env(c, stmts_env(c, env, ret, e, i - 1), ret, stmts@[i - 1])
        } else {
            env
        },
        _ => env,
    }
}

/// What the first `i` arms of the branch `e` give: the type they agree on
/// (unknown where two differ; arms that never return or whose type is
/// unknown take no part), whether one of them is `void`, and the position
/// of the first that has a value.
pub open spec fn arms_fold(c: TypeContext, env: Env, ret: Option<TypeView>, sp: bool, e: Expr, i: int) -> (
    Option<TypeView>,
    bool,
    Option<Span>,
)
    decreases e, 1int, i,
{
    match e {
        Expr::Branch { arms, .. } => if 0 < i <= arms@.len() {
            proof {
                assert(decreases_to!(e => arms@[i - 1]));
            }
            let (u, has_void, value_at) = arms_fold(c, env, ret, sp, e, i - 1);
            let arm = arms@[i - 1];
            let t = expr_ty(c, pattern_env(env.push(Map::empty()), arm.pattern), ret, sp, arm.body);
            if t is Never || t is Unknown {
                (u, has_void, value_at)
            } else {
                (
                    match u {
                        None => Some(t),
                        Some(p) => if p != t {
                            Some(TypeView::Unknown)
                        } else {
                            Some(p)
                        },
                    },
                    has_void || t is Void,
                    if value_at is None && !(t is Void) {
                        Some(arm.span)
                    } else {
                        value_at
                    },
                )
            }
        } else {
            (None, false, None)
        },
        _ => (None, false, None),
    }
}

/// The type of the expression `e`. `sp` says whether its value is dropped:
/// only a branch cares, whose arms must otherwise not mix `void` with
/// values.
pub open spec fn expr_ty(c: TypeContext, env: Env, ret: Option<TypeView>, sp: bool, e: Expr) -> TypeView
    decreases e, 2int, 0int,
{
    match e {
        Expr::Int(..) => TypeView::Int { signed: true, width: 32 },
        Expr::Float(..) => TypeView::Float { width: 64 },
        Expr::Bool(..) => TypeView::Bool,
        Expr::Str(..) => TypeView::Str,
        Expr::Nil(_) => TypeView::Void,
        Expr::Path(segs, _) => if segs@.len() > 0 {
            path_ty(c, env, segs@[0]@)
        } else {
            TypeView::Unknown
        },
        Expr::Binary { op, lhs, rhs, .. } => binop_type(
            op@,
            expr_ty(c, env, ret, false, *lhs),
            expr_ty(c, env, ret, false, *rhs),
        ),
        Expr::Call { callee, .. } => match expr_ty(c, env, ret, false, *callee) {
            TypeView::Func { ret: r, .. } => *r,
            _ => TypeView::Unknown,
        },
        Expr::Field { base, name, .. } => field_ty(c, expr_ty(c, env, ret, false, *base), name@),
        Expr::Unary { op, operand, .. } => unary_ty(op@, expr_ty(c, env, ret, false, *operand)),
        Expr::Deref(inner, _) => match expr_ty(c, env, ret, false, *inner) {
            TypeView::Borrow(x) => *x,
            TypeView::Own(x) => *x,
            _ => TypeView::Unknown,
        },
        Expr::Index { base, .. } => match expr_ty(c, env, ret, false, *base) {
            TypeView::Array { elem, .. } => *elem,
            TypeView::Slice { elem } => *elem,
            _ => TypeView::Unknown,
        },
        Expr::Propagate(inner, _) => match expr_ty(c, env, ret, false, *inner) {
            TypeView::ErrUnion { ok, .. } => *ok,
            _ => TypeView::Unknown,
        },
        Expr::Block { stmts, .. } => if stmts@.len() == 0 {
            TypeView::Void
        } else {
            proof {
                assert(decreases_to!(e => stmts@[stmts@.len() - 1]));
            }
            match stmts@.last() {
                Stmt::Expr(tail) => expr_ty(
                    c,
                    stmts_env(c, env.push(Map::empty()), ret, e, stmts@.len() - 1),
                    ret,
                    sp,
                    tail,
                ),
                _ => TypeView::Void,
            }
        },
        Expr::Branch { arms, .. } => {
            let (u, has_void, value_at) = arms_fold(c, env, ret, sp, e, arms@.len() as int);
            if !sp && has_void && value_at is Some {
                TypeView::Unknown
            } else {
                match u {
                    Some(t) => t,
                    None => TypeView::Unknown,
                }
            }
        },
        Expr::Loop { .. } => TypeView::Void,
        Expr::Ret(..) => TypeView::Never,
        Expr::Stop { .. } => TypeView::Never,
        Expr::Skip { .. } => TypeView::Never,
        Expr::Jmp { .. } => TypeView::Never,
        Expr::StructLit { name, .. } => if c.struct_def(name@) is Some {
            TypeView::Struct(name@)
        } else {
            TypeView::Unknown
        },
        Expr::ArrayLit { elements, .. } => if elements@.len() == 0 {
            TypeView::Unknown
        } else {
            proof {
                assert(decreases_to!(e => elements@[0]));
            }
            TypeView::Array {
                elem: Box::new(expr_ty(c, env, ret, false, elements@[0])),
                len: elements@.len() as u64,
            }
        },
        Expr::VariantConstructor { name, .. } => variant_ty(c, ret, name@),
    }
}

/// The scopes after binding a function's parameters, each with the type
/// its annotation denotes.
pub open spec fn params_env(c: TypeContext, env: Env, params: Seq<Param>) -> Env
    decreases params.len(),
{
    if params.len() == 0 {
        env
    } else {
        env_define(params_env(c, env, params.drop_last()), params.last().name@, c.resolved(params.last().ty)@)
    }
}

/// A function's declared result type: `void` when none is written.
pub open spec fn declared_ret(c: TypeContext, f: Func) -> TypeView {
    match f.ret {
        Some(te) => c.resolved(te)@,
        None => TypeView::Void,
    }
}

/// What a `ret` in the body must match: the result type, or the error union
/// of result and error type.
pub open spec fn ret_context_of(c: TypeContext, f: Func) -> TypeView {
    match f.err {
        Some(e) => TypeView::ErrUnion { ok: Box::new(declared_ret(c, f)), err: Box::new(c.resolved(e)@) },
        None => declared_ret(c, f),
    }
}

/// The type of a function's body, typed in a new scope that holds its
/// parameters.
pub open spec fn body_ty(c: TypeContext, env: Env, sp: bool, f: Func) -> TypeView {
    expr_ty(c, params_env(c, env.push(Map::empty()), f.params@), Some(ret_context_of(c, f)), sp, f.body)
}

/// Whether a function's body has a type other than the declared one. A
/// body that never returns fits any type; where either type is unknown
/// nothing is said.
pub open spec fn return_mismatch(c: TypeContext, env: Env, sp: bool, f: Func) -> bool {
    let b = body_ty(c, env, sp, f);
    let r = declared_ret(c, f);
    !(b is Never) && !(b is Unknown) && !(r is Unknown) && b != r
}

/// Binding a name touches the innermost scope only.
pub proof fn lemma_define_frame(env: Env, name: Seq<char>, t: TypeView)
    requires
        env.len() > 0,
    ensures
        env_define(env, name, t).len() == env.len(),
        env_define(env, name, t).drop_last() == env.drop_last(),
{
    assert(env_define(env, name, t).drop_last() =~= env.drop_last());
}

/// A block's statements touch its own scope only.
pub proof fn lemma_stmts_env_frame(c: TypeContext, env: Env, ret: Option<TypeView>, e: Expr, i: int)
    requires
        env.len() > 0,
    ensures
        stmts_env(c, env, ret, e, i).len() == env.len(),
        stmts_env(c, env, ret, e, i).drop_last() == env.drop_last(),
    decreases i,
{
    match e {
        Expr::Block { stmts, .. } => if 0 < i <= stmts@.len() {
            lemma_stmts_env_frame(c, env, ret, e, i - 1);
            let before = stmts_env(c, env, ret, e, i - 1);
            assert(stmts_env(c, env, ret, e, i) == stmt_env(c, before, ret, stmts@[i - 1]));
            match stmts@[i - 1] {
                Stmt::Let { name, ty, init, .. } => {
                    let t = match ty {
                        Some(te) => c.resolved(te)@,
                        None => expr_ty(c, before, ret, false, init),
                    };
                    lemma_define_frame(before, name@, t);
                },
                _ => {},
            }
        },
        _ => {},
    }
}

/// A function's parameters are bound in its own scope only.
pub proof fn lemma_params_env_frame(c: TypeContext, env: Env, params: Seq<Param>)
    requires
        env.len() > 0,
    ensures
        params_env(c, env, params).len() == env.len(),
        params_env(c, env, params).drop_last() == env.drop_last(),
    decreases params.len(),
{
    if params.len() > 0 {
        lemma_params_env_frame(c, env, params.drop_last());
        lemma_define_frame(
            params_env(c, env, params.drop_last()),
            params.last().name@,
            c.resolved(params.last().ty)@,
        );
    }
}

/// An arm's pattern binds names in the arm's own scope only.
pub proof fn lemma_pattern_env_frame(env: Env, p: Pattern)
    requires
        env.len() > 0,
    ensures
        pattern_env(env, p).len() == env.len(),
        pattern_env(env, p).drop_last() == env.drop_last(),
{
    match p {
        Pattern::Bind(name, _) => lemma_define_frame(env, name@, TypeView::Unknown),
        Pattern::Variant { bindings, .. } => lemma_bind_unknown_frame(env, bindings@),
        _ => {},
    }
}

proof fn lemma_bind_unknown_frame(env: Env, names: Seq<String>)
    requires
        env.len() > 0,
    ensures
        bind_unknown(env, names).len() == env.len(),
        bind_unknown(env, names).drop_last() == env.drop_last(),
    decreases names.len(),
{
    if names.len() > 0 {
        lemma_bind_unknown_frame(env, names.drop_last());
        lemma_define_frame(bind_unknown(env, names.drop_last()), names.last()@, TypeView::Unknown);
    }
}

/// An error of the type checker: its code and position.
pub struct TypeDiag {
    pub code: u16,
    pub span: Span,
}

/// One error.
pub open spec fn one(code: u16, span: Span) -> Seq<TypeDiag> {
    seq![TypeDiag { code, span }]
}

/// `b` is `a` followed by errors with the codes and positions of `ds`, in
/// order.
pub open spec fn reported_as(a: Seq<Diagnostic>, b: Seq<Diagnostic>, ds: Seq<TypeDiag>) -> bool {
    &&& b.len() == a.len() + ds.len()
    &&& b.subrange(0, a.len() as int) == a
    &&& forall|i: int|
        0 <= i < ds.len() ==> {
            &&& (#[trigger] b[a.len() + i]).code == ds[i].code
            &&& b[a.len() + i].severity == Severity::Error
            &&& b[a.len() + i].loc == DiagLoc::At(ds[i].span)
        }
}

pub proof fn lemma_reported_as_none(a: Seq<Diagnostic>)
    ensures
        reported_as(a, a, Seq::empty()),
{
    assert(a.subrange(0, a.len() as int) =~= a);
}

pub proof fn lemma_reported_as_trans(
    a: Seq<Diagnostic>,
    b: Seq<Diagnostic>,
    c: Seq<Diagnostic>,
    d1: Seq<TypeDiag>,
    d2: Seq<TypeDiag>,
)
    requires
        reported_as(a, b, d1),
        reported_as(b, c, d2),
    ensures
        reported_as(a, c, d1 + d2),
{
    assert(c.subrange(0, a.len() as int) =~= a) by {
        assert forall|i: int| 0 <= i < a.len() implies c[i] == a[i] by {
            assert(c.subrange(0, b.len() as int)[i] == b[i]);
            assert(b.subrange(0, a.len() as int)[i] == a[i]);
        }
    }
    assert forall|i: int| 0 <= i < (d1 + d2).len() implies {
        &&& (#[trigger] c[a.len() + i]).code == (d1 + d2)[i].code
        &&& c[a.len() + i].severity == Severity::Error
        &&& c[a.len() + i].loc == DiagLoc::At((d1 + d2)[i].span)
    } by {
        if i < d1.len() {
            assert(c.subrange(0, b.len() as int)[a.len() + i] == b[a.len() + i]);
            assert(b[a.len() + i].code == d1[i].code);
        } else {
            let k = i - d1.len();
            assert(c[b.len() + k].code == d2[k].code);
        }
    }
}

pub proof fn lemma_reported_as_one(a: Seq<Diagnostic>, d: Diagnostic, code: u16, span: Span)
    requires
        d.code == code,
        d.severity == Severity::Error,
        d.loc == DiagLoc::At(span),
    ensures
        reported_as(a, a.push(d), one(code, span)),
{
    assert(a.push(d).subrange(0, a.len() as int) =~= a);
    assert(a.push(d)[a.len() + 0int] == d);
}

/// A field access on a value of type `base`: an unknown field of a struct
/// is an undefined name; a value of any other type has no fields.
pub open spec fn field_diags(c: TypeContext, base: TypeView, field: Seq<char>, span: Span) -> Seq<TypeDiag> {
    match base {
        TypeView::Struct(n) => if c.struct_def(n) matches Some(fs) && entry_value(fs@, field) is Some {
            Seq::empty()
        } else {
            one(4002, span)
        },
        _ => one(9001, span),
    }
}

/// A unary operator: `-` needs a number, `!` a `bool`; an unknown operand
/// is not reported; any other operator is.
pub open spec fn unary_diags(op: Seq<char>, t: TypeView, span: Span) -> Seq<TypeDiag> {
    if op == "-"@ {
        if !is_numeric(t) && !(t is Unknown) {
            one(9001, span)
        } else {
            Seq::empty()
        }
    } else if op == "!"@ {
        if !(t is Bool) && !(t is Unknown) {
            one(9001, span)
        } else {
            Seq::empty()
        }
    } else {
        one(9001, span)
    }
}

/// A payload of type `actual` (or none) where `expected` is wanted.
pub open spec fn payload_diags(actual: Option<TypeView>, expected: TypeView, span: Span) -> Seq<TypeDiag> {
    match actual {
        Some(a) => if a != expected && !(a is Unknown) {
            one(9001, span)
        } else {
            Seq::empty()
        },
        None => if !(expected is Void) {
            one(9001, span)
        } else {
            Seq::empty()
        },
    }
}

/// A variant constructor `.v` with a payload of type `actual`: the payload
/// must fit the variant; `.Ok` and `.Err` need a function that returns an
/// error union; any other unknown variant is reported.
pub open spec fn variant_diags(
    c: TypeContext,
    ret: Option<TypeView>,
    v: Seq<char>,
    actual: Option<TypeView>,
    span: Span,
) -> Seq<TypeDiag> {
    match variant_home(c.union_entries(), v) {
        Some(i) => payload_diags(actual, entry_value(c.union_entries()[i].1@, v)->0@, span),
        None => if v == "Ok"@ || v == "Err"@ {
            match ret {
                Some(TypeView::ErrUnion { ok, err }) => payload_diags(
                    actual,
                    if v == "Ok"@ {
                        *ok
                    } else {
                        *err
                    },
                    span,
                ),
                _ => one(9001, span),
            }
        } else {
            one(9001, span)
        },
    }
}

/// The errors checking `e` reports, in order.
pub open spec fn expr_diags(c: TypeContext, env: Env, ret: Option<TypeView>, sp: bool, e: Expr) -> Seq<TypeDiag>
    decreases e, 2int, 0int,
{
    match e {
        Expr::Binary { op, lhs, rhs, span } => {
            let l = expr_ty(c, env, ret, false, *lhs);
            let r = expr_ty(c, env, ret, false, *rhs);
            expr_diags(c, env, ret, false, *lhs) + expr_diags(c, env, ret, false, *rhs) + if binop_rejected(
                op@,
                l,
                r,
            ) {
                one(9001, span)
            } else {
                Seq::empty()
            }
        },
        Expr::Call { callee, args, .. } => expr_diags(c, env, ret, false, *callee) + list_diags(
            c,
            env,
            ret,
            e,
            args@.len() as int,
        ),
        Expr::Field { base, name, span } => expr_diags(c, env, ret, false, *base) + field_diags(
            c,
            expr_ty(c, env, ret, false, *base),
            name@,
            span,
        ),
        Expr::Unary { op, operand, span } => expr_diags(c, env, ret, false, *operand) + unary_diags(
            op@,
            expr_ty(c, env, ret, false, *operand),
            span,
        ),
        Expr::Deref(inner, span) => expr_diags(c, env, ret, false, *inner) + match expr_ty(
            c,
            env,
            ret,
            false,
            *inner,
        ) {
            TypeView::Borrow(_) => Seq::empty(),
            TypeView::Own(_) => Seq::empty(),
            TypeView::Unknown => Seq::empty(),
            _ => one(9001, span),
        },
        Expr::Index { base, index, span } => expr_diags(c, env, ret, false, *base) + expr_diags(
            c,
            env,
            ret,
            false,
            *index,
        ) + match expr_ty(c, env, ret, false, *base) {
            TypeView::Array { .. } => Seq::empty(),
            TypeView::Slice { .. } => Seq::empty(),
            TypeView::Unknown => Seq::empty(),
            _ => one(9001, span),
        },
        Expr::Propagate(inner, span) => expr_diags(c, env, ret, false, *inner) + match expr_ty(
            c,
            env,
            ret,
            false,
            *inner,
        ) {
            TypeView::ErrUnion { .. } => Seq::empty(),
            TypeView::Unknown => Seq::empty(),
            _ => one(9001, span),
        },
        Expr::Block { stmts, .. } => stmts_diags(c, env.push(Map::empty()), ret, sp, e, stmts@.len() as int),
        Expr::Branch { scrutinee, arms, .. } => {
            let d0 = match scrutinee {
                Some(x) => expr_diags(c, env, ret, false, *x),
                None => Seq::empty(),
            };
            let (_, has_void, value_at) = arms_fold(c, env, ret, sp, e, arms@.len() as int);
            d0 + arms_diags(c, env, ret, sp, e, arms@.len() as int) + if !sp && has_void && value_at is Some {
                one(4001, value_at->0)
            } else {
                Seq::empty()
            }
        },
        Expr::Loop { subject, body, .. } => (match subject {
            Some(x) => expr_diags(c, env, ret, false, *x),
            None => Seq::empty(),
        }) + expr_diags(c, env, ret, false, *body),
        Expr::Ret(v, _) => match v {
            Some(x) => expr_diags(c, env, ret, false, *x),
            None => Seq::empty(),
        },
        Expr::Jmp { target, .. } => match target {
            Some(x) => expr_diags(c, env, ret, false, *x),
            None => Seq::empty(),
        },
        Expr::StructLit { name, fields, span } => if c.struct_def(name@) is Some {
            list_diags(c, env, ret, e, fields@.len() as int)
        } else {
            one(4002, span)
        },
        Expr::ArrayLit { elements, .. } => list_diags(c, env, ret, e, elements@.len() as int),
        Expr::VariantConstructor { name, payload, span } => {
            let d = match payload {
                Some(x) => expr_diags(c, env, ret, false, *x),
                None => Seq::empty(),
            };
            let actual = match payload {
                Some(x) => Some(expr_ty(c, env, ret, false, *x)),
                None => None,
            };
            d + variant_diags(c, ret, name@, actual, span)
        },
        _ => Seq::empty(),
    }
}

/// The first `i` arguments of a call, field values of a struct literal or
/// elements of an array literal `e`: each one's errors, then for a field a
/// value of the wrong type (4001) or a field the struct lacks (4002), and
/// for an element after the first one of another type than the first.
pub open spec fn list_diags(c: TypeContext, env: Env, ret: Option<TypeView>, e: Expr, i: int) -> Seq<TypeDiag>
    decreases e, 1int, i,
{
    if i <= 0 {
        Seq::empty()
    } else {
        match e {
            Expr::Call { args, .. } => if i <= args@.len() {
                proof {
                    assert(decreases_to!(e => args@[i - 1]));
                }
                list_diags(c, env, ret, e, i - 1) + expr_diags(c, env, ret, false, args@[i - 1])
            } else {
                Seq::empty()
            },
            Expr::StructLit { name, fields, span } => if i <= fields@.len() {
                proof {
                    assert(decreases_to!(e => fields@[i - 1]));
                }
                let f = fields@[i - 1];
                let t = expr_ty(c, env, ret, false, f.1);
                list_diags(c, env, ret, e, i - 1) + expr_diags(c, env, ret, false, f.1) + match entry_value(
                    c.struct_def(name@)->0@,
                    f.0@,
                ) {
                    Some(expected) => if !(t is Unknown) && !(expected@ is Unknown) && t != expected@ {
                        one(4001, span)
                    } else {
                        Seq::empty()
                    },
                    None => one(4002, span),
                }
            } else {
                Seq::empty()
            },
            Expr::ArrayLit { elements, span } => if i <= elements@.len() {
                proof {
                    assert(decreases_to!(e => elements@[i - 1]));
                }
                let t = expr_ty(c, env, ret, false, elements@[i - 1]);
                let first = expr_ty(c, env, ret, false, elements@[0]);
                list_diags(c, env, ret, e, i - 1) + expr_diags(c, env, ret, false, elements@[i - 1]) + if i > 1
                    && t != first && !(t is Unknown) && !(first is Unknown) {
                    one(9001, span)
                } else {
                    Seq::empty()
                }
            } else {
                Seq::empty()
            },
            _ => Seq::empty(),
        }
    }
}

/// The first `i` statements of the block `e`, each in the scopes the
/// statements before it leave; a tail expression takes the block's `sp`.
pub open spec fn stmts_diags(c: TypeContext, env: Env, ret: Option<TypeView>, sp: bool, e: Expr, i: int) -> Seq<TypeDiag>
    decreases e, 1int, i,
{
    match e {
        Expr::Block { stmts, .. } => if 0 < i <= stmts@.len() {
            proof {
                assert(decreases_to!(e => stmts@[i - 1]));
            }
            let here = stmts_env(c, env, ret, e, i - 1);
            stmts_diags(c, env, ret, sp, e, i - 1) + if i == stmts@.len() && stmts@[i - 1] is Expr {
                expr_diags(c, here, ret, sp, stmts@[i - 1]->Expr_0)
            } else {
                stmt_diags(c, here, ret, stmts@[i - 1])
            }
        } else {
            Seq::empty()
        },
        _ => Seq::empty(),
    }
}

/// The first `i` arms of the branch `e`, each body in its own scope.
pub open spec fn arms_diags(c: TypeContext, env: Env, ret: Option<TypeView>, sp: bool, e: Expr, i: int) -> Seq<TypeDiag>
    decreases e, 1int, i,
{
    match e {
        Expr::Branch { arms, .. } => if 0 < i <= arms@.len() {
            proof {
                assert(decreases_to!(e => arms@[i - 1]));
            }
            arms_diags(c, env, ret, sp, e, i - 1) + expr_diags(
                c,
                pattern_env(env.push(Map::empty()), arms@[i - 1].pattern),
                ret,
                sp,
                arms@[i - 1].body,
            )
        } else {
            Seq::empty()
        },
        _ => Seq::empty(),
    }
}

/// The errors of one statement: a `let` value that does not fit its
/// annotation, an assigned value that does not fit its target; an
/// expression statement's value is dropped.
pub open spec fn stmt_diags(c: TypeContext, env: Env, ret: Option<TypeView>, s: Stmt) -> Seq<TypeDiag>
    decreases s, 3int, 0int,
{
    match s {
        Stmt::Let { ty, init, .. } => expr_diags(c, env, ret, false, init) + match ty {
            Some(te) => if !assignable(expr_ty(c, env, ret, false, init), c.resolved(te)@) {
                one(9001, init.spec_span())
            } else {
                Seq::empty()
            },
            None => Seq::empty(),
        },
        Stmt::Assign { target, value, span } => expr_diags(c, env, ret, false, target) + expr_diags(
            c,
            env,
            ret,
            false,
            value,
        ) + if !assignable(expr_ty(c, env, ret, false, value), expr_ty(c, env, ret, false, target)) {
            one(9001, span)
        } else {
            Seq::empty()
        },
        Stmt::Defer(x, _) => expr_diags(c, env, ret, true, x),
        Stmt::Expr(x) => expr_diags(c, env, ret, true, x),
    }
}

/// The errors of a function: those of its body, then a body whose type is
/// not the declared one.
pub open spec fn func_diags(c: TypeContext, env: Env, sp: bool, f: Func) -> Seq<TypeDiag> {
    expr_diags(c, params_env(c, env.push(Map::empty()), f.params@), Some(ret_context_of(c, f)), sp, f.body)
        + if return_mismatch(c, env, sp, f) {
        one(9001, f.body.spec_span())
    } else {
        Seq::empty()
    }
}

/// The errors of a module's function bodies, in order.
pub open spec fn module_diags(c: TypeContext, items: Seq<Item>) -> Seq<TypeDiag>
    decreases items.len(),
{
    if items.len() == 0 {
        Seq::empty()
    } else {
        module_diags(c, items.drop_last()) + match items.last() {
            Item::Func(f) => func_diags(c, Seq::empty(), false, f),
            _ => Seq::empty(),
        }
    }
}

/// Propagating `e!` of a value of type `T ! E` has type `T`, whatever `E`
/// is; propagation never reports when its operand is an error union.
pub proof fn law_propagate_gives_ok_type(
    c: TypeContext,
    env: Env,
    ret: Option<TypeView>,
    sp: bool,
    inner: Expr,
    span: Span,
    ok: TypeView,
    err: TypeView,
)
    requires
        expr_ty(c, env, ret, false, inner) == (TypeView::ErrUnion { ok: Box::new(ok), err: Box::new(err) }),
    ensures
        expr_ty(c, env, ret, sp, Expr::Propagate(Box::new(inner), span)) == ok,
        expr_diags(c, env, ret, sp, Expr::Propagate(Box::new(inner), span)) == expr_diags(c, env, ret, false, inner),
{
    assert(expr_diags(c, env, ret, false, inner) + Seq::<TypeDiag>::empty() =~= expr_diags(c, env, ret, false, inner));
}

} // verus!
