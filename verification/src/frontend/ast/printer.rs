//! S-expression printing of the AST (`--emit=ast`).
//!
//! S-expressions rather than JSON: a few dozen lines of Kore parse them
//! during bootstrapping. Spans are left out by default, since positions
//! drift with every edit of the source; `--emit-spans` prints them.

use super::node::{
    Arm, Expr, Field, Func, Item, Module, Param, Pattern, Stmt, StructDef, TypeExpr, UnionDef, UsePath, Variant,
};
use crate::diag::Span;
use crate::text::{decimal, digit_char, joined, u64_to_decimal};
use vstd::prelude::*;

verus! {

/// Printing options.
#[derive(Debug, Clone, Copy, Default)]
pub struct PrintOpts {
    /// Whether spans are printed.
    pub spans: bool,
}

/// Opening minus closing parentheses in `s`.
pub open spec fn balance(s: Seq<char>) -> int
    decreases s.len(),
{
    if s.len() == 0 {
        0
    } else {
        balance(s.drop_last()) + if s.last() == '(' {
            1int
        } else if s.last() == ')' {
            -1int
        } else {
            0int
        }
    }
}

/// No parenthesis in `s`.
pub open spec fn paren_free(s: Seq<char>) -> bool {
    forall|i: int| 0 <= i < s.len() ==> #[trigger] s[i] != '(' && s[i] != ')'
}

pub proof fn lemma_balance_concat(a: Seq<char>, b: Seq<char>)
    ensures
        balance(a + b) == balance(a) + balance(b),
    decreases b.len(),
{
    if b.len() == 0 {
        assert(a + b =~= a);
    } else {
        lemma_balance_concat(a, b.drop_last());
        assert((a + b).drop_last() =~= a + b.drop_last());
    }
}

pub proof fn lemma_paren_free_balance(s: Seq<char>)
    requires
        paren_free(s),
    ensures
        balance(s) == 0,
    decreases s.len(),
{
    if s.len() > 0 {
        assert(paren_free(s.drop_last())) by {
            assert forall|i: int| 0 <= i < s.drop_last().len() implies #[trigger] s.drop_last()[i] != '(' && s.drop_last()[i] != ')' by {
                assert(s.drop_last()[i] == s[i]);
            }
        }
        lemma_paren_free_balance(s.drop_last());
        assert(s.last() == s[s.len() - 1]);
    }
}

proof fn lemma_decimal_paren_free(n: nat)
    ensures
        paren_free(decimal(n)),
    decreases n,
{
    if n >= 10 {
        lemma_decimal_paren_free(n / 10);
        let d = decimal(n / 10);
        let c = digit_char(n % 10);
        assert((48 + n % 10) as u8 >= 48);
        assert forall|i: int| 0 <= i < d.push(c).len() implies #[trigger] d.push(c)[i] != '(' && d.push(c)[i] != ')' by {
            if i < d.len() {
                assert(d.push(c)[i] == d[i]);
            }
        }
    } else {
        assert((48 + n) as u8 >= 48);
    }
}

/// Every text an expression prints is free of parentheses.
pub open spec fn pf_expr(e: Expr) -> bool
    decreases e,
{
    match e {
        Expr::Int(v, _) => paren_free(v@),
        Expr::Float(v, _) => paren_free(v@),
        Expr::Str(v, _) => paren_free(v@),
        Expr::Bool(..) => true,
        Expr::Nil(_) => true,
        Expr::Path(segs, _) => forall|i: int| 0 <= i < segs@.len() ==> paren_free(#[trigger] segs@[i]@),
        Expr::Branch { scrutinee, arms, .. } => (match scrutinee {
            Some(s) => pf_expr(*s),
            None => true,
        }) && forall|i: int| 0 <= i < arms@.len() ==> pf_pattern(#[trigger] arms@[i].pattern) && pf_expr(
            arms@[i].body,
        ),
        Expr::Loop { subject, body, .. } => (match subject {
            Some(s) => pf_expr(*s),
            None => true,
        }) && pf_expr(*body),
        Expr::Call { callee, args, .. } => pf_expr(*callee) && forall|i: int|
            0 <= i < args@.len() ==> pf_expr(#[trigger] args@[i]),
        Expr::Field { base, name, .. } => pf_expr(*base) && paren_free(name@),
        Expr::Index { base, index, .. } => pf_expr(*base) && pf_expr(*index),
        Expr::Deref(inner, _) => pf_expr(*inner),
        Expr::Propagate(inner, _) => pf_expr(*inner),
        Expr::Unary { op, operand, .. } => paren_free(op@) && pf_expr(*operand),
        Expr::Binary { op, lhs, rhs, .. } => paren_free(op@) && pf_expr(*lhs) && pf_expr(*rhs),
        Expr::Block { stmts, .. } => forall|i: int| 0 <= i < stmts@.len() ==> pf_stmt(#[trigger] stmts@[i]),
        Expr::Ret(v, _) => match v {
            Some(x) => pf_expr(*x),
            None => true,
        },
        Expr::Stop { label, .. } => match label {
            Some(l) => paren_free(l@),
            None => true,
        },
        Expr::Skip { label, .. } => match label {
            Some(l) => paren_free(l@),
            None => true,
        },
        Expr::Jmp { target, label, .. } => (match target {
            Some(t) => pf_expr(*t),
            None => true,
        }) && match label {
            Some(l) => paren_free(l@),
            None => true,
        },
        Expr::StructLit { name, fields, .. } => paren_free(name@) && forall|i: int|
            0 <= i < fields@.len() ==> paren_free((#[trigger] fields@[i]).0@) && pf_expr(fields@[i].1),
        Expr::ArrayLit { elements, .. } => forall|i: int| 0 <= i < elements@.len() ==> pf_expr(#[trigger] elements@[i]),
        Expr::VariantConstructor { name, payload, .. } => paren_free(name@) && match payload {
            Some(p) => pf_expr(*p),
            None => true,
        },
    }
}

pub open spec fn pf_stmt(s: Stmt) -> bool
    decreases s,
{
    match s {
        Stmt::Let { name, ty, init, .. } => paren_free(name@) && (match ty {
            Some(t) => pf_type(t),
            None => true,
        }) && pf_expr(init),
        Stmt::Assign { target, value, .. } => pf_expr(target) && pf_expr(value),
        Stmt::Defer(e, _) => pf_expr(e),
        Stmt::Expr(e) => pf_expr(e),
    }
}

pub open spec fn pf_pattern(p: Pattern) -> bool
    decreases p,
{
    match p {
        Pattern::Variant { name, bindings, .. } => paren_free(name@) && forall|i: int|
            0 <= i < bindings@.len() ==> paren_free(#[trigger] bindings@[i]@),
        Pattern::Bind(n, _) => paren_free(n@),
        Pattern::Lit(e) => pf_expr(*e),
        Pattern::Wildcard(_) => true,
        Pattern::Cond(e) => pf_expr(*e),
    }
}

pub open spec fn pf_type(t: TypeExpr) -> bool
    decreases t,
{
    match t {
        TypeExpr::Named(n, _) => paren_free(n@),
        TypeExpr::Borrow(x, _) => pf_type(*x),
        TypeExpr::Own(x, _) => pf_type(*x),
        TypeExpr::Array(x, _, _) => pf_type(*x),
        TypeExpr::Slice(x, _) => pf_type(*x),
        TypeExpr::ErrUnion(o, e, _) => pf_type(*o) && pf_type(*e),
    }
}

pub open spec fn pf_func(f: Func) -> bool {
    &&& paren_free(f.name@)
    &&& forall|i: int|
        0 <= i < f.params@.len() ==> paren_free((#[trigger] f.params@[i]).name@) && pf_type(f.params@[i].ty)
    &&& match f.ret {
        Some(t) => pf_type(t),
        None => true,
    }
    &&& match f.err {
        Some(t) => pf_type(t),
        None => true,
    }
    &&& pf_expr(f.body)
}

pub open spec fn pf_struct(s: StructDef) -> bool {
    &&& paren_free(s.name@)
    &&& forall|i: int|
        0 <= i < s.fields@.len() ==> paren_free((#[trigger] s.fields@[i]).name@) && pf_type(s.fields@[i].ty)
}

pub open spec fn pf_variant(v: Variant) -> bool {
    &&& paren_free(v.name@)
    &&& forall|k: int| 0 <= k < v.payload@.len() ==> pf_type(#[trigger] v.payload@[k])
}

pub open spec fn pf_union(u: UnionDef) -> bool {
    &&& paren_free(u.name@)
    &&& forall|i: int| 0 <= i < u.variants@.len() ==> pf_variant(#[trigger] u.variants@[i])
}

pub open spec fn pf_use(u: UsePath) -> bool {
    forall|i: int| 0 <= i < u.segments@.len() ==> paren_free(#[trigger] u.segments@[i]@)
}

pub open spec fn pf_item(it: Item) -> bool {
    match it {
        Item::Func(f) => pf_func(f),
        Item::Struct(s) => pf_struct(s),
        Item::Union(u) => pf_union(u),
        Item::Use(u) => pf_use(u),
    }
}

/// Every text the module prints is free of parentheses.
pub open spec fn pf_module(m: Module) -> bool {
    forall|i: int| 0 <= i < m.items@.len() ==> pf_item(#[trigger] m.items@[i])
}

/// The written form of a type expression, on one line.
pub open spec fn type_line(t: TypeExpr) -> Seq<char>
    decreases t,
{
    match t {
        TypeExpr::Named(n, _) => n@,
        TypeExpr::Borrow(x, _) => "^"@ + type_line(*x),
        TypeExpr::Own(x, _) => "own ^"@ + type_line(*x),
        TypeExpr::Array(x, n, _) => "["@ + decimal(n as nat) + "]"@ + type_line(*x),
        TypeExpr::Slice(x, _) => "[]"@ + type_line(*x),
        TypeExpr::ErrUnion(o, e, _) => type_line(*o) + " ! "@ + type_line(*e),
    }
}

/// The string-literal form of a string, as `{:?}` of std writes it.
pub uninterp spec fn debug_text(s: Seq<char>) -> Seq<char>;

/// Formats a string with `{:?}` of std (`<str as Debug>::fmt`). The result
/// is named by `debug_text`; std documents its escapes (`\t`, `\r`, `\n`,
/// `\\`, `\"` and `\u{..}`; a single quote stays as it is), none of which
/// holds a parenthesis.
#[verifier::external_body]
fn debug_string(s: &str) -> (r: String)
    ensures
        r@ == debug_text(s@),
        paren_free(s@) ==> paren_free(r@),
{
    format!("{:?}", s)
}

/// The written form of a type expression, on one line: types nest
/// shallowly, and several lines would hide them.
pub fn ty(t: &TypeExpr) -> (s: String)
    ensures
        s@ == type_line(*t),
        pf_type(*t) ==> paren_free(s@),
    decreases t,
{
    proof {
        reveal_strlit("^");
        reveal_strlit("own ^");
        reveal_strlit("[");
        reveal_strlit("]");
        reveal_strlit("[]");
        reveal_strlit(" ! ");
    }
    match t {
        TypeExpr::Named(n, _) => n.clone(),
        TypeExpr::Borrow(inner, _) => {
            let mut s = String::from_str("^");
            let i = ty(inner);
            s.append(i.as_str());
            proof {
                lemma_concat_paren_free("^"@, i@);
            }
            s
        },
        TypeExpr::Own(inner, _) => {
            let mut s = String::from_str("own ^");
            let i = ty(inner);
            s.append(i.as_str());
            proof {
                lemma_concat_paren_free("own ^"@, i@);
            }
            s
        },
        TypeExpr::Array(inner, n, _) => {
            let mut s = String::from_str("[");
            let d = u64_to_decimal(*n);
            s.append(d.as_str());
            s.append("]");
            let i = ty(inner);
            s.append(i.as_str());
            proof {
                lemma_decimal_paren_free(*n as nat);
                lemma_concat_paren_free("["@, d@);
                lemma_concat_paren_free("["@ + d@, "]"@);
                lemma_concat_paren_free("["@ + d@ + "]"@, i@);
            }
            s
        },
        TypeExpr::Slice(inner, _) => {
            let mut s = String::from_str("[]");
            let i = ty(inner);
            s.append(i.as_str());
            proof {
                lemma_concat_paren_free("[]"@, i@);
            }
            s
        },
        TypeExpr::ErrUnion(ok, err, _) => {
            let mut s = ty(ok);
            s.append(" ! ");
            let e = ty(err);
            s.append(e.as_str());
            proof {
                lemma_concat_paren_free(type_line(**ok), " ! "@);
                lemma_concat_paren_free(type_line(**ok) + " ! "@, e@);
            }
            s
        },
    }
}

proof fn lemma_concat_paren_free(a: Seq<char>, b: Seq<char>)
    requires
        paren_free(a) || !paren_free(a),
    ensures
        paren_free(a) && paren_free(b) ==> paren_free(a + b),
{
    if paren_free(a) && paren_free(b) {
        assert forall|i: int| 0 <= i < (a + b).len() implies #[trigger] (a + b)[i] != '(' && (a + b)[i] != ')' by {
            if i < a.len() {
                assert((a + b)[i] == a[i]);
            } else {
                assert((a + b)[i] == b[i - a.len()]);
            }
        }
    }
}

/// The nesting one level in, as the printer counts it: it stops growing
/// at the largest `usize`.
pub open spec fn deeper(d: nat) -> nat {
    if d < usize::MAX {
        d + 1
    } else {
        d
    }
}

/// Two spaces per level of nesting.
pub open spec fn indent_text(d: nat) -> Seq<char>
    decreases d,
{
    if d == 0 {
        Seq::empty()
    } else {
        indent_text((d - 1) as nat) + "  "@
    }
}

/// ` :span file lo hi` when spans are printed, nothing otherwise.
pub open spec fn span_text(s: Span, on: bool) -> Seq<char> {
    if on {
        " :span "@ + decimal(s.file.0 as nat) + " "@ + decimal(s.lo as nat) + " "@ + decimal(s.hi as nat)
    } else {
        Seq::empty()
    }
}

/// The line that opens a list.
pub open spec fn open_line(d: nat, head: Seq<char>) -> Seq<char> {
    indent_text(d) + "("@ + head + "\n"@
}

/// The line that opens a list, with the span of its node.
pub open spec fn open_span_line(d: nat, head: Seq<char>, s: Span, on: bool) -> Seq<char> {
    indent_text(d) + "("@ + head + span_text(s, on) + "\n"@
}

/// The line that closes a list.
pub open spec fn close_line(d: nat) -> Seq<char> {
    indent_text(d) + ")\n"@
}

/// A list on one line, with the span of its node.
pub open spec fn leaf_line(d: nat, head: Seq<char>, s: Span, on: bool) -> Seq<char> {
    indent_text(d) + "("@ + head + span_text(s, on) + ")\n"@
}

/// A list on one line.
pub open spec fn text_line(d: nat, text: Seq<char>) -> Seq<char> {
    indent_text(d) + "("@ + text + ")\n"@
}

/// The dump of an expression at nesting `d`.
pub open spec fn expr_dump(e: Expr, d: nat, on: bool) -> Seq<char>
    decreases e, 0nat,
{
    let c = deeper(d);
    match e {
        Expr::Int(v, sp) => leaf_line(d, "int "@ + v@, sp, on),
        Expr::Float(v, sp) => leaf_line(d, "float "@ + v@, sp, on),
        Expr::Str(v, sp) => leaf_line(d, "str "@ + debug_text(v@), sp, on),
        Expr::Bool(b, sp) => leaf_line(
            d,
            if b {
                "bool true"@
            } else {
                "bool false"@
            },
            sp,
            on,
        ),
        Expr::Nil(sp) => leaf_line(d, "nil"@, sp, on),
        Expr::Path(segs, sp) => leaf_line(d, "path "@ + joined(segs@, "."@), sp, on),
        Expr::Branch { scrutinee, arms, .. } => open_line(d, "branch"@) + (match scrutinee {
            Some(sc) => expr_dump(*sc, c, on),
            None => Seq::empty(),
        }) + arms_dump(arms@, c, on) + close_line(d),
        Expr::Loop { subject, body, .. } => open_line(d, "loop"@) + (match subject {
            Some(sj) => expr_dump(*sj, c, on),
            None => Seq::empty(),
        }) + expr_dump(*body, c, on) + close_line(d),
        Expr::Call { callee, args, .. } => open_line(d, "call"@) + expr_dump(*callee, c, on) + exprs_dump(args@, c, on)
            + close_line(d),
        Expr::Field { base, name, .. } => open_line(d, "field "@ + name@) + expr_dump(*base, c, on) + close_line(d),
        Expr::Index { base, index, .. } => open_line(d, "index"@) + expr_dump(*base, c, on) + expr_dump(*index, c, on)
            + close_line(d),
        Expr::Deref(inner, _) => open_line(d, "deref"@) + expr_dump(*inner, c, on) + close_line(d),
        Expr::Propagate(inner, _) => open_line(d, "propagate"@) + expr_dump(*inner, c, on) + close_line(d),
        Expr::Unary { op, operand, .. } => open_line(d, "unary "@ + op@) + expr_dump(*operand, c, on) + close_line(d),
        Expr::Binary { op, lhs, rhs, .. } => open_line(d, "binary "@ + op@) + expr_dump(*lhs, c, on) + expr_dump(
            *rhs,
            c,
            on,
        ) + close_line(d),
        Expr::Block { stmts, .. } => open_line(d, "block"@) + stmts_dump(stmts@, c, on) + close_line(d),
        Expr::Ret(v, sp) => match v {
            Some(x) => open_line(d, "ret"@) + expr_dump(*x, c, on) + close_line(d),
            None => leaf_line(d, "ret"@, sp, on),
        },
        Expr::Stop { label, span } => open_line(
            d,
            match label {
                Some(l) => "stop @"@ + l@,
                None => "stop"@,
            },
        ) + leaf_line(c, Seq::empty(), span, on) + close_line(d),
        Expr::Skip { label, span } => leaf_line(
            d,
            match label {
                Some(l) => "skip @"@ + l@,
                None => "skip"@,
            },
            span,
            on,
        ),
        Expr::Jmp { target, label, span } => match (target, label) {
            (Some(t), None) => open_line(d, "jmp"@) + expr_dump(*t, c, on) + close_line(d),
            (None, Some(l)) => leaf_line(d, "jmp @"@ + l@, span, on),
            _ => leaf_line(d, "jmp"@, span, on),
        },
        Expr::StructLit { name, fields, .. } => open_line(d, "struct-lit "@ + name@) + field_inits_dump(fields@, c, on)
            + close_line(d),
        Expr::ArrayLit { elements, .. } => open_line(d, "array-lit"@) + exprs_dump(elements@, c, on) + close_line(d),
        Expr::VariantConstructor { name, payload, .. } => open_line(d, "variant-ctor ."@ + name@) + (match payload {
            Some(pl) => expr_dump(*pl, c, on),
            None => Seq::empty(),
        }) + close_line(d),
    }
}

pub open spec fn exprs_dump(s: Seq<Expr>, d: nat, on: bool) -> Seq<char>
    decreases s, 1nat,
{
    if s.len() == 0 {
        Seq::empty()
    } else {
        exprs_dump(s.drop_last(), d, on) + expr_dump(s.last(), d, on)
    }
}

/// Each arm: its pattern and body, one level in.
pub open spec fn arms_dump(s: Seq<Arm>, d: nat, on: bool) -> Seq<char>
    decreases s, 1nat,
{
    if s.len() == 0 {
        Seq::empty()
    } else {
        arms_dump(s.drop_last(), d, on) + open_line(d, "arm"@) + pattern_dump(s.last().pattern, deeper(d), on)
            + expr_dump(s.last().body, deeper(d), on) + close_line(d)
    }
}

/// Each field of a struct literal, with its value one level in.
pub open spec fn field_inits_dump(s: Seq<(String, Expr)>, d: nat, on: bool) -> Seq<char>
    decreases s, 1nat,
{
    if s.len() == 0 {
        Seq::empty()
    } else {
        field_inits_dump(s.drop_last(), d, on) + open_line(d, "field "@ + s.last().0@) + expr_dump(
            s.last().1,
            deeper(d),
            on,
        ) + close_line(d)
    }
}

pub open spec fn stmts_dump(s: Seq<Stmt>, d: nat, on: bool) -> Seq<char>
    decreases s, 1nat,
{
    if s.len() == 0 {
        Seq::empty()
    } else {
        stmts_dump(s.drop_last(), d, on) + stmt_dump(s.last(), d, on)
    }
}

/// The dump of a statement at nesting `d`.
pub open spec fn stmt_dump(s: Stmt, d: nat, on: bool) -> Seq<char>
    decreases s, 0nat,
{
    let c = deeper(d);
    match s {
        Stmt::Let { name, is_mut, ty, init, .. } => open_line(
            d,
            "let "@ + (if is_mut {
                "~"@
            } else {
                ""@
            }) + name@ + " "@ + match ty {
                Some(t) => type_line(t),
                None => "_"@,
            },
        ) + expr_dump(init, c, on) + close_line(d),
        Stmt::Assign { target, value, .. } => open_line(d, "assign"@) + expr_dump(target, c, on) + expr_dump(value, c, on)
            + close_line(d),
        Stmt::Defer(e, _) => open_line(d, "defer"@) + expr_dump(e, c, on) + close_line(d),
        Stmt::Expr(e) => expr_dump(e, d, on),
    }
}

/// The dump of a pattern at nesting `d`.
pub open spec fn pattern_dump(p: Pattern, d: nat, on: bool) -> Seq<char>
    decreases p, 0nat,
{
    match p {
        Pattern::Variant { name, bindings, .. } => text_line(d, "pat-variant ."@ + name@ + " "@ + joined(bindings@, " "@)),
        Pattern::Bind(n, _) => text_line(d, "pat-bind "@ + n@),
        Pattern::Lit(e) => open_line(d, "pat-lit"@) + expr_dump(*e, deeper(d), on) + close_line(d),
        Pattern::Wildcard(_) => text_line(d, "pat-wildcard"@),
        Pattern::Cond(e) => open_line(d, "pat-cond"@) + expr_dump(*e, deeper(d), on) + close_line(d),
    }
}

/// The type lines of a variant's payload, separated by spaces.
pub open spec fn payload_text(s: Seq<TypeExpr>) -> Seq<char>
    decreases s.len(),
{
    if s.len() == 0 {
        Seq::empty()
    } else if s.len() == 1 {
        type_line(s[0])
    } else {
        payload_text(s.drop_last()) + " "@ + type_line(s.last())
    }
}

pub open spec fn params_dump(s: Seq<Param>, d: nat) -> Seq<char>
    decreases s.len(),
{
    if s.len() == 0 {
        Seq::empty()
    } else {
        params_dump(s.drop_last(), d) + text_line(
            d,
            "param "@ + (if s.last().is_mut {
                "~"@
            } else {
                ""@
            }) + s.last().name@ + " "@ + type_line(s.last().ty),
        )
    }
}

pub open spec fn fields_dump(s: Seq<Field>, d: nat) -> Seq<char>
    decreases s.len(),
{
    if s.len() == 0 {
        Seq::empty()
    } else {
        fields_dump(s.drop_last(), d) + text_line(d, "field "@ + s.last().name@ + " "@ + type_line(s.last().ty))
    }
}

pub open spec fn variants_dump(s: Seq<Variant>, d: nat) -> Seq<char>
    decreases s.len(),
{
    if s.len() == 0 {
        Seq::empty()
    } else {
        variants_dump(s.drop_last(), d) + text_line(
            d,
            "variant ."@ + s.last().name@ + " "@ + payload_text(s.last().payload@),
        )
    }
}

/// The dump of an item at nesting `d`.
pub open spec fn item_dump(it: Item, d: nat, on: bool) -> Seq<char> {
    let c = deeper(d);
    match it {
        Item::Func(f) => open_span_line(d, "func "@ + f.name@, f.span, on) + params_dump(f.params@, c) + (match f.ret {
            Some(t) => text_line(c, "ret-type "@ + type_line(t)),
            None => Seq::empty(),
        }) + (match f.err {
            Some(t) => text_line(c, "err-type "@ + type_line(t)),
            None => Seq::empty(),
        }) + expr_dump(f.body, c, on) + close_line(d),
        Item::Struct(st) => open_span_line(d, "struct "@ + st.name@, st.span, on) + fields_dump(st.fields@, c)
            + close_line(d),
        Item::Union(u) => open_span_line(d, "union "@ + u.name@, u.span, on) + variants_dump(u.variants@, c) + close_line(
            d,
        ),
        Item::Use(u) => text_line(d, "use "@ + joined(u.segments@, "."@)),
    }
}

pub open spec fn items_dump(s: Seq<Item>, d: nat, on: bool) -> Seq<char>
    decreases s.len(),
{
    if s.len() == 0 {
        Seq::empty()
    } else {
        items_dump(s.drop_last(), d, on) + item_dump(s.last(), d, on)
    }
}

/// The dump of a module at nesting `d`.
pub open spec fn module_dump(m: Module, d: nat, on: bool) -> Seq<char> {
    open_line(d, "module"@) + items_dump(m.items@, deeper(d), on) + close_line(d)
}

/// Joining paren-free segments with a paren-free separator leaves no
/// parenthesis.
proof fn lemma_joined_paren_free(segs: Seq<String>, sep: Seq<char>)
    requires
        paren_free(sep),
        forall|i: int| 0 <= i < segs.len() ==> paren_free(#[trigger] segs[i]@),
    ensures
        paren_free(joined(segs, sep)),
    decreases segs.len(),
{
    if segs.len() > 1 {
        let init = segs.drop_last();
        assert forall|i: int| 0 <= i < init.len() implies paren_free(#[trigger] init[i]@) by {
            assert(init[i] == segs[i]);
        }
        lemma_joined_paren_free(init, sep);
        lemma_concat_paren_free(joined(init, sep), sep);
        assert(paren_free(segs[segs.len() - 1]@));
        lemma_concat_paren_free(joined(init, sep) + sep, segs.last()@);
    } else if segs.len() == 1 {
        assert(paren_free(segs[0]@));
    }
}

/// The printer's state: the output so far and the current nesting.
struct Printer {
    out: String,
    depth: usize,
    opts: PrintOpts,
}

/// Prints a module as an S-expression: the text is `module_dump`. Every
/// list opened is closed: where no name or literal of the module holds a
/// parenthesis, the output's parentheses balance.
pub fn print_module(m: &Module, opts: PrintOpts) -> (s: String)
    ensures
        s@ == module_dump(*m, 0, opts.spans),
        pf_module(*m) ==> balance(s@) == 0,
{
    let mut p = Printer { out: String::new(), depth: 0, opts };
    proof {
        assert(balance(p.out@) == 0);
    }
    p.module(m);
    proof {
        assert(p.out@ =~= module_dump(*m, 0, opts.spans));
    }
    p.out
}

impl Printer {
    /// Appends text.
    fn push(&mut self, s: &str)
        ensures
            final(self).out@ == old(self).out@ + s@,
            paren_free(s@) ==> balance(final(self).out@) == balance(old(self).out@),
            final(self).depth == old(self).depth,
            final(self).opts == old(self).opts,
    {
        self.out.append(s);
        proof {
            lemma_balance_concat(old(self).out@, s@);
            if paren_free(s@) {
                lemma_paren_free_balance(s@);
            }
        }
    }

    /// Appends a literal without parentheses.
    fn lit(&mut self, s: &'static str)
        requires
            paren_free(s@),
        ensures
            final(self).out@ == old(self).out@ + s@,
            balance(final(self).out@) == balance(old(self).out@),
            final(self).depth == old(self).depth,
            final(self).opts == old(self).opts,
    {
        self.push(s);
    }

    /// Appends `(`.
    fn open_paren(&mut self)
        ensures
            final(self).out@ == old(self).out@ + "("@,
            balance(final(self).out@) == balance(old(self).out@) + 1,
            final(self).depth == old(self).depth,
            final(self).opts == old(self).opts,
    {
        proof {
            reveal_strlit("(");
        }
        self.out.append("(");
        proof {
            lemma_balance_concat(old(self).out@, "("@);
            assert(balance("("@) == 1) by {
                assert("("@.len() == 1);
                assert("("@.drop_last() =~= Seq::<char>::empty());
                assert(balance(Seq::<char>::empty()) == 0);
            }
        }
    }

    /// Appends `)` and a line break.
    fn close_paren(&mut self)
        ensures
            final(self).out@ == old(self).out@ + ")\n"@,
            balance(final(self).out@) == balance(old(self).out@) - 1,
            final(self).depth == old(self).depth,
            final(self).opts == old(self).opts,
    {
        proof {
            reveal_strlit(")\n");
        }
        self.out.append(")\n");
        proof {
            lemma_balance_concat(old(self).out@, ")\n"@);
            assert(balance(")\n"@) == -1) by {
                assert(")\n"@.len() == 2);
                let a = ")\n"@.drop_last();
                assert(a.len() == 1);
                assert(a.drop_last() =~= Seq::<char>::empty());
                assert(balance(Seq::<char>::empty()) == 0);
                assert(balance(a) == -1);
            }
        }
    }

    fn indent(&mut self)
        ensures
            final(self).out@ == old(self).out@ + indent_text(old(self).depth as nat),
            balance(final(self).out@) == balance(old(self).out@),
            final(self).depth == old(self).depth,
            final(self).opts == old(self).opts,
    {
        let mut i: usize = 0;
        while i < self.depth
            invariant
                i <= self.depth,
                self.out@ == old(self).out@ + indent_text(i as nat),
                balance(self.out@) == balance(old(self).out@),
                self.depth == old(self).depth,
                self.opts == old(self).opts,
            decreases self.depth - i,
        {
            let ghost before = self.out@;
            { proof { reveal_strlit("  "); assert("  "@.len() == 2); } self.lit("  ") };
            proof {
                assert(indent_text((i + 1) as nat) == indent_text(i as nat) + "  "@);
                assert(self.out@ =~= old(self).out@ + indent_text((i + 1) as nat));
            }
            i = i + 1;
        }
        proof {
            assert(old(self).out@ + indent_text(0) =~= old(self).out@);
        }
    }

    /// ` :span file lo hi`, when spans are printed.
    fn span(&mut self, s: Span)
        ensures
            final(self).out@ == old(self).out@ + span_text(s, old(self).opts.spans),
            balance(final(self).out@) == balance(old(self).out@),
            final(self).depth == old(self).depth,
            final(self).opts == old(self).opts,
    {
        if self.opts.spans {
            proof {
                reveal_strlit(" :span ");
                reveal_strlit(" ");
                lemma_decimal_paren_free(s.file.0 as nat);
                lemma_decimal_paren_free(s.lo as nat);
                lemma_decimal_paren_free(s.hi as nat);
            }
            { proof { reveal_strlit(" :span "); assert(" :span "@.len() == 7); } self.lit(" :span ") };
            let f = u64_to_decimal(s.file.0 as u64);
            self.push(f.as_str());
            { proof { reveal_strlit(" "); assert(" "@.len() == 1); } self.lit(" ") };
            let lo = u64_to_decimal(s.lo as u64);
            self.push(lo.as_str());
            { proof { reveal_strlit(" "); assert(" "@.len() == 1); } self.lit(" ") };
            let hi = u64_to_decimal(s.hi as u64);
            self.push(hi.as_str());
            proof {
                assert(self.out@ =~= old(self).out@ + span_text(s, old(self).opts.spans));
            }
        } else {
            proof {
                assert(self.out@ =~= old(self).out@ + span_text(s, old(self).opts.spans));
            }
        }
    }

    /// Opens a list on its own line; the caller closes it, telling whether
    /// the nesting grew.
    fn open(&mut self, head: &str) -> (inc: bool)
        ensures
            final(self).out@ == old(self).out@ + open_line(old(self).depth as nat, head@),
            final(self).depth == deeper(old(self).depth as nat),
            inc == (old(self).depth < usize::MAX),
            paren_free(head@) ==> balance(final(self).out@) == balance(old(self).out@) + 1,
            final(self).opts == old(self).opts,
    {
        self.indent();
        self.open_paren();
        self.push(head);
        { proof { reveal_strlit("\n"); assert("\n"@.len() == 1); } self.lit("\n") };
        proof {
            assert(self.out@ =~= old(self).out@ + open_line(old(self).depth as nat, head@));
        }
        if self.depth < usize::MAX {
            self.depth = self.depth + 1;
            true
        } else {
            false
        }
    }

    /// Opens a list with its span on its own line; the caller closes it.
    fn open_with_span(&mut self, head: &str, span: Span) -> (inc: bool)
        ensures
            final(self).out@ == old(self).out@ + open_span_line(old(self).depth as nat, head@, span, old(self).opts.spans),
            final(self).depth == deeper(old(self).depth as nat),
            inc == (old(self).depth < usize::MAX),
            paren_free(head@) ==> balance(final(self).out@) == balance(old(self).out@) + 1,
            final(self).opts == old(self).opts,
    {
        self.indent();
        self.open_paren();
        self.push(head);
        self.span(span);
        { proof { reveal_strlit("\n"); assert("\n"@.len() == 1); } self.lit("\n") };
        proof {
            assert(self.out@ =~= old(self).out@ + open_span_line(
                old(self).depth as nat,
                head@,
                span,
                old(self).opts.spans,
            ));
        }
        if self.depth < usize::MAX {
            self.depth = self.depth + 1;
            true
        } else {
            false
        }
    }

    /// Closes the list that the matching `open` opened.
    fn close(&mut self, inc: bool)
        requires
            inc ==> old(self).depth > 0,
        ensures
            final(self).depth == (if inc {
                old(self).depth - 1
            } else {
                old(self).depth as int
            }),
            final(self).out@ == old(self).out@ + close_line(final(self).depth as nat),
            balance(final(self).out@) == balance(old(self).out@) - 1,
            final(self).opts == old(self).opts,
    {
        if inc {
            self.depth = self.depth - 1;
        }
        let ghost mid = self.out@;
        self.indent();
        self.close_paren();
        proof {
            assert(self.out@ =~= old(self).out@ + close_line(self.depth as nat));
        }
    }

    /// A leaf on one line.
    fn leaf(&mut self, head: &str, span: Span)
        ensures
            final(self).out@ == old(self).out@ + leaf_line(old(self).depth as nat, head@, span, old(self).opts.spans),
            paren_free(head@) ==> balance(final(self).out@) == balance(old(self).out@),
            final(self).depth == old(self).depth,
            final(self).opts == old(self).opts,
    {
        self.indent();
        self.open_paren();
        self.push(head);
        self.span(span);
        self.close_paren();
        proof {
            assert(self.out@ =~= old(self).out@ + leaf_line(
                old(self).depth as nat,
                head@,
                span,
                old(self).opts.spans,
            ));
        }
    }

    /// `(text)` on its own line.
    fn line(&mut self, text: &str)
        ensures
            final(self).out@ == old(self).out@ + text_line(old(self).depth as nat, text@),
            paren_free(text@) ==> balance(final(self).out@) == balance(old(self).out@),
            final(self).depth == old(self).depth,
            final(self).opts == old(self).opts,
    {
        self.indent();
        self.open_paren();
        self.push(text);
        self.close_paren();
        proof {
            assert(self.out@ =~= old(self).out@ + text_line(old(self).depth as nat, text@));
        }
    }

    fn module(&mut self, m: &Module)
        ensures
            final(self).out@ == old(self).out@ + module_dump(*m, old(self).depth as nat, old(self).opts.spans),
            final(self).depth == old(self).depth,
            final(self).opts == old(self).opts,
            pf_module(*m) ==> balance(final(self).out@) == balance(old(self).out@),
    {
        let ghost d = old(self).depth as nat;
        let ghost on = old(self).opts.spans;
        let inc = { proof { reveal_strlit("module"); assert("module"@.len() == 6); } self.open("module") };
        let ghost start = self.out@;
        let mut i: usize = 0;
        while i < m.items.len()
            invariant
                self.depth == deeper(d),
                self.opts.spans == on,
                inc == (d < usize::MAX),
                i <= m.items@.len(),
                self.out@ == start + items_dump(m.items@.take(i as int), deeper(d), on),
                pf_module(*m) ==> balance(self.out@) == balance(old(self).out@) + 1,
            decreases m.items@.len() - i,
        {
            proof {
                assert(m.items@.take(i + 1).drop_last() =~= m.items@.take(i as int));
                assert(m.items@.take(i + 1).last() == m.items@[i as int]);
            }
            self.item(&m.items[i]);
            i = i + 1;
            proof {
                assert(self.out@ =~= start + items_dump(m.items@.take(i as int), deeper(d), on));
            }
        }
        proof {
            assert(m.items@.take(i as int) =~= m.items@);
        }
        self.close(inc);
        proof {
            assert(self.out@ =~= old(self).out@ + module_dump(*m, d, on));
        }
    }

    fn item(&mut self, it: &Item)
        ensures
            final(self).out@ == old(self).out@ + item_dump(*it, old(self).depth as nat, old(self).opts.spans),
            final(self).depth == old(self).depth,
            pf_item(*it) ==> balance(final(self).out@) == balance(old(self).out@),
            final(self).opts == old(self).opts,
    {
        match it {
            Item::Func(f) => self.func_item(f),
            Item::Struct(st) => self.struct_item(st),
            Item::Union(u) => self.union_item(u),
            Item::Use(u) => {
                let j = { proof { reveal_strlit("."); assert("."@.len() == 1); } crate::text::join(&u.segments, ".") };
                let text = { proof { reveal_strlit("use "); assert("use "@.len() == 4); } Self::head2("use ", j.as_str()) };
                proof {
                    if pf_item(*it) {
                        lemma_joined_paren_free(u.segments@, "."@);
                    }
                }
                self.line(text.as_str());
            },
        }
    }

    /// `(param name type)`, with `~` before a mutable name.
    fn param_line(&mut self, p: &Param)
        ensures
            final(self).out@ == old(self).out@ + text_line(
                old(self).depth as nat,
                "param "@ + (if p.is_mut {
                    "~"@
                } else {
                    ""@
                }) + p.name@ + " "@ + type_line(p.ty),
            ),
            paren_free(p.name@) && pf_type(p.ty) ==> balance(final(self).out@) == balance(old(self).out@),
            final(self).depth == old(self).depth,
            final(self).opts == old(self).opts,
    {
        let t = ty(&p.ty);
        proof {
            reveal_strlit("~");
            assert("~"@.len() == 1);
            reveal_strlit("");
            assert(""@.len() == 0);
            reveal_strlit("param ");
            assert("param "@.len() == 6);
            reveal_strlit(" ");
            assert(" "@.len() == 1);
        }
        let mark: &str = if p.is_mut {
            "~"
        } else {
            ""
        };
        let h1 = Self::head2("param ", mark);
        let h2 = Self::head2(h1.as_str(), p.name.as_str());
        let h3 = Self::head2(h2.as_str(), " ");
        let text = Self::head2(h3.as_str(), t.as_str());
        self.line(text.as_str());
    }

    /// `(head type)` for a type that is there, nothing otherwise.
    fn opt_type_line(&mut self, head: &str, t: &Option<TypeExpr>)
        ensures
            final(self).out@ == old(self).out@ + match *t {
                Some(x) => text_line(old(self).depth as nat, head@ + type_line(x)),
                None => Seq::empty(),
            },
            paren_free(head@) && (t matches Some(x) ==> pf_type(*x)) ==> balance(final(self).out@) == balance(
                old(self).out@,
            ),
            final(self).depth == old(self).depth,
            final(self).opts == old(self).opts,
    {
        match t {
            Some(x) => {
                let ts = ty(x);
                let text = Self::head2(head, ts.as_str());
                self.line(text.as_str());
            },
            None => {
                proof {
                    assert(self.out@ =~= old(self).out@ + Seq::<char>::empty());
                }
            },
        }
    }

    fn func_item(&mut self, f: &Func)
        ensures
            final(self).out@ == old(self).out@ + item_dump(Item::Func(*f), old(self).depth as nat, old(self).opts.spans),
            final(self).depth == old(self).depth,
            pf_func(*f) ==> balance(final(self).out@) == balance(old(self).out@),
            final(self).opts == old(self).opts,
    {
        let ghost d = old(self).depth as nat;
        let ghost on = old(self).opts.spans;
        let ghost c = deeper(d);
        let head = { proof { reveal_strlit("func "); assert("func "@.len() == 5); } Self::head2("func ", f.name.as_str()) };
        let inc = self.open_with_span(head.as_str(), f.span);
        let ghost start = self.out@;
        let mut i: usize = 0;
        while i < f.params.len()
            invariant
                i <= f.params@.len(),
                self.depth == c,
                self.opts.spans == on,
                inc == (d < usize::MAX),
                self.out@ == start + params_dump(f.params@.take(i as int), c),
                pf_func(*f) ==> balance(self.out@) == balance(old(self).out@) + 1,
                self.opts == old(self).opts,
            decreases f.params@.len() - i,
        {
            proof {
                assert(f.params@.take(i + 1).drop_last() =~= f.params@.take(i as int));
                assert(f.params@.take(i + 1).last() == f.params@[i as int]);
                assert(f.params@[i as int] == f.params[i as int]);
            }
            self.param_line(&f.params[i]);
            i = i + 1;
            proof {
                let p = f.params@[i - 1];
                lemma_add_assoc(
                    start,
                    params_dump(f.params@.take(i - 1), c),
                    text_line(
                        c,
                        "param "@ + (if p.is_mut {
                            "~"@
                        } else {
                            ""@
                        }) + p.name@ + " "@ + type_line(p.ty),
                    ),
                );
            }
        }
        proof {
            assert(f.params@.take(i as int) =~= f.params@);
        }
        { proof { reveal_strlit("ret-type "); assert("ret-type "@.len() == 9); } self.opt_type_line("ret-type ", &f.ret) };
        { proof { reveal_strlit("err-type "); assert("err-type "@.len() == 9); } self.opt_type_line("err-type ", &f.err) };
        self.expr(&f.body);
        self.close(inc);
        proof {
            let o = old(self).out@;
            let h = open_span_line(d, "func "@ + f.name@, f.span, on);
            let ps = params_dump(f.params@, c);
            let rs = match &f.ret {
                Some(t) => text_line(c, "ret-type "@ + type_line(*t)),
                None => Seq::empty(),
            };
            let es = match &f.err {
                Some(t) => text_line(c, "err-type "@ + type_line(*t)),
                None => Seq::empty(),
            };
            let bs = expr_dump(f.body, c, on);
            lemma_add_assoc(o, h, ps);
            lemma_add_assoc(o, h + ps, rs);
            lemma_add_assoc(o, h + ps + rs, es);
            lemma_add_assoc(o, h + ps + rs + es, bs);
            lemma_add_assoc(o, h + ps + rs + es + bs, close_line(d));
        }
    }

    /// `(field name type)`.
    fn field_line(&mut self, fl: &Field)
        ensures
            final(self).out@ == old(self).out@ + text_line(
                old(self).depth as nat,
                "field "@ + fl.name@ + " "@ + type_line(fl.ty),
            ),
            paren_free(fl.name@) && pf_type(fl.ty) ==> balance(final(self).out@) == balance(old(self).out@),
            final(self).depth == old(self).depth,
            final(self).opts == old(self).opts,
    {
        let t = ty(&fl.ty);
        let h1 = { proof { reveal_strlit("field "); assert("field "@.len() == 6); } Self::head2("field ", fl.name.as_str()) };
        let h2 = { proof { reveal_strlit(" "); assert(" "@.len() == 1); } Self::head2(h1.as_str(), " ") };
        let text = Self::head2(h2.as_str(), t.as_str());
        self.line(text.as_str());
    }

    fn struct_item(&mut self, st: &StructDef)
        ensures
            final(self).out@ == old(self).out@ + item_dump(Item::Struct(*st), old(self).depth as nat, old(self).opts.spans),
            final(self).depth == old(self).depth,
            pf_struct(*st) ==> balance(final(self).out@) == balance(old(self).out@),
            final(self).opts == old(self).opts,
    {
        let ghost d = old(self).depth as nat;
        let ghost on = old(self).opts.spans;
        let ghost c = deeper(d);
        let head = { proof { reveal_strlit("struct "); assert("struct "@.len() == 7); } Self::head2("struct ", st.name.as_str()) };
        let inc = self.open_with_span(head.as_str(), st.span);
        let ghost start = self.out@;
        let mut i: usize = 0;
        while i < st.fields.len()
            invariant
                i <= st.fields@.len(),
                self.depth == c,
                self.opts.spans == on,
                inc == (d < usize::MAX),
                self.out@ == start + fields_dump(st.fields@.take(i as int), c),
                pf_struct(*st) ==> balance(self.out@) == balance(old(self).out@) + 1,
                self.opts == old(self).opts,
            decreases st.fields@.len() - i,
        {
            proof {
                assert(st.fields@.take(i + 1).drop_last() =~= st.fields@.take(i as int));
                assert(st.fields@.take(i + 1).last() == st.fields@[i as int]);
                assert(st.fields@[i as int] == st.fields[i as int]);
            }
            self.field_line(&st.fields[i]);
            i = i + 1;
            proof {
                assert(self.out@ =~= start + fields_dump(st.fields@.take(i as int), c));
            }
        }
        proof {
            assert(st.fields@.take(i as int) =~= st.fields@);
        }
        self.close(inc);
        proof {
            assert(self.out@ =~= old(self).out@ + item_dump(Item::Struct(*st), d, on));
        }
    }

    /// `(variant .Name payload..)`.
    fn variant_line(&mut self, v: &Variant)
        ensures
            final(self).out@ == old(self).out@ + text_line(
                old(self).depth as nat,
                "variant ."@ + v.name@ + " "@ + payload_text(v.payload@),
            ),
            pf_variant(*v) ==> balance(final(self).out@) == balance(old(self).out@),
            final(self).depth == old(self).depth,
            final(self).opts == old(self).opts,
    {
        let types = Self::payload(&v.payload);
        let h1 = { proof { reveal_strlit("variant ."); assert("variant ."@.len() == 9); } Self::head2("variant .", v.name.as_str()) };
        let h2 = { proof { reveal_strlit(" "); assert(" "@.len() == 1); } Self::head2(h1.as_str(), " ") };
        let text = Self::head2(h2.as_str(), types.as_str());
        self.line(text.as_str());
    }

    fn union_item(&mut self, u: &UnionDef)
        ensures
            final(self).out@ == old(self).out@ + item_dump(Item::Union(*u), old(self).depth as nat, old(self).opts.spans),
            final(self).depth == old(self).depth,
            pf_union(*u) ==> balance(final(self).out@) == balance(old(self).out@),
            final(self).opts == old(self).opts,
    {
        let ghost d = old(self).depth as nat;
        let ghost on = old(self).opts.spans;
        let ghost c = deeper(d);
        let head = { proof { reveal_strlit("union "); assert("union "@.len() == 6); } Self::head2("union ", u.name.as_str()) };
        let inc = self.open_with_span(head.as_str(), u.span);
        let ghost start = self.out@;
        let mut i: usize = 0;
        while i < u.variants.len()
            invariant
                i <= u.variants@.len(),
                self.depth == c,
                self.opts.spans == on,
                inc == (d < usize::MAX),
                self.out@ == start + variants_dump(u.variants@.take(i as int), c),
                pf_union(*u) ==> balance(self.out@) == balance(old(self).out@) + 1,
                self.opts == old(self).opts,
            decreases u.variants@.len() - i,
        {
            proof {
                assert(u.variants@.take(i + 1).drop_last() =~= u.variants@.take(i as int));
                assert(u.variants@.take(i + 1).last() == u.variants@[i as int]);
                assert(u.variants@[i as int] == u.variants[i as int]);
            }
            self.variant_line(&u.variants[i]);
            i = i + 1;
            proof {
                assert(self.out@ =~= start + variants_dump(u.variants@.take(i as int), c));
            }
        }
        proof {
            assert(u.variants@.take(i as int) =~= u.variants@);
        }
        self.close(inc);
        proof {
            assert(self.out@ =~= old(self).out@ + item_dump(Item::Union(*u), d, on));
        }
    }

    /// The written forms of a variant's payload types, separated by
    /// spaces.
    fn payload(types: &Vec<TypeExpr>) -> (s: String)
        ensures
            s@ == payload_text(types@),
            (forall|i: int| 0 <= i < types@.len() ==> pf_type(#[trigger] types@[i])) ==> paren_free(s@),
    {
        let ghost ok = forall|i: int| 0 <= i < types@.len() ==> pf_type(#[trigger] types@[i]);
        let mut s = String::new();
        let mut k: usize = 0;
        proof {
            reveal_strlit(" ");
            assert(" "@.len() == 1);
            assert(s@ =~= payload_text(types@.take(0)));
        }
        while k < types.len()
            invariant
                k <= types@.len(),
                s@ == payload_text(types@.take(k as int)),
                ok == (forall|i: int| 0 <= i < types@.len() ==> pf_type(#[trigger] types@[i])),
                ok ==> paren_free(s@),
            decreases types@.len() - k,
        {
            proof {
                assert(types@.take(k + 1).drop_last() =~= types@.take(k as int));
                assert(types@.take(k + 1).last() == types@[k as int]);
            }
            let ghost before = s@;
            proof {
                reveal_strlit(" ");
                assert(" "@.len() == 1);
                assert(types@[k as int] == types[k as int]);
            }
            if k > 0 {
                proof {
                    lemma_concat_paren_free(s@, " "@);
                }
                s.append(" ");
            }
            let t = ty(&types[k]);
            proof {
                lemma_concat_paren_free(s@, t@);
            }
            s.append(t.as_str());
            k = k + 1;
            proof {
                if k == 1 {
                    assert(types@.take(1)[0] == types@[0]);
                    assert(s@ =~= payload_text(types@.take(1)));
                } else {
                    assert(s@ =~= payload_text(types@.take(k as int)));
                }
            }
        }
        proof {
            assert(types@.take(k as int) =~= types@);
        }
        s
    }

    fn stmt(&mut self, st: &Stmt)
        ensures
            final(self).out@ == old(self).out@ + stmt_dump(*st, old(self).depth as nat, old(self).opts.spans),
            final(self).depth == old(self).depth,
            pf_stmt(*st) ==> balance(final(self).out@) == balance(old(self).out@),
            final(self).opts == old(self).opts,
        decreases st, 0int,
    {
        let ghost d = old(self).depth as nat;
        let ghost on = old(self).opts.spans;
        match st {
            Stmt::Let { name, is_mut, ty: t, init, .. } => {
                let tstr = match t {
                    Some(te) => ty(te),
                    None => {
                        proof {
                            reveal_strlit("_");
                            assert("_"@.len() == 1);
                        }
                        String::from_str("_")
                    },
                };
                proof {
                    reveal_strlit("~");
                    assert("~"@.len() == 1);
                    reveal_strlit("");
                    assert(""@.len() == 0);
                    reveal_strlit("let ");
                    assert("let "@.len() == 4);
                    reveal_strlit(" ");
                    assert(" "@.len() == 1);
                }
                let mark = if *is_mut {
                    "~"
                } else {
                    ""
                };
                let h1 = Self::head2("let ", mark);
                let h2 = Self::head2(h1.as_str(), name.as_str());
                let h3 = Self::head2(h2.as_str(), " ");
                let head = Self::head2(h3.as_str(), tstr.as_str());
                let inc = self.open(head.as_str());
                self.expr(init);
                self.close(inc);
                proof {
                    let o = old(self).out@;
                    let h = open_line(d, head@);
                    let xs = expr_dump(*init, deeper(d), on);
                    lemma_add_assoc(o, h, xs);
                    lemma_add_assoc(o, h + xs, close_line(d));
                }
            },
            Stmt::Assign { target, value, .. } => {
                let inc = { proof { reveal_strlit("assign"); assert("assign"@.len() == 6); } self.open("assign") };
                self.expr(target);
                self.expr(value);
                self.close(inc);
                proof {
                    let o = old(self).out@;
                    let h = open_line(d, "assign"@);
                    let ts = expr_dump(*target, deeper(d), on);
                    let vs = expr_dump(*value, deeper(d), on);
                    lemma_add_assoc(o, h, ts);
                    lemma_add_assoc(o, h + ts, vs);
                    lemma_add_assoc(o, h + ts + vs, close_line(d));
                }
            },
            Stmt::Defer(e, _) => {
                let inc = { proof { reveal_strlit("defer"); assert("defer"@.len() == 5); } self.open("defer") };
                self.expr(e);
                self.close(inc);
                proof {
                    let o = old(self).out@;
                    let h = open_line(d, "defer"@);
                    let xs = expr_dump(*e, deeper(d), on);
                    lemma_add_assoc(o, h, xs);
                    lemma_add_assoc(o, h + xs, close_line(d));
                }
            },
            Stmt::Expr(e) => self.expr(e),
        }
    }

    fn pattern(&mut self, pt: &Pattern)
        ensures
            final(self).out@ == old(self).out@ + pattern_dump(*pt, old(self).depth as nat, old(self).opts.spans),
            final(self).depth == old(self).depth,
            pf_pattern(*pt) ==> balance(final(self).out@) == balance(old(self).out@),
            final(self).opts == old(self).opts,
        decreases pt, 0int,
    {
        let ghost d = old(self).depth as nat;
        let ghost on = old(self).opts.spans;
        match pt {
            Pattern::Variant { name, bindings, .. } => {
                let j = { proof { reveal_strlit(" "); assert(" "@.len() == 1); } crate::text::join(bindings, " ") };
                let h1 = { proof { reveal_strlit("pat-variant ."); assert("pat-variant ."@.len() == 13); } Self::head2("pat-variant .", name.as_str()) };
                let h2 = Self::head2(h1.as_str(), " ");
                proof {
                    if pf_pattern(*pt) {
                        lemma_joined_paren_free(bindings@, " "@);
                    }
                }
                let text = Self::head2(h2.as_str(), j.as_str());
                self.line(text.as_str());
            },
            Pattern::Bind(n, _) => {
                let text = { proof { reveal_strlit("pat-bind "); assert("pat-bind "@.len() == 9); } Self::head2("pat-bind ", n.as_str()) };
                self.line(text.as_str());
            },
            Pattern::Lit(e) => {
                let inc = { proof { reveal_strlit("pat-lit"); assert("pat-lit"@.len() == 7); } self.open("pat-lit") };
                self.expr(e);
                self.close(inc);
                proof {
                    let o = old(self).out@;
                    let h = open_line(d, "pat-lit"@);
                    let xs = expr_dump(**e, deeper(d), on);
                    lemma_add_assoc(o, h, xs);
                    lemma_add_assoc(o, h + xs, close_line(d));
                }
            },
            Pattern::Wildcard(_) => {
                { proof { reveal_strlit("pat-wildcard"); assert("pat-wildcard"@.len() == 12); } self.line("pat-wildcard") };
            },
            Pattern::Cond(e) => {
                let inc = { proof { reveal_strlit("pat-cond"); assert("pat-cond"@.len() == 8); } self.open("pat-cond") };
                self.expr(e);
                self.close(inc);
                proof {
                    let o = old(self).out@;
                    let h = open_line(d, "pat-cond"@);
                    let xs = expr_dump(**e, deeper(d), on);
                    lemma_add_assoc(o, h, xs);
                    lemma_add_assoc(o, h + xs, close_line(d));
                }
            },
        }
    }

    /// `head` followed by `name`, as one string.
    fn head2(head: &str, name: &str) -> (s: String)
        ensures
            s@ == head@ + name@,
            paren_free(head@) && paren_free(name@) ==> paren_free(s@),
    {
        proof {
            lemma_concat_paren_free(head@, name@);
        }
        crate::text::concat2(head, name)
    }

    fn expr(&mut self, e: &Expr)
        ensures
            final(self).out@ == old(self).out@ + expr_dump(*e, old(self).depth as nat, old(self).opts.spans),
            final(self).depth == old(self).depth,
            pf_expr(*e) ==> balance(final(self).out@) == balance(old(self).out@),
            final(self).opts == old(self).opts,
        decreases e, 1int,
    {
        match e {
            Expr::Int(v, sp) => {
                let h = { proof { reveal_strlit("int "); assert("int "@.len() == 4); } Self::head2("int ", v.as_str()) };
                self.leaf(h.as_str(), *sp);
            },
            Expr::Float(v, sp) => {
                let h = { proof { reveal_strlit("float "); assert("float "@.len() == 6); } Self::head2("float ", v.as_str()) };
                self.leaf(h.as_str(), *sp);
            },
            Expr::Str(v, sp) => {
                let q = debug_string(v.as_str());
                let h = { proof { reveal_strlit("str "); assert("str "@.len() == 4); } Self::head2("str ", q.as_str()) };
                self.leaf(h.as_str(), *sp);
            },
            Expr::Bool(v, sp) => {
                if *v {
                    { proof { reveal_strlit("bool true"); assert("bool true"@.len() == 9); } self.leaf("bool true", *sp) };
                } else {
                    { proof { reveal_strlit("bool false"); assert("bool false"@.len() == 10); } self.leaf("bool false", *sp) };
                }
            },
            Expr::Nil(sp) => { proof { reveal_strlit("nil"); assert("nil"@.len() == 3); } self.leaf("nil", *sp) },
            Expr::Path(segs, sp) => {
                let j = { proof { reveal_strlit("."); assert("."@.len() == 1); } crate::text::join(segs, ".") };
                proof {
                    if pf_expr(*e) {
                        lemma_joined_paren_free(segs@, "."@);
                    }
                }
                let h = { proof { reveal_strlit("path "); assert("path "@.len() == 5); } Self::head2("path ", j.as_str()) };
                self.leaf(h.as_str(), *sp);
            },
            Expr::Branch { .. } => self.branch_expr(e),
            Expr::Loop { .. } => self.loop_expr(e),
            Expr::Call { .. } => self.call_expr(e),
            Expr::Field { base, name, .. } => {
                let h = { proof { reveal_strlit("field "); assert("field "@.len() == 6); } Self::head2("field ", name.as_str()) };
                self.wrap1(e, h.as_str(), base);
            },
            Expr::Index { base, index, .. } => {
                { proof { reveal_strlit("index"); assert("index"@.len() == 5); } self.wrap2(e, "index", base, index) };
            },
            Expr::Deref(inner, _) => {
                { proof { reveal_strlit("deref"); assert("deref"@.len() == 5); } self.wrap1(e, "deref", inner) };
            },
            Expr::Propagate(inner, _) => {
                { proof { reveal_strlit("propagate"); assert("propagate"@.len() == 9); } self.wrap1(e, "propagate", inner) };
            },
            Expr::Unary { op, operand, .. } => {
                let h = { proof { reveal_strlit("unary "); assert("unary "@.len() == 6); } Self::head2("unary ", op) };
                self.wrap1(e, h.as_str(), operand);
            },
            Expr::Binary { op, lhs, rhs, .. } => {
                let h = { proof { reveal_strlit("binary "); assert("binary "@.len() == 7); } Self::head2("binary ", op) };
                self.wrap2(e, h.as_str(), lhs, rhs);
            },
            Expr::Block { .. } => self.block_expr(e),
            Expr::Ret(v, sp) => match v {
                Some(x) => {
                    { proof { reveal_strlit("ret"); assert("ret"@.len() == 3); } self.wrap1(e, "ret", x) };
                },
                None => { proof { reveal_strlit("ret"); assert("ret"@.len() == 3); } self.leaf("ret", *sp) },
            },
            Expr::Stop { .. } => self.stop_expr(e),
            Expr::Skip { label, span } => match label {
                Some(lbl) => {
                    let h = { proof { reveal_strlit("skip @"); assert("skip @"@.len() == 6); } Self::head2("skip @", lbl.as_str()) };
                    self.leaf(h.as_str(), *span);
                },
                None => { proof { reveal_strlit("skip"); assert("skip"@.len() == 4); } self.leaf("skip", *span) },
            },
            Expr::Jmp { target, label, span } => match (target, label) {
                (Some(t), None) => {
                    { proof { reveal_strlit("jmp"); assert("jmp"@.len() == 3); } self.wrap1(e, "jmp", t) };
                },
                (None, Some(lbl)) => {
                    let h = { proof { reveal_strlit("jmp @"); assert("jmp @"@.len() == 5); } Self::head2("jmp @", lbl.as_str()) };
                    self.leaf(h.as_str(), *span);
                },
                _ => { proof { reveal_strlit("jmp"); assert("jmp"@.len() == 3); } self.leaf("jmp", *span) },
            },
            Expr::StructLit { .. } => self.struct_lit_expr(e),
            Expr::ArrayLit { .. } => self.array_lit_expr(e),
            Expr::VariantConstructor { .. } => self.variant_ctor_expr(e),
        }
    }

    /// A list holding one expression: `(head inner)`.
    fn wrap1(&mut self, e: &Expr, head: &str, inner: &Expr)
        requires
            decreases_to!(*e => *inner),
        ensures
            final(self).out@ == old(self).out@ + (open_line(old(self).depth as nat, head@) + expr_dump(
                *inner,
                deeper(old(self).depth as nat),
                old(self).opts.spans,
            ) + close_line(old(self).depth as nat)),
            final(self).depth == old(self).depth,
            paren_free(head@) && pf_expr(*inner) ==> balance(final(self).out@) == balance(old(self).out@),
            final(self).opts == old(self).opts,
        decreases e, 0int,
    {
        let ghost d = old(self).depth as nat;
        let ghost on = old(self).opts.spans;
        let inc = self.open(head);
        let ghost a = self.out@;
        self.expr(inner);
        let ghost b = self.out@;
        self.close(inc);
        proof {
            lemma_add_assoc(old(self).out@, open_line(d, head@), expr_dump(*inner, deeper(d), on));
            lemma_add_assoc(old(self).out@, open_line(d, head@) + expr_dump(*inner, deeper(d), on), close_line(d));
        }
    }

    /// A list holding two expressions: `(head x y)`.
    fn wrap2(&mut self, e: &Expr, head: &str, x: &Expr, y: &Expr)
        requires
            decreases_to!(*e => *x),
            decreases_to!(*e => *y),
        ensures
            final(self).out@ == old(self).out@ + (open_line(old(self).depth as nat, head@) + expr_dump(
                *x,
                deeper(old(self).depth as nat),
                old(self).opts.spans,
            ) + expr_dump(*y, deeper(old(self).depth as nat), old(self).opts.spans) + close_line(
                old(self).depth as nat,
            )),
            final(self).depth == old(self).depth,
            paren_free(head@) && pf_expr(*x) && pf_expr(*y) ==> balance(final(self).out@) == balance(
                old(self).out@,
            ),
            final(self).opts == old(self).opts,
        decreases e, 0int,
    {
        let ghost d = old(self).depth as nat;
        let ghost on = old(self).opts.spans;
        let ghost c = deeper(d);
        let inc = self.open(head);
        self.expr(x);
        self.expr(y);
        self.close(inc);
        proof {
            let o = old(self).out@;
            let h = open_line(d, head@);
            let xs = expr_dump(*x, c, on);
            let ys = expr_dump(*y, c, on);
            lemma_add_assoc(o, h, xs);
            lemma_add_assoc(o, h + xs, ys);
            lemma_add_assoc(o, h + xs + ys, close_line(d));
        }
    }

    fn loop_expr(&mut self, e: &Expr)
        requires
            e is Loop,
        ensures
            final(self).out@ == old(self).out@ + expr_dump(*e, old(self).depth as nat, old(self).opts.spans),
            final(self).depth == old(self).depth,
            pf_expr(*e) ==> balance(final(self).out@) == balance(old(self).out@),
            final(self).opts == old(self).opts,
        decreases e, 0int,
    {
        let ghost d = old(self).depth as nat;
        let ghost on = old(self).opts.spans;
        let ghost c = deeper(d);
        match e {
            Expr::Loop { subject, body, .. } => {
                let inc = { proof { reveal_strlit("loop"); assert("loop"@.len() == 4); } self.open("loop") };
                let ghost opened = self.out@;
                match subject {
                    Some(sj) => self.expr(sj),
                    None => {},
                }
                let ghost mid = self.out@;
                self.expr(body);
                self.close(inc);
                proof {
                    let o = old(self).out@;
                    let h = open_line(d, "loop"@);
                    let ss = match subject {
                        Some(sj) => expr_dump(**sj, c, on),
                        None => Seq::empty(),
                    };
                    assert(mid =~= opened + ss);
                    let bs = expr_dump(**body, c, on);
                    lemma_add_assoc(o, h, ss);
                    lemma_add_assoc(o, h + ss, bs);
                    lemma_add_assoc(o, h + ss + bs, close_line(d));
                }
            },
            _ => {},
        }
    }

    fn variant_ctor_expr(&mut self, e: &Expr)
        requires
            e is VariantConstructor,
        ensures
            final(self).out@ == old(self).out@ + expr_dump(*e, old(self).depth as nat, old(self).opts.spans),
            final(self).depth == old(self).depth,
            pf_expr(*e) ==> balance(final(self).out@) == balance(old(self).out@),
            final(self).opts == old(self).opts,
        decreases e, 0int,
    {
        let ghost d = old(self).depth as nat;
        let ghost on = old(self).opts.spans;
        let ghost c = deeper(d);
        match e {
            Expr::VariantConstructor { name, payload, .. } => {
                let h = { proof { reveal_strlit("variant-ctor ."); assert("variant-ctor ."@.len() == 14); } Self::head2("variant-ctor .", name.as_str()) };
                let inc = self.open(h.as_str());
                let ghost opened = self.out@;
                match payload {
                    Some(pl) => self.expr(pl),
                    None => {},
                }
                let ghost mid = self.out@;
                self.close(inc);
                proof {
                    let o = old(self).out@;
                    let hd = open_line(d, "variant-ctor ."@ + name@);
                    let ps = match payload {
                        Some(pl) => expr_dump(**pl, c, on),
                        None => Seq::empty(),
                    };
                    assert(mid =~= opened + ps);
                    lemma_add_assoc(o, hd, ps);
                    lemma_add_assoc(o, hd + ps, close_line(d));
                }
            },
            _ => {},
        }
    }

    fn stop_expr(&mut self, e: &Expr)
        requires
            e is Stop,
        ensures
            final(self).out@ == old(self).out@ + expr_dump(*e, old(self).depth as nat, old(self).opts.spans),
            final(self).depth == old(self).depth,
            pf_expr(*e) ==> balance(final(self).out@) == balance(old(self).out@),
            final(self).opts == old(self).opts,
    {
        let ghost d = old(self).depth as nat;
        let ghost on = old(self).opts.spans;
        let ghost c = deeper(d);
        match e {
            Expr::Stop { label, span } => {
                let inc = match label {
                    Some(lbl) => {
                        let h = { proof { reveal_strlit("stop @"); assert("stop @"@.len() == 6); } Self::head2("stop @", lbl.as_str()) };
                        self.open(h.as_str())
                    },
                    None => { proof { reveal_strlit("stop"); assert("stop"@.len() == 4); } self.open("stop") },
                };
                { proof { reveal_strlit(""); assert(""@.len() == 0); } self.leaf("", *span) };
                self.close(inc);
                proof {
                    let o = old(self).out@;
                    let hd = open_line(d, match label {
                        Some(l) => "stop @"@ + l@,
                        None => "stop"@,
                    });
                    assert(""@ =~= Seq::<char>::empty());
                    let lf = leaf_line(c, Seq::empty(), *span, on);
                    lemma_add_assoc(o, hd, lf);
                    lemma_add_assoc(o, hd + lf, close_line(d));
                }
            },
            _ => {},
        }
    }

    #[verifier::loop_isolation(false)]
    fn branch_expr(&mut self, e: &Expr)
        requires
            e is Branch,
        ensures
            final(self).out@ == old(self).out@ + expr_dump(*e, old(self).depth as nat, old(self).opts.spans),
            final(self).depth == old(self).depth,
            pf_expr(*e) ==> balance(final(self).out@) == balance(old(self).out@),
            final(self).opts == old(self).opts,
        decreases e, 0int,
    {
        let ghost d = old(self).depth as nat;
        let ghost on = old(self).opts.spans;
        let ghost c = deeper(d);
        match e {
            Expr::Branch { scrutinee, arms, .. } => {
                let inc = { proof { reveal_strlit("branch"); assert("branch"@.len() == 6); } self.open("branch") };
                let ghost opened = self.out@;
                match scrutinee {
                    Some(sc) => self.expr(sc),
                    None => {},
                }
                let ghost start = self.out@;
                let ghost ss = match scrutinee {
                    Some(sc) => expr_dump(**sc, c, on),
                    None => Seq::empty(),
                };
                proof {
                    assert(start =~= opened + ss);
                }
                let mut i: usize = 0;
                while i < arms.len()
                    invariant
                        i <= arms@.len(),
                        self.depth == c,
                        self.opts.spans == on,
                        self.out@ == start + arms_dump(arms@.take(i as int), c, on),
                        pf_expr(*e) ==> balance(self.out@) == balance(old(self).out@) + 1,
                        self.opts == old(self).opts,
                    decreases arms@.len() - i,
                {
                    proof {
                        assert(decreases_to!(e => arms@[i as int]));
                        assert(arms@.take(i + 1).drop_last() =~= arms@.take(i as int));
                        assert(arms@.take(i + 1).last() == arms@[i as int]);
                    }
                    let a = &arms[i];
                    let ghost before = self.out@;
                    let ai = { proof { reveal_strlit("arm"); assert("arm"@.len() == 3); } self.open("arm") };
                    self.pattern(&a.pattern);
                    self.expr(&a.body);
                    self.close(ai);
                    i = i + 1;
                    proof {
                        let h = open_line(c, "arm"@);
                        let ps = pattern_dump(a.pattern, deeper(c), on);
                        let bs = expr_dump(a.body, deeper(c), on);
                        lemma_add_assoc(before, h, ps);
                        lemma_add_assoc(before, h + ps, bs);
                        lemma_add_assoc(before, h + ps + bs, close_line(c));
                        let prev = arms_dump(arms@.take(i - 1), c, on);
                        lemma_add_assoc(start, prev, h + ps + bs + close_line(c));
                        assert(arms_dump(arms@.take(i as int), c, on) == prev + (h + ps + bs + close_line(c))) by {
                            lemma_add_assoc(prev, h, ps);
                            lemma_add_assoc(prev, h + ps, bs);
                            lemma_add_assoc(prev, h + ps + bs, close_line(c));
                        }
                    }
                }
                proof {
                    assert(arms@.take(i as int) =~= arms@);
                }
                self.close(inc);
                proof {
                    let o = old(self).out@;
                    let h = open_line(d, "branch"@);
                    let ad = arms_dump(arms@, c, on);
                    lemma_add_assoc(o, h, ss);
                    lemma_add_assoc(o, h + ss, ad);
                    lemma_add_assoc(o, h + ss + ad, close_line(d));
                }
            },
            _ => {},
        }
    }

    #[verifier::loop_isolation(false)]
    fn call_expr(&mut self, e: &Expr)
        requires
            e is Call,
        ensures
            final(self).out@ == old(self).out@ + expr_dump(*e, old(self).depth as nat, old(self).opts.spans),
            final(self).depth == old(self).depth,
            pf_expr(*e) ==> balance(final(self).out@) == balance(old(self).out@),
            final(self).opts == old(self).opts,
        decreases e, 0int,
    {
        let ghost d = old(self).depth as nat;
        let ghost on = old(self).opts.spans;
        let ghost c = deeper(d);
        match e {
            Expr::Call { callee, args, .. } => {
                let inc = { proof { reveal_strlit("call"); assert("call"@.len() == 4); } self.open("call") };
                self.expr(callee);
                let ghost start = self.out@;
                let mut i: usize = 0;
                while i < args.len()
                    invariant
                        i <= args@.len(),
                        self.depth == c,
                        self.opts.spans == on,
                        self.out@ == start + exprs_dump(args@.take(i as int), c, on),
                        pf_expr(*e) ==> balance(self.out@) == balance(old(self).out@) + 1,
                        self.opts == old(self).opts,
                    decreases args@.len() - i,
                {
                    proof {
                        assert(decreases_to!(e => args@[i as int]));
                        assert(args@.take(i + 1).drop_last() =~= args@.take(i as int));
                        assert(args@.take(i + 1).last() == args@[i as int]);
                    }
                    self.expr(&args[i]);
                    i = i + 1;
                    proof {
                        lemma_add_assoc(start, exprs_dump(args@.take(i - 1), c, on), expr_dump(args@[i - 1], c, on));
                    }
                }
                proof {
                    assert(args@.take(i as int) =~= args@);
                }
                self.close(inc);
                proof {
                    let o = old(self).out@;
                    let h = open_line(d, "call"@);
                    let cs = expr_dump(**callee, c, on);
                    let xs = exprs_dump(args@, c, on);
                    lemma_add_assoc(o, h, cs);
                    lemma_add_assoc(o, h + cs, xs);
                    lemma_add_assoc(o, h + cs + xs, close_line(d));
                }
            },
            _ => {},
        }
    }

    #[verifier::loop_isolation(false)]
    fn block_expr(&mut self, e: &Expr)
        requires
            e is Block,
        ensures
            final(self).out@ == old(self).out@ + expr_dump(*e, old(self).depth as nat, old(self).opts.spans),
            final(self).depth == old(self).depth,
            pf_expr(*e) ==> balance(final(self).out@) == balance(old(self).out@),
            final(self).opts == old(self).opts,
        decreases e, 0int,
    {
        let ghost d = old(self).depth as nat;
        let ghost on = old(self).opts.spans;
        let ghost c = deeper(d);
        match e {
            Expr::Block { stmts, .. } => {
                let inc = { proof { reveal_strlit("block"); assert("block"@.len() == 5); } self.open("block") };
                let ghost start = self.out@;
                let mut i: usize = 0;
                while i < stmts.len()
                    invariant
                        i <= stmts@.len(),
                        self.depth == c,
                        self.opts.spans == on,
                        self.out@ == start + stmts_dump(stmts@.take(i as int), c, on),
                        pf_expr(*e) ==> balance(self.out@) == balance(old(self).out@) + 1,
                        self.opts == old(self).opts,
                    decreases stmts@.len() - i,
                {
                    proof {
                        assert(decreases_to!(e => stmts@[i as int]));
                        assert(stmts@.take(i + 1).drop_last() =~= stmts@.take(i as int));
                        assert(stmts@.take(i + 1).last() == stmts@[i as int]);
                    }
                    self.stmt(&stmts[i]);
                    i = i + 1;
                    proof {
                        lemma_add_assoc(start, stmts_dump(stmts@.take(i - 1), c, on), stmt_dump(stmts@[i - 1], c, on));
                    }
                }
                proof {
                    assert(stmts@.take(i as int) =~= stmts@);
                }
                self.close(inc);
                proof {
                    let o = old(self).out@;
                    let h = open_line(d, "block"@);
                    let xs = stmts_dump(stmts@, c, on);
                    lemma_add_assoc(o, h, xs);
                    lemma_add_assoc(o, h + xs, close_line(d));
                }
            },
            _ => {},
        }
    }

    #[verifier::loop_isolation(false)]
    fn struct_lit_expr(&mut self, e: &Expr)
        requires
            e is StructLit,
        ensures
            final(self).out@ == old(self).out@ + expr_dump(*e, old(self).depth as nat, old(self).opts.spans),
            final(self).depth == old(self).depth,
            pf_expr(*e) ==> balance(final(self).out@) == balance(old(self).out@),
            final(self).opts == old(self).opts,
        decreases e, 0int,
    {
        let ghost d = old(self).depth as nat;
        let ghost on = old(self).opts.spans;
        let ghost c = deeper(d);
        match e {
            Expr::StructLit { name, fields, .. } => {
                let hd = { proof { reveal_strlit("struct-lit "); assert("struct-lit "@.len() == 11); } Self::head2("struct-lit ", name.as_str()) };
                let inc = self.open(hd.as_str());
                let ghost start = self.out@;
                let mut i: usize = 0;
                while i < fields.len()
                    invariant
                        i <= fields@.len(),
                        self.depth == c,
                        self.opts.spans == on,
                        self.out@ == start + field_inits_dump(fields@.take(i as int), c, on),
                        pf_expr(*e) ==> balance(self.out@) == balance(old(self).out@) + 1,
                        self.opts == old(self).opts,
                    decreases fields@.len() - i,
                {
                    proof {
                        assert(decreases_to!(e => fields@[i as int]));
                        assert(fields@.take(i + 1).drop_last() =~= fields@.take(i as int));
                        assert(fields@.take(i + 1).last() == fields@[i as int]);
                    }
                    let ghost before = self.out@;
                    let fh = { proof { reveal_strlit("field "); assert("field "@.len() == 6); } Self::head2("field ", fields[i].0.as_str()) };
                    let fi = self.open(fh.as_str());
                    self.expr(&fields[i].1);
                    self.close(fi);
                    i = i + 1;
                    proof {
                        let prev = field_inits_dump(fields@.take(i - 1), c, on);
                        let h = open_line(c, "field "@ + fields@[i - 1].0@);
                        let vs = expr_dump(fields@[i - 1].1, deeper(c), on);
                        lemma_add_assoc(before, h, vs);
                        lemma_add_assoc(before, h + vs, close_line(c));
                        lemma_add_assoc(start, prev, h + vs + close_line(c));
                        assert(field_inits_dump(fields@.take(i as int), c, on) == prev + (h + vs + close_line(c))) by {
                            lemma_add_assoc(prev, h, vs);
                            lemma_add_assoc(prev, h + vs, close_line(c));
                        }
                    }
                }
                proof {
                    assert(fields@.take(i as int) =~= fields@);
                }
                self.close(inc);
                proof {
                    let o = old(self).out@;
                    let h = open_line(d, "struct-lit "@ + name@);
                    let xs = field_inits_dump(fields@, c, on);
                    lemma_add_assoc(o, h, xs);
                    lemma_add_assoc(o, h + xs, close_line(d));
                }
            },
            _ => {},
        }
    }

    #[verifier::loop_isolation(false)]
    fn array_lit_expr(&mut self, e: &Expr)
        requires
            e is ArrayLit,
        ensures
            final(self).out@ == old(self).out@ + expr_dump(*e, old(self).depth as nat, old(self).opts.spans),
            final(self).depth == old(self).depth,
            pf_expr(*e) ==> balance(final(self).out@) == balance(old(self).out@),
            final(self).opts == old(self).opts,
        decreases e, 0int,
    {
        let ghost d = old(self).depth as nat;
        let ghost on = old(self).opts.spans;
        let ghost c = deeper(d);
        match e {
            Expr::ArrayLit { elements, .. } => {
                let inc = { proof { reveal_strlit("array-lit"); assert("array-lit"@.len() == 9); } self.open("array-lit") };
                let ghost start = self.out@;
                let mut i: usize = 0;
                while i < elements.len()
                    invariant
                        i <= elements@.len(),
                        self.depth == c,
                        self.opts.spans == on,
                        self.out@ == start + exprs_dump(elements@.take(i as int), c, on),
                        pf_expr(*e) ==> balance(self.out@) == balance(old(self).out@) + 1,
                        self.opts == old(self).opts,
                    decreases elements@.len() - i,
                {
                    proof {
                        assert(decreases_to!(e => elements@[i as int]));
                        assert(elements@.take(i + 1).drop_last() =~= elements@.take(i as int));
                        assert(elements@.take(i + 1).last() == elements@[i as int]);
                    }
                    self.expr(&elements[i]);
                    i = i + 1;
                    proof {
                        lemma_add_assoc(start, exprs_dump(elements@.take(i - 1), c, on), expr_dump(elements@[i - 1], c, on));
                    }
                }
                proof {
                    assert(elements@.take(i as int) =~= elements@);
                }
                self.close(inc);
                proof {
                    let o = old(self).out@;
                    let h = open_line(d, "array-lit"@);
                    let xs = exprs_dump(elements@, c, on);
                    lemma_add_assoc(o, h, xs);
                    lemma_add_assoc(o, h + xs, close_line(d));
                }
            },
            _ => {},
        }
    }
}

proof fn lemma_add_assoc(a: Seq<char>, b: Seq<char>, c: Seq<char>)
    ensures
        a + (b + c) == (a + b) + c,
{
    assert(a + (b + c) =~= (a + b) + c);
}

} // verus!
