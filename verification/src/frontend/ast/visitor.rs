//! AST traversal. Name resolution, type checking, borrow checking and
//! lowering all walk the tree; the order of the walk is written once, here.
//!
//! An implementor handles the nodes it cares about and hands the rest to
//! the `walk_*` functions, which only descend.

use super::node::{Expr, Item, Module, Pattern, Stmt, TypeExpr};
use vstd::prelude::*;

verus! {

/// A node handed to a pass.
pub enum Visit {
    Module(Module),
    Item(Item),
    Stmt(Stmt),
    Expr(Expr),
}

/// A module, then its items, each in preorder.
pub open spec fn module_preorder(m: Module) -> Seq<Visit> {
    seq![Visit::Module(m)] + items_preorder(m.items@)
}

/// Items one after another, each in preorder.
pub open spec fn items_preorder(items: Seq<Item>) -> Seq<Visit>
    decreases items.len(),
{
    if items.len() == 0 {
        Seq::empty()
    } else {
        items_preorder(items.drop_last()) + item_preorder(items.last())
    }
}

/// An item, then the body of a function in preorder.
pub open spec fn item_preorder(it: Item) -> Seq<Visit> {
    seq![Visit::Item(it)] + item_children(it)
}

/// The nodes below an item that a walk hands on: a function's body.
pub open spec fn item_children(it: Item) -> Seq<Visit> {
    match it {
        Item::Func(f) => expr_preorder(f.body),
        _ => Seq::empty(),
    }
}

/// A statement, then its expressions in preorder.
pub open spec fn stmt_preorder(s: Stmt) -> Seq<Visit>
    decreases s, 3int, 0int,
{
    seq![Visit::Stmt(s)] + stmt_children(s)
}

/// The expressions of a statement, each in preorder.
pub open spec fn stmt_children(s: Stmt) -> Seq<Visit>
    decreases s, 2int, 1int,
{
    match s {
        Stmt::Let { init, .. } => expr_preorder(init),
        Stmt::Assign { target, value, .. } => expr_preorder(target) + expr_preorder(value),
        Stmt::Defer(x, _) => expr_preorder(x),
        Stmt::Expr(x) => expr_preorder(x),
    }
}

/// An expression, then its parts in preorder.
pub open spec fn expr_preorder(e: Expr) -> Seq<Visit>
    decreases e, 2int, 0int,
{
    seq![Visit::Expr(e)] + expr_children(e)
}

/// An optional subexpression in preorder.
pub open spec fn opt_preorder(o: Option<Box<Expr>>) -> Seq<Visit>
    decreases o, 2int, 1int,
{
    match o {
        Some(x) => expr_preorder(*x),
        None => Seq::empty(),
    }
}

/// The direct parts of an expression, in source order, each in preorder:
/// what a walk hands on.
pub open spec fn expr_children(e: Expr) -> Seq<Visit>
    decreases e, 1int, 0int,
{
    match e {
        Expr::Branch { scrutinee, arms, .. } => opt_preorder(scrutinee) + list_preorder(e, arms@.len() as int),
        Expr::Loop { subject, body, .. } => opt_preorder(subject) + expr_preorder(*body),
        Expr::Call { callee, args, .. } => expr_preorder(*callee) + list_preorder(e, args@.len() as int),
        Expr::Field { base, .. } => expr_preorder(*base),
        Expr::Index { base, index, .. } => expr_preorder(*base) + expr_preorder(*index),
        Expr::Deref(inner, _) => expr_preorder(*inner),
        Expr::Propagate(inner, _) => expr_preorder(*inner),
        Expr::Jmp { target, .. } => opt_preorder(target),
        Expr::Ret(value, _) => opt_preorder(value),
        Expr::Unary { operand, .. } => expr_preorder(*operand),
        Expr::Binary { lhs, rhs, .. } => expr_preorder(*lhs) + expr_preorder(*rhs),
        Expr::Block { stmts, .. } => list_preorder(e, stmts@.len() as int),
        Expr::StructLit { fields, .. } => list_preorder(e, fields@.len() as int),
        Expr::ArrayLit { elements, .. } => list_preorder(e, elements@.len() as int),
        Expr::VariantConstructor { payload, .. } => opt_preorder(payload),
        _ => Seq::empty(),
    }
}

/// The first `i` arm bodies, arguments, statements, field values or
/// elements of `e`, each in preorder.
pub open spec fn list_preorder(e: Expr, i: int) -> Seq<Visit>
    decreases e, 0int, i,
{
    if i <= 0 {
        Seq::empty()
    } else {
        match e {
            Expr::Branch { arms, .. } => if i <= arms@.len() {
                proof {
                    assert(decreases_to!(e => arms@[i - 1]));
                }
                list_preorder(e, i - 1) + expr_preorder(arms@[i - 1].body)
            } else {
                Seq::empty()
            },
            Expr::Call { args, .. } => if i <= args@.len() {
                proof {
                    assert(decreases_to!(e => args@[i - 1]));
                }
                list_preorder(e, i - 1) + expr_preorder(args@[i - 1])
            } else {
                Seq::empty()
            },
            Expr::Block { stmts, .. } => if i <= stmts@.len() {
                proof {
                    assert(decreases_to!(e => stmts@[i - 1]));
                }
                list_preorder(e, i - 1) + stmt_preorder(stmts@[i - 1])
            } else {
                Seq::empty()
            },
            Expr::StructLit { fields, .. } => if i <= fields@.len() {
                proof {
                    assert(decreases_to!(e => fields@[i - 1]));
                }
                list_preorder(e, i - 1) + expr_preorder(fields@[i - 1].1)
            } else {
                Seq::empty()
            },
            Expr::ArrayLit { elements, .. } => if i <= elements@.len() {
                proof {
                    assert(decreases_to!(e => elements@[i - 1]));
                }
                list_preorder(e, i - 1) + expr_preorder(elements@[i - 1])
            } else {
                Seq::empty()
            },
            _ => Seq::empty(),
        }
    }
}

/// A pass over the AST. A pass handles the nodes it cares about and hands
/// the rest to the `walk_*` functions. A pass that keeps a record
/// (`records`) states, in `visited`, the modules, items, statements and
/// expressions it has been handed so far: each method visits its node and
/// everything below it once, in preorder. Types and patterns are leaves: by
/// default their methods do nothing, and they are not recorded. By default
/// a pass keeps no record, and its methods promise nothing.
pub trait Visitor {
    open spec fn records(&self) -> bool {
        false
    }

    open spec fn visited(&self) -> Seq<Visit> {
        Seq::empty()
    }

    fn visit_module(&mut self, m: &Module)
        ensures
            final(self).records() == old(self).records(),
            old(self).records() ==> final(self).visited() == old(self).visited() + module_preorder(*m),
    ;

    fn visit_item(&mut self, it: &Item)
        ensures
            final(self).records() == old(self).records(),
            old(self).records() ==> final(self).visited() == old(self).visited() + item_preorder(*it),
    ;

    fn visit_stmt(&mut self, s: &Stmt)
        ensures
            final(self).records() == old(self).records(),
            old(self).records() ==> final(self).visited() == old(self).visited() + stmt_preorder(*s),
    ;

    fn visit_expr(&mut self, e: &Expr)
        ensures
            final(self).records() == old(self).records(),
            old(self).records() ==> final(self).visited() == old(self).visited() + expr_preorder(*e),
    ;

    fn visit_type(&mut self, t: &TypeExpr)
        ensures
            final(self).records() == old(self).records(),
            old(self).records() ==> final(self).visited() == old(self).visited(),
    {
    }

    fn visit_pattern(&mut self, p: &Pattern)
        ensures
            final(self).records() == old(self).records(),
            old(self).records() ==> final(self).visited() == old(self).visited(),
    {
    }
}

/// Visits every item of a module, in order.
pub fn walk_module<V: Visitor + ?Sized>(v: &mut V, m: &Module)
    ensures
        final(v).records() == old(v).records(),
        old(v).records() ==> final(v).visited() == old(v).visited() + items_preorder(m.items@),
{
    let mut i: usize = 0;
    proof {
        assert(m.items@.take(0) =~= Seq::<Item>::empty());
        assert(old(v).visited() + Seq::<Visit>::empty() =~= old(v).visited());
    }
    while i < m.items.len()
        invariant
            i <= m.items@.len(),
            v.records() == old(v).records(),
            old(v).records() ==> v.visited() == old(v).visited() + items_preorder(m.items@.take(i as int)),
        decreases m.items@.len() - i,
    {
        proof {
            assert(m.items@.take(i + 1).drop_last() =~= m.items@.take(i as int));
            assert(m.items@.take(i + 1).last() == m.items@[i as int]);
        }
        let ghost before = v.visited();
        v.visit_item(&m.items[i]);
        proof {
            if old(v).records() {
                assert(before + item_preorder(m.items@[i as int]) =~= old(v).visited() + items_preorder(
                m.items@.take(i + 1),
            ));
            }
        }
        i = i + 1;
    }
    proof {
        assert(m.items@.take(i as int) =~= m.items@);
    }
}

/// Visits the types and the body of a function, the field types of a
/// struct, the payload types of a union.
pub fn walk_item<V: Visitor + ?Sized>(v: &mut V, it: &Item)
    ensures
        final(v).records() == old(v).records(),
        old(v).records() ==> final(v).visited() == old(v).visited() + item_children(*it),
{
    proof {
        assert(old(v).visited() + Seq::<Visit>::empty() =~= old(v).visited());
    }
    match it {
        Item::Func(f) => {
            let mut i: usize = 0;
            while i < f.params.len()
                invariant
                    v.records() == old(v).records(),
                    old(v).records() ==> v.visited() == old(v).visited(),
                decreases f.params@.len() - i,
            {
                v.visit_type(&f.params[i].ty);
                i = i + 1;
            }
            match &f.ret {
                Some(t) => v.visit_type(t),
                None => {},
            }
            match &f.err {
                Some(t) => v.visit_type(t),
                None => {},
            }
            v.visit_expr(&f.body);
        },
        Item::Struct(s) => {
            let mut i: usize = 0;
            while i < s.fields.len()
                invariant
                    v.records() == old(v).records(),
                    old(v).records() ==> v.visited() == old(v).visited(),
                decreases s.fields@.len() - i,
            {
                v.visit_type(&s.fields[i].ty);
                i = i + 1;
            }
        },
        Item::Union(u) => {
            let mut i: usize = 0;
            while i < u.variants.len()
                invariant
                    v.records() == old(v).records(),
                    old(v).records() ==> v.visited() == old(v).visited(),
                decreases u.variants@.len() - i,
            {
                let var = &u.variants[i];
                let mut k: usize = 0;
                while k < var.payload.len()
                    invariant
                        v.records() == old(v).records(),
                        old(v).records() ==> v.visited() == old(v).visited(),
                    decreases var.payload@.len() - k,
                {
                    v.visit_type(&var.payload[k]);
                    k = k + 1;
                }
                i = i + 1;
            }
        },
        Item::Use(_) => {},
    }
}

/// Visits the parts of a statement.
pub fn walk_stmt<V: Visitor + ?Sized>(v: &mut V, s: &Stmt)
    ensures
        final(v).records() == old(v).records(),
        old(v).records() ==> final(v).visited() == old(v).visited() + stmt_children(*s),
{
    match s {
        Stmt::Let { ty, init, .. } => {
            match ty {
                Some(t) => v.visit_type(t),
                None => {},
            }
            v.visit_expr(init);
        },
        Stmt::Assign { target, value, .. } => {
            v.visit_expr(target);
            v.visit_expr(value);
            proof {
                assert(old(v).visited() + expr_preorder(*target) + expr_preorder(*value) =~= old(v).visited() + (
                expr_preorder(*target) + expr_preorder(*value)));
            }
        },
        Stmt::Defer(e, _) => v.visit_expr(e),
        Stmt::Expr(e) => v.visit_expr(e),
    }
}

/// Visits the direct subexpressions, statements and patterns of an
/// expression, in source order.
#[verifier::loop_isolation(false)]
pub fn walk_expr<V: Visitor + ?Sized>(v: &mut V, e: &Expr)
    ensures
        final(v).records() == old(v).records(),
        old(v).records() ==> final(v).visited() == old(v).visited() + expr_children(*e),
{
    let ghost v0 = old(v).visited();
    proof {
        assert(v0 + Seq::<Visit>::empty() =~= v0);
    }
    match e {
        Expr::Branch { scrutinee, arms, .. } => {
            match scrutinee {
                Some(sc) => v.visit_expr(sc),
                None => {},
            }
            let ghost head = opt_preorder(*scrutinee);
            let mut i: usize = 0;
            while i < arms.len()
                invariant
                    i <= arms@.len(),
                    v.records() == old(v).records(),
                    old(v).records() ==> v.visited() == v0 + head + list_preorder(*e, i as int),
                decreases arms@.len() - i,
            {
                v.visit_pattern(&arms[i].pattern);
                let ghost before = v.visited();
                v.visit_expr(&arms[i].body);
                proof {
                    assert(list_preorder(*e, i + 1) == list_preorder(*e, i as int) + expr_preorder(arms@[i as int].body));
                    if old(v).records() {
                        assert(before + expr_preorder(arms@[i as int].body) =~= v0 + head + list_preorder(*e, i + 1));
                    }
                }
                i = i + 1;
            }
            proof {
                assert(v0 + head + list_preorder(*e, i as int) =~= v0 + expr_children(*e));
            }
        },
        Expr::Loop { subject, body, .. } => {
            match subject {
                Some(sj) => v.visit_expr(sj),
                None => {},
            }
            v.visit_expr(body);
            proof {
                assert(v0 + opt_preorder(*subject) + expr_preorder(**body) =~= v0 + expr_children(*e));
            }
        },
        Expr::Call { callee, args, .. } => {
            v.visit_expr(callee);
            let ghost head = expr_preorder(**callee);
            let mut i: usize = 0;
            while i < args.len()
                invariant
                    i <= args@.len(),
                    v.records() == old(v).records(),
                    old(v).records() ==> v.visited() == v0 + head + list_preorder(*e, i as int),
                decreases args@.len() - i,
            {
                let ghost before = v.visited();
                v.visit_expr(&args[i]);
                proof {
                    assert(list_preorder(*e, i + 1) == list_preorder(*e, i as int) + expr_preorder(args@[i as int]));
                    if old(v).records() {
                        assert(before + expr_preorder(args@[i as int]) =~= v0 + head + list_preorder(*e, i + 1));
                    }
                }
                i = i + 1;
            }
            proof {
                assert(v0 + head + list_preorder(*e, i as int) =~= v0 + expr_children(*e));
            }
        },
        Expr::Field { base, .. } => v.visit_expr(base),
        Expr::Index { base, index, .. } => {
            v.visit_expr(base);
            v.visit_expr(index);
            proof {
                assert(v0 + expr_preorder(**base) + expr_preorder(**index) =~= v0 + expr_children(*e));
            }
        },
        Expr::Deref(inner, _) => v.visit_expr(inner),
        Expr::Propagate(inner, _) => v.visit_expr(inner),
        Expr::Jmp { target, .. } => match target {
            Some(t) => v.visit_expr(t),
            None => {},
        },
        Expr::Ret(value, _) => match value {
            Some(x) => v.visit_expr(x),
            None => {},
        },
        Expr::Unary { operand, .. } => v.visit_expr(operand),
        Expr::Binary { lhs, rhs, .. } => {
            v.visit_expr(lhs);
            v.visit_expr(rhs);
            proof {
                assert(v0 + expr_preorder(**lhs) + expr_preorder(**rhs) =~= v0 + expr_children(*e));
            }
        },
        Expr::Block { stmts, .. } => {
            let mut i: usize = 0;
            while i < stmts.len()
                invariant
                    i <= stmts@.len(),
                    v.records() == old(v).records(),
                    old(v).records() ==> v.visited() == v0 + list_preorder(*e, i as int),
                decreases stmts@.len() - i,
            {
                let ghost before = v.visited();
                v.visit_stmt(&stmts[i]);
                proof {
                    assert(list_preorder(*e, i + 1) == list_preorder(*e, i as int) + stmt_preorder(stmts@[i as int]));
                    if old(v).records() {
                        assert(before + stmt_preorder(stmts@[i as int]) =~= v0 + list_preorder(*e, i + 1));
                    }
                }
                i = i + 1;
            }
        },
        Expr::StructLit { fields, .. } => {
            let mut i: usize = 0;
            while i < fields.len()
                invariant
                    i <= fields@.len(),
                    v.records() == old(v).records(),
                    old(v).records() ==> v.visited() == v0 + list_preorder(*e, i as int),
                decreases fields@.len() - i,
            {
                let ghost before = v.visited();
                v.visit_expr(&fields[i].1);
                proof {
                    assert(list_preorder(*e, i + 1) == list_preorder(*e, i as int) + expr_preorder(fields@[i as int].1));
                    if old(v).records() {
                        assert(before + expr_preorder(fields@[i as int].1) =~= v0 + list_preorder(*e, i + 1));
                    }
                }
                i = i + 1;
            }
        },
        Expr::ArrayLit { elements, .. } => {
            let mut i: usize = 0;
            while i < elements.len()
                invariant
                    i <= elements@.len(),
                    v.records() == old(v).records(),
                    old(v).records() ==> v.visited() == v0 + list_preorder(*e, i as int),
                decreases elements@.len() - i,
            {
                let ghost before = v.visited();
                v.visit_expr(&elements[i]);
                proof {
                    assert(list_preorder(*e, i + 1) == list_preorder(*e, i as int) + expr_preorder(elements@[i as int]));
                    if old(v).records() {
                        assert(before + expr_preorder(elements@[i as int]) =~= v0 + list_preorder(*e, i + 1));
                    }
                }
                i = i + 1;
            }
        },
        Expr::VariantConstructor { payload, .. } => match payload {
            Some(p) => v.visit_expr(p),
            None => {},
        },
        // Literals, paths, `skip` and `stop` have no parts to visit.
        _ => {},
    }
}

} // verus!
