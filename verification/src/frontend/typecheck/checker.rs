//! The type checker.

use super::context::{entry_value, find_entry, first_entry, lemma_first_entry, set_entry, unique_names, TypeContext};
use super::types::{Type, TypeView};
use super::typing::{
    arms_fold, bind_unknown, expr_ty, reported_as, one, lemma_reported_as_none, lemma_reported_as_one, lemma_reported_as_trans,
    expr_diags, stmt_diags, stmts_diags, arms_diags, list_diags, func_diags, module_diags, field_diags, unary_diags, variant_diags, TypeDiag, lemma_params_env_frame, lemma_pattern_env_frame, params_env, return_mismatch, lemma_stmts_env_frame, opt_view, pattern_env, stmt_env,
    stmts_env,
};
use crate::diag::{DiagLoc, DiagSink, Diagnostic, ErrorCode, Span};
use crate::frontend::ast::{Expr, Func, Item, Module, Param, Pattern, Stmt};
use crate::frontend::resolve::SymbolTable;
use crate::text::{concat3, str_eq};
use vstd::prelude::*;

verus! {

/// `a`, `x`, `b`, `y` and `c` one after another.
fn concat5(a: &str, x: &str, b: &str, y: &str, c: &str) -> (s: String)
    ensures
        s@ == a@ + x@ + b@ + y@ + c@,
{
    let head = concat3(a, x, b);
    concat3(head.as_str(), y, c)
}

/// The operator classes of binary expressions.
pub open spec fn is_arith_op(op: Seq<char>) -> bool {
    op == "+"@ || op == "-"@ || op == "*"@ || op == "/"@
}

pub open spec fn is_compare_op(op: Seq<char>) -> bool {
    op == "=="@ || op == "!="@ || op == "<"@ || op == "<="@ || op == ">"@ || op == ">="@
}

pub open spec fn is_logic_op(op: Seq<char>) -> bool {
    op == "&&"@ || op == "||"@
}

pub open spec fn is_bit_op(op: Seq<char>) -> bool {
    op == "&"@ || op == "|"@ || op == "^"@ || op == "<<"@ || op == ">>"@
}

pub open spec fn is_numeric(t: TypeView) -> bool {
    t is Int || t is Float
}

/// Whether a binary operator on operands of these types is reported.
pub open spec fn binop_rejected(op: Seq<char>, l: TypeView, r: TypeView) -> bool {
    if is_arith_op(op) {
        l != r || !is_numeric(l)
    } else if is_compare_op(op) {
        l != r
    } else if is_logic_op(op) {
        !(l is Bool) || !(r is Bool)
    } else if is_bit_op(op) {
        (l != r && !(l is Unknown) && !(r is Unknown)) || (!is_numeric(l) && !(l is Unknown))
    } else {
        false
    }
}

/// The type of a binary expression whose operands have these types.
pub open spec fn binop_type(op: Seq<char>, l: TypeView, r: TypeView) -> TypeView {
    if is_arith_op(op) {
        if binop_rejected(op, l, r) {
            TypeView::Unknown
        } else {
            l
        }
    } else if is_compare_op(op) || is_logic_op(op) {
        TypeView::Bool
    } else if is_bit_op(op) {
        if binop_rejected(op, l, r) {
            TypeView::Unknown
        } else {
            l
        }
    } else {
        TypeView::Unknown
    }
}

/// Whether a value of type `from` may stand where `to` is expected: the
/// same type, an unknown on either side, or an array where a slice of the
/// same element type is expected.
pub open spec fn assignable(from: TypeView, to: TypeView) -> bool {
    ||| from == to
    ||| from is Unknown
    ||| to is Unknown
    ||| (from matches TypeView::Array { elem: fe, .. } && to matches TypeView::Slice { elem: te } && fe == te)
}

/// A variable scope as a map from names to types.
pub open spec fn scope_map(scope: Seq<(String, Type)>) -> Map<Seq<char>, TypeView> {
    Map::new(|k: Seq<char>| entry_value(scope, k) is Some, |k: Seq<char>| entry_value(scope, k)->0@)
}

/// The type of the variable `name`: from the innermost scope that binds
/// it.
pub open spec fn env_lookup(env: Seq<Map<Seq<char>, TypeView>>, name: Seq<char>) -> Option<TypeView>
    decreases env.len(),
{
    if env.len() == 0 {
        None
    } else if env.last().contains_key(name) {
        Some(env.last()[name])
    } else {
        env_lookup(env.drop_last(), name)
    }
}

/// Binds `name` in the innermost scope; without a scope nothing changes.
pub open spec fn env_define(env: Seq<Map<Seq<char>, TypeView>>, name: Seq<char>, t: TypeView) -> Seq<
    Map<Seq<char>, TypeView>,
> {
    if env.len() == 0 {
        env
    } else {
        env.update(env.len() - 1, env.last().insert(name, t))
    }
}

/// Whether the context knows the struct, union or function an item
/// declares.
pub open spec fn item_known(ctx: TypeContext, it: Item) -> bool {
    match it {
        Item::Struct(s) => ctx.struct_def(s.name@) is Some,
        Item::Union(u) => ctx.union_def(u.name@) is Some,
        Item::Func(f) => ctx.func_def(f.name@) is Some,
        Item::Use(_) => true,
    }
}

/// The built-in functions the type checker knows.
pub open spec fn typed_builtins() -> Seq<Seq<char>> {
    seq!["print"@, "println"@, "eprint"@, "eprintln"@, "read_file"@, "write_file"@, "exit"@]
}

/// `b` holds `a` and perhaps more after it: diagnostics are never taken
/// back.
pub open spec fn grows(a: Seq<Diagnostic>, b: Seq<Diagnostic>) -> bool {
    a.len() <= b.len() && forall|i: int| 0 <= i < a.len() ==> #[trigger] b[i] == a[i]
}

/// The type checker.
pub struct TypeChecker<'a> {
    symbols: &'a SymbolTable,
    /// The definitions known to the checker.
    pub type_ctx: TypeContext,
    sink: &'a mut DiagSink,
    /// Variable scopes, innermost last.
    var_scopes: Vec<Vec<(String, Type)>>,
    /// The declared return type of the function being checked.
    current_return_type: Option<Type>,
    /// Whether the expression being checked stands as a statement, its
    /// value dropped: such a branch need not agree on one arm type.
    branch_in_stmt_pos: bool,
}

impl<'a> TypeChecker<'a> {
    /// The diagnostics reported so far.
    pub closed spec fn reported(&self) -> Seq<Diagnostic> {
        self.sink@
    }

    /// The definitions known to the checker.
    pub closed spec fn ctx(&self) -> TypeContext {
        self.type_ctx
    }

    /// The declared return type of the function being checked.
    pub closed spec fn ret_context(&self) -> Option<Type> {
        self.current_return_type
    }

    /// Whether the next expression stands as a statement.
    pub closed spec fn in_stmt_pos(&self) -> bool {
        self.branch_in_stmt_pos
    }

    /// The number of open variable scopes.
    pub closed spec fn depth(&self) -> nat {
        self.var_scopes@.len()
    }

    /// The variable scopes, outermost first.
    pub closed spec fn env(&self) -> Seq<Map<Seq<char>, TypeView>> {
        self.var_scopes@.map_values(|v: Vec<(String, Type)>| scope_map(v@))
    }

    /// Every variable scope binds each name once.
    pub closed spec fn scopes_ok(&self) -> bool {
        forall|i: int| 0 <= i < self.var_scopes@.len() ==> unique_names(#[trigger] self.var_scopes@[i]@)
    }

    pub fn new(symbols: &'a SymbolTable, sink: &'a mut DiagSink) -> (c: TypeChecker<'a>)
        ensures
            c.reported() == old(sink)@,
            c.depth() == 0,
            c.scopes_ok(),
            c.ctx().struct_entries().len() == 0,
            c.ctx().union_entries().len() == 0,
            c.ctx().func_entries().len() == 0,
            c.ret_context() is None,
            !c.in_stmt_pos(),
    {
        TypeChecker {
            symbols,
            type_ctx: TypeContext::new(),
            sink,
            var_scopes: Vec::new(),
            current_return_type: None,
            branch_in_stmt_pos: false,
        }
    }

    /// The type context, for lowering.
    pub fn type_context(&self) -> (c: &TypeContext)
        ensures
            *c == self.ctx(),
    {
        &self.type_ctx
    }

    /// Ends checking and hands over the type context.
    pub fn into_context(self) -> (c: TypeContext)
        ensures
            c == self.ctx(),
    {
        self.type_ctx
    }

    fn push_scope(&mut self)
        requires
            old(self).scopes_ok(),
        ensures
            final(self).scopes_ok(),
            final(self).var_scopes@.len() == old(self).var_scopes@.len() + 1,
            final(self).var_scopes@.drop_last() == old(self).var_scopes@,
            final(self).var_scopes@.last()@.len() == 0,
            final(self).type_ctx == old(self).type_ctx,
            final(self).sink == old(self).sink,
            final(self).current_return_type == old(self).current_return_type,
            final(self).branch_in_stmt_pos == old(self).branch_in_stmt_pos,
            final(self).env() == old(self).env().push(Map::empty()),
    {
        self.var_scopes.push(Vec::new());
        proof {
            assert(scope_map(self.var_scopes@.last()@) =~= Map::<Seq<char>, TypeView>::empty());
            assert(self.env() =~= old(self).env().push(Map::empty()));
            assert(self.var_scopes@.drop_last() =~= old(self).var_scopes@);
            assert forall|i: int| 0 <= i < self.var_scopes@.len() implies unique_names(#[trigger] self.var_scopes@[i]@) by {
                if i < old(self).var_scopes@.len() {
                    assert(self.var_scopes@[i] == old(self).var_scopes@[i]);
                }
            }
        }
    }

    fn pop_scope(&mut self)
        requires
            old(self).scopes_ok(),
        ensures
            final(self).scopes_ok(),
            final(self).var_scopes@ == (if old(self).var_scopes@.len() > 0 {
                old(self).var_scopes@.drop_last()
            } else {
                old(self).var_scopes@
            }),
            final(self).type_ctx == old(self).type_ctx,
            final(self).sink == old(self).sink,
            final(self).current_return_type == old(self).current_return_type,
            final(self).branch_in_stmt_pos == old(self).branch_in_stmt_pos,
            final(self).env() == (if old(self).env().len() > 0 {
                old(self).env().drop_last()
            } else {
                old(self).env()
            }),
    {
        if self.var_scopes.len() > 0 {
            self.var_scopes.pop();
        }
        proof {
            assert(self.env() =~= (if old(self).env().len() > 0 {
                old(self).env().drop_last()
            } else {
                old(self).env()
            }));
            assert forall|i: int| 0 <= i < self.var_scopes@.len() implies unique_names(#[trigger] self.var_scopes@[i]@) by {
                assert(self.var_scopes@[i] == old(self).var_scopes@[i]);
            }
        }
    }

    /// Binds a variable in the innermost scope; without a scope, nothing
    /// happens.
    fn define_var(&mut self, name: String, ty: Type)
        requires
            old(self).scopes_ok(),
        ensures
            final(self).scopes_ok(),
            final(self).var_scopes@.len() == old(self).var_scopes@.len(),
            final(self).type_ctx == old(self).type_ctx,
            final(self).sink == old(self).sink,
            final(self).current_return_type == old(self).current_return_type,
            final(self).branch_in_stmt_pos == old(self).branch_in_stmt_pos,
            final(self).env() == env_define(old(self).env(), name@, ty@),
    {
        let n = self.var_scopes.len();
        if n == 0 {
            return;
        }
        let ghost nm = name@;
        let ghost tv = ty@;
        let mut scope = self.var_scopes.pop().unwrap();
        let ghost before = scope@;
        proof {
            assert(unique_names(old(self).var_scopes@[n - 1]@));
        }
        set_entry(&mut scope, name, ty);
        proof {
            assert(scope_map(scope@) =~= scope_map(before).insert(nm, tv));
        }
        self.var_scopes.push(scope);
        proof {
            assert(self.env() =~= env_define(old(self).env(), nm, tv));
            assert forall|i: int| 0 <= i < self.var_scopes@.len() implies unique_names(#[trigger] self.var_scopes@[i]@) by {
                if i < n - 1 {
                    assert(self.var_scopes@[i] == old(self).var_scopes@[i]);
                }
            }
        }
    }

    /// The type of a variable, innermost scope first; `Unknown` when it is
    /// not bound.
    fn lookup_var(&self, name: &str) -> (t: Type)
        ensures
            t@ == (match env_lookup(self.env(), name@) {
                Some(v) => v,
                None => TypeView::Unknown,
            }),
    {
        let mut i = self.var_scopes.len();
        proof {
            assert(self.env().take(i as int) =~= self.env());
        }
        while i > 0
            invariant
                i <= self.var_scopes@.len(),
                env_lookup(self.env(), name@) == env_lookup(self.env().take(i as int), name@),
            decreases i,
        {
            i = i - 1;
            proof {
                assert(self.env().take(i + 1).drop_last() =~= self.env().take(i as int));
                assert(self.env().take(i + 1).last() == scope_map(self.var_scopes@[i as int]@));
            }
            let scope = &self.var_scopes[i];
            match find_entry(scope, name) {
                Some(k) => {
                    proof {
                        lemma_first_entry(scope@, name@);
                        assert(first_entry(scope@, name@) == Some(k as int));
                        assert(entry_value(scope@, name@) == Some(scope@[k as int].1));
                    }
                    return scope[k].1.duplicate();
                },
                None => {},
            }
        }
        proof {
            assert(self.env().take(0) =~= Seq::<Map<Seq<char>, TypeView>>::empty());
        }
        Type::Unknown
    }

    /// Reports an error at `span`.
    fn emit_error(&mut self, code: ErrorCode, msg: String, span: Span)
        ensures
            final(self).sink@ == old(self).sink@.push(
                Diagnostic {
                    code: code.spec_code(),
                    severity: crate::diag::Severity::Error,
                    msg,
                    loc: DiagLoc::At(span),
                    children: final(self).sink@.last().children,
                },
            ),
            final(self).sink@.last().children@.len() == 0,
            final(self).type_ctx == old(self).type_ctx,
            final(self).var_scopes == old(self).var_scopes,
            final(self).current_return_type == old(self).current_return_type,
            final(self).branch_in_stmt_pos == old(self).branch_in_stmt_pos,
            reported_as(old(self).sink@, final(self).sink@, one(code.spec_code(), span)),
    {
        let d = Diagnostic::error(code.as_u16(), msg, DiagLoc::At(span));
        proof {
            lemma_reported_as_one(self.sink@, d, code.spec_code(), span);
        }
        self.sink.emit(d);
    }

    /// Whether a value of type `from` may stand where `to` is expected.
    fn is_assignable(&self, from: &Type, to: &Type) -> (b: bool)
        ensures
            b == assignable(from@, to@),
    {
        if from.same(to) {
            return true;
        }
        if from.is_unknown() || to.is_unknown() {
            return true;
        }
        match (from, to) {
            (Type::Array { elem: fe, .. }, Type::Slice { elem: te }) => fe.same(te),
            _ => false,
        }
    }

    /// The type of a binary expression, reporting operands it rejects.
    fn check_binop(&mut self, op: &str, lty: &Type, rty: &Type, span: Span) -> (t: Type)
        ensures
            t@ == binop_type(op@, lty@, rty@),
            binop_rejected(op@, lty@, rty@) ==> final(self).sink@.len() == old(self).sink@.len() + 1
                && final(self).sink@.drop_last() == old(self).sink@
                && final(self).sink@.last().code == 9001
                && final(self).sink@.last().severity == crate::diag::Severity::Error
                && final(self).sink@.last().loc == DiagLoc::At(span),
            reported_as(old(self).sink@, final(self).sink@, if binop_rejected(op@, lty@, rty@) {
                one(9001, span)
            } else {
                Seq::empty()
            }),
            !binop_rejected(op@, lty@, rty@) ==> final(self).sink@ == old(self).sink@,
            grows(old(self).sink@, final(self).sink@),
            final(self).type_ctx == old(self).type_ctx,
            final(self).var_scopes == old(self).var_scopes,
            final(self).current_return_type == old(self).current_return_type,
            final(self).branch_in_stmt_pos == old(self).branch_in_stmt_pos,
    {
        proof {
            lemma_reported_as_none(self.sink@);
        }
        let arith = str_eq(op, "+") || str_eq(op, "-") || str_eq(op, "*") || str_eq(op, "/");
        let compare = str_eq(op, "==") || str_eq(op, "!=") || str_eq(op, "<") || str_eq(op, "<=")
            || str_eq(op, ">") || str_eq(op, ">=");
        let logic = str_eq(op, "&&") || str_eq(op, "||");
        let bit = str_eq(op, "&") || str_eq(op, "|") || str_eq(op, "^") || str_eq(op, "<<") || str_eq(
            op,
            ">>",
        );
        if arith {
            if !lty.same(rty) {
                let (l, r) = (lty.to_string(), rty.to_string());
                let msg = concat5("类型不匹配：'", l.as_str(), "' 和 '", r.as_str(), "'");
                self.emit_error(ErrorCode::InternalCompilerError, msg, span);
                return Type::Unknown;
            }
            if !lty.is_numeric() {
                let l = lty.to_string();
                let msg = concat5("运算符 '", op, "' 不支持类型 '", l.as_str(), "'");
                self.emit_error(ErrorCode::InternalCompilerError, msg, span);
                return Type::Unknown;
            }
            lty.duplicate()
        } else if compare {
            if !lty.same(rty) {
                let (l, r) = (lty.to_string(), rty.to_string());
                let msg = concat5("类型不匹配：'", l.as_str(), "' 和 '", r.as_str(), "'");
                self.emit_error(ErrorCode::InternalCompilerError, msg, span);
            }
            Type::Bool
        } else if logic {
            let l_bool = match lty {
                Type::Bool => true,
                _ => false,
            };
            let r_bool = match rty {
                Type::Bool => true,
                _ => false,
            };
            if !l_bool || !r_bool {
                let (l, r) = (lty.to_string(), rty.to_string());
                let msg = concat5("逻辑运算符要求布尔类型，得到 '", l.as_str(), "' 和 '", r.as_str(), "'");
                self.emit_error(ErrorCode::InternalCompilerError, msg, span);
            }
            Type::Bool
        } else if bit {
            if !lty.same(rty) && !lty.is_unknown() && !rty.is_unknown() {
                let (l, r) = (lty.to_string(), rty.to_string());
                let msg = concat5("位操作类型不匹配：'", l.as_str(), "' 和 '", r.as_str(), "'");
                self.emit_error(ErrorCode::InternalCompilerError, msg, span);
                return Type::Unknown;
            }
            if !lty.is_numeric() && !lty.is_unknown() {
                let l = lty.to_string();
                let msg = concat5("位操作符 '", op, "' 要求整数类型，得到 '", l.as_str(), "'");
                self.emit_error(ErrorCode::InternalCompilerError, msg, span);
                return Type::Unknown;
            }
            lty.duplicate()
        } else {
            Type::Unknown
        }
    }

    /// Registers the signatures of the built-in functions.
    fn register_builtins(&mut self)
        ensures
            forall|k: int| 0 <= k < 7 ==> (#[trigger] final(self).ctx().func_def(typed_builtins()[k])) is Some,
            forall|n: Seq<char>| #[trigger] old(self).ctx().struct_def(n) == final(self).ctx().struct_def(n),
            forall|n: Seq<char>| #[trigger] old(self).ctx().union_def(n) == final(self).ctx().union_def(n),
            final(self).sink == old(self).sink,
            final(self).var_scopes == old(self).var_scopes,
            final(self).current_return_type == old(self).current_return_type,
            final(self).branch_in_stmt_pos == old(self).branch_in_stmt_pos,
    {
        // print, println, eprint, eprintln :: (str) void
        self.type_ctx.define_func(
            String::from_str("print"),
            Type::Func { params: vec![Type::Str], ret: Box::new(Type::Void), err: None },
        );
        self.type_ctx.define_func(
            String::from_str("println"),
            Type::Func { params: vec![Type::Str], ret: Box::new(Type::Void), err: None },
        );
        self.type_ctx.define_func(
            String::from_str("eprint"),
            Type::Func { params: vec![Type::Str], ret: Box::new(Type::Void), err: None },
        );
        self.type_ctx.define_func(
            String::from_str("eprintln"),
            Type::Func { params: vec![Type::Str], ret: Box::new(Type::Void), err: None },
        );
        // read_file :: (str) str
        self.type_ctx.define_func(
            String::from_str("read_file"),
            Type::Func { params: vec![Type::Str], ret: Box::new(Type::Str), err: None },
        );
        // write_file :: (str, str) i32
        self.type_ctx.define_func(
            String::from_str("write_file"),
            Type::Func { params: vec![Type::Str, Type::Str], ret: Box::new(Type::i32()), err: None },
        );
        // exit :: (i32) void
        self.type_ctx.define_func(
            String::from_str("exit"),
            Type::Func { params: vec![Type::i32()], ret: Box::new(Type::Void), err: None },
        );
        proof {
            reveal_strlit("print");
            reveal_strlit("println");
            reveal_strlit("eprint");
            reveal_strlit("eprintln");
            reveal_strlit("read_file");
            reveal_strlit("write_file");
            reveal_strlit("exit");
            assert(self.ctx().func_def(typed_builtins()[6]) is Some);
            assert(self.ctx().func_def(typed_builtins()[5]) is Some);
            assert(self.ctx().func_def(typed_builtins()[4]) is Some);
            assert(self.ctx().func_def(typed_builtins()[3]) is Some);
            assert(self.ctx().func_def(typed_builtins()[2]) is Some);
            assert(self.ctx().func_def(typed_builtins()[1]) is Some);
            assert(self.ctx().func_def(typed_builtins()[0]) is Some);
        }
    }

    /// Checks a whole module: first every struct, union and function
    /// signature, then every function body.
    pub fn check_module(&mut self, module: &Module)
        requires
            old(self).depth() == 0,
        ensures
            final(self).depth() == 0,
            grows(old(self).reported(), final(self).reported()),
            forall|i: int| 0 <= i < module.items@.len() ==> item_known(final(self).ctx(), #[trigger] module.items@[i]),
            forall|k: int| 0 <= k < 7 ==> (#[trigger] final(self).ctx().func_def(typed_builtins()[k])) is Some,
            !old(self).in_stmt_pos() ==> reported_as(
                old(self).reported(),
                final(self).reported(),
                module_diags(final(self).ctx(), module.items@),
            ),
    {
        proof {
            assert(self.scopes_ok());
        }
        self.register_builtins();
        let mut i: usize = 0;
        while i < module.items.len()
            invariant
                self.var_scopes@.len() == 0,
                self.sink@ == old(self).sink@,
                self.branch_in_stmt_pos == old(self).branch_in_stmt_pos,
                forall|k: int| 0 <= k < i ==> item_known(self.ctx(), #[trigger] module.items@[k]),
                forall|k: int| 0 <= k < 7 ==> (#[trigger] self.ctx().func_def(typed_builtins()[k])) is Some,
            decreases module.items@.len() - i,
        {
            let ghost before = self.ctx();
            match &module.items[i] {
                Item::Struct(s) => {
                    let mut fields: Vec<(String, Type)> = Vec::new();
                    let mut k: usize = 0;
                    while k < s.fields.len()
                        invariant
                            self.var_scopes@.len() == 0,
                            self.sink@ == old(self).sink@,
                            self.branch_in_stmt_pos == old(self).branch_in_stmt_pos,
                            self.ctx() == before,
                        decreases s.fields@.len() - k,
                    {
                        let ty = self.type_ctx.resolve_type_expr(&s.fields[k].ty, self.sink);
                        fields.push((s.fields[k].name.clone(), ty));
                        k = k + 1;
                    }
                    self.type_ctx.define_struct(s.name.clone(), fields);
                },
                Item::Union(u) => {
                    let mut variants: Vec<(String, Type)> = Vec::new();
                    let mut k: usize = 0;
                    while k < u.variants.len()
                        invariant
                            self.var_scopes@.len() == 0,
                            self.sink@ == old(self).sink@,
                            self.branch_in_stmt_pos == old(self).branch_in_stmt_pos,
                            self.ctx() == before,
                        decreases u.variants@.len() - k,
                    {
                        let v = &u.variants[k];
                        let ty = if v.payload.len() == 0 {
                            Type::Void
                        } else if v.payload.len() == 1 {
                            self.type_ctx.resolve_type_expr(&v.payload[0], self.sink)
                        } else {
                            // Several payloads need tuple types, which Kore0 lacks.
                            Type::Unknown
                        };
                        variants.push((v.name.clone(), ty));
                        k = k + 1;
                    }
                    self.type_ctx.define_union(u.name.clone(), variants);
                },
                Item::Func(f) => {
                    let mut params: Vec<Type> = Vec::new();
                    let mut k: usize = 0;
                    while k < f.params.len()
                        invariant
                            self.var_scopes@.len() == 0,
                            self.sink@ == old(self).sink@,
                            self.branch_in_stmt_pos == old(self).branch_in_stmt_pos,
                            self.ctx() == before,
                        decreases f.params@.len() - k,
                    {
                        params.push(self.type_ctx.resolve_type_expr(&f.params[k].ty, self.sink));
                        k = k + 1;
                    }
                    let ret = match &f.ret {
                        Some(te) => self.type_ctx.resolve_type_expr(te, self.sink),
                        None => Type::Void,
                    };
                    let err = match &f.err {
                        Some(te) => Some(Box::new(self.type_ctx.resolve_type_expr(te, self.sink))),
                        None => None,
                    };
                    self.type_ctx.define_func(f.name.clone(), Type::Func { params, ret: Box::new(ret), err });
                },
                _ => {},
            }
            proof {
                assert forall|k: int| 0 <= k < 7 implies (#[trigger] self.ctx().func_def(typed_builtins()[k])) is Some by {
                    assert(before.func_def(typed_builtins()[k]) is Some);
                }
                assert forall|k: int| 0 <= k < i + 1 implies item_known(self.ctx(), #[trigger] module.items@[k]) by {
                    if k < i {
                        assert(item_known(before, module.items@[k]));
                    } else {
                        assert(module.items@[k] == module.items[i as int]);
                    }
                }
            }
            i = i + 1;
        }
        let ghost known = self.ctx();
        let mut i: usize = 0;
        proof {
            lemma_reported_as_none(self.sink@);
            assert(module.items@.take(0) =~= Seq::<Item>::empty());
        }
        while i < module.items.len()
            invariant
                i <= module.items@.len(),
                self.var_scopes@.len() == 0,
                grows(old(self).sink@, self.sink@),
                self.ctx() == known,
                !old(self).in_stmt_pos() ==> !self.branch_in_stmt_pos && reported_as(
                    old(self).sink@,
                    self.sink@,
                    module_diags(known, module.items@.take(i as int)),
                ),
            decreases module.items@.len() - i,
        {
            proof {
                assert(module.items@.take(i + 1).drop_last() =~= module.items@.take(i as int));
                assert(module.items@.take(i + 1).last() == module.items@[i as int]);
            }
            let ghost s1 = self.sink@;
            match &module.items[i] {
                Item::Func(f) => {
                    proof {
                        assert(self.scopes_ok());
                        assert(self.env() =~= Seq::<Map<Seq<char>, TypeView>>::empty());
                    }
                    self.check_func(f);
                    proof {
                        if !old(self).in_stmt_pos() {
                            lemma_reported_as_trans(
                                old(self).sink@,
                                s1,
                                self.sink@,
                                module_diags(known, module.items@.take(i as int)),
                                func_diags(known, Seq::empty(), false, *f),
                            );
                        }
                    }
                },
                _ => {
                    proof {
                        assert(module_diags(known, module.items@.take(i as int)) + Seq::<TypeDiag>::empty() =~= module_diags(
                            known,
                            module.items@.take(i as int),
                        ));
                    }
                },
            }
            i = i + 1;
        }
        proof {
            assert(module.items@.take(i as int) =~= module.items@);
        }
    }

    /// Checks one function: its parameters are in scope in its body, and
    /// the body's type must be the declared return type.
    pub fn check_func(&mut self, func: &Func)
        requires
            old(self).scopes_ok(),
        ensures
            final(self).scopes_ok(),
            final(self).depth() == old(self).depth(),
            grows(old(self).reported(), final(self).reported()),
            final(self).ctx() == old(self).ctx(),
            final(self).env() == old(self).env(),
            final(self).ret_context() is None,
            return_mismatch(old(self).ctx(), old(self).env(), old(self).in_stmt_pos(), *func) ==> (
            final(self).reported().len() > old(self).reported().len() && final(self).reported().last().code == 9001
                && final(self).reported().last().severity == crate::diag::Severity::Error
                && final(self).reported().last().loc == DiagLoc::At(func.body.spec_span())),
            reported_as(old(self).reported(), final(self).reported(), func_diags(old(self).ctx(), old(self).env(), old(self).in_stmt_pos(), *func)),
            !final(self).in_stmt_pos(),
    {
        let ghost c = self.type_ctx;
        let ghost outer = self.env();
        let ghost sp = self.branch_in_stmt_pos;
        let ghost s0 = self.sink@;
        self.push_scope();
        let mut k: usize = 0;
        proof {
            assert(func.params@.take(0) =~= Seq::<Param>::empty());
        }
        while k < func.params.len()
            invariant
                k <= func.params@.len(),
                c == old(self).type_ctx,
                outer == old(self).env(),
                sp == old(self).branch_in_stmt_pos,
                self.env() == params_env(c, outer.push(Map::empty()), func.params@.take(k as int)),
                self.branch_in_stmt_pos == sp,
                self.scopes_ok(),
                self.var_scopes@.len() == old(self).var_scopes@.len() + 1,
                self.sink@ == old(self).sink@,
                s0 == old(self).sink@,
                self.type_ctx == old(self).type_ctx,
            decreases func.params@.len() - k,
        {
            proof {
                assert(func.params@.take(k + 1).drop_last() =~= func.params@.take(k as int));
                assert(func.params@.take(k + 1).last() == func.params@[k as int]);
            }
            let ty = self.type_ctx.resolve_type_expr(&func.params[k].ty, self.sink);
            self.define_var(func.params[k].name.clone(), ty);
            k = k + 1;
        }
        proof {
            assert(func.params@.take(k as int) =~= func.params@);
        }
        let ret_ty = match &func.ret {
            Some(te) => self.type_ctx.resolve_type_expr(te, self.sink),
            None => Type::Void,
        };
        let err_ty = match &func.err {
            Some(te) => Some(self.type_ctx.resolve_type_expr(te, self.sink)),
            None => None,
        };
        self.current_return_type = match err_ty {
            Some(err) => Some(Type::ErrUnion { ok: Box::new(ret_ty.duplicate()), err: Box::new(err) }),
            None => Some(ret_ty.duplicate()),
        };
        let body_ty = self.check_expr(&func.body);
        let ghost s1 = self.sink@;
        let ghost db = expr_diags(
            c,
            params_env(c, outer.push(Map::empty()), func.params@),
            Some(crate::frontend::typecheck::typing::ret_context_of(c, *func)),
            sp,
            func.body,
        );
        proof {
            lemma_reported_as_none(s1);
            assert(db + Seq::<TypeDiag>::empty() =~= db);
        }
        self.current_return_type = None;
        // `Never` (ret/stop/jmp) fits any declared type; `Unknown` means the
        // information is missing, so nothing is reported.
        if !body_ty.is_never() && !body_ty.is_unknown() && !ret_ty.is_unknown() && !body_ty.same(&ret_ty) {
            let (r, b) = (ret_ty.to_string(), body_ty.to_string());
            let head = concat3("函数 '", func.name.as_str(), "' 返回类型不匹配：声明 '");
            let msg = concat5(head.as_str(), r.as_str(), "'，实际 '", b.as_str(), "'");
            self.emit_error(ErrorCode::InternalCompilerError, msg, func.body.span());
            proof {
                lemma_reported_as_trans(s0, s1, self.sink@, db, one(9001, func.body.spec_span()));
            }
        }
        proof {
            lemma_params_env_frame(c, outer.push(Map::empty()), func.params@);
            assert(outer.push(Map::empty()).drop_last() =~= outer);
        }
        self.pop_scope();
    }

    /// Binds the names a pattern introduces, with unknown types.
    fn inject_pattern_bindings(&mut self, pattern: &Pattern)
        requires
            old(self).scopes_ok(),
        ensures
            final(self).scopes_ok(),
            final(self).var_scopes@.len() == old(self).var_scopes@.len(),
            final(self).type_ctx == old(self).type_ctx,
            final(self).sink == old(self).sink,
            final(self).current_return_type == old(self).current_return_type,
            final(self).branch_in_stmt_pos == old(self).branch_in_stmt_pos,
            final(self).env() == pattern_env(old(self).env(), *pattern),
    {
        match pattern {
            Pattern::Bind(name, _) => {
                self.define_var(name.clone(), Type::Unknown);
            },
            Pattern::Variant { bindings, .. } => {
                let mut k: usize = 0;
                proof {
                    assert(bindings@.take(0) =~= Seq::<String>::empty());
                }
                while k < bindings.len()
                    invariant
                        k <= bindings@.len(),
                        self.env() == bind_unknown(old(self).env(), bindings@.take(k as int)),
                        self.scopes_ok(),
                        self.var_scopes@.len() == old(self).var_scopes@.len(),
                        self.type_ctx == old(self).type_ctx,
                        self.sink == old(self).sink,
                        self.current_return_type == old(self).current_return_type,
                        self.branch_in_stmt_pos == old(self).branch_in_stmt_pos,
                    decreases bindings@.len() - k,
                {
                    proof {
                        assert(bindings@.take(k + 1).drop_last() =~= bindings@.take(k as int));
                    }
                    self.define_var(bindings[k].clone(), Type::Unknown);
                    k = k + 1;
                }
                proof {
                    assert(bindings@.take(k as int) =~= bindings@);
                }
            },
            _ => {},
        }
    }

    /// Checks a statement.
    #[verifier::spinoff_prover]
    #[verifier::rlimit(100)]
    pub fn check_stmt(&mut self, stmt: &Stmt)
        requires
            old(self).scopes_ok(),
            !old(self).in_stmt_pos(),
        ensures
            final(self).scopes_ok(),
            final(self).depth() == old(self).depth(),
            final(self).ctx() == old(self).ctx(),
            grows(old(self).reported(), final(self).reported()),
            final(self).ret_context() == old(self).ret_context(),
            !final(self).in_stmt_pos(),
            stmt matches Stmt::Let { name, ty: Some(te), .. } ==> (old(self).depth() > 0 ==> env_lookup(
                final(self).env(),
                name@,
            ) == Some(old(self).ctx().resolved(*te)@)),
            stmt matches Stmt::Let { name, ty: None, .. } ==> (old(self).depth() > 0 ==> env_lookup(
                final(self).env(),
                name@,
            ) is Some),
            final(self).env() == stmt_env(old(self).ctx(), old(self).env(), opt_view(old(self).ret_context()), *stmt),
            reported_as(
                old(self).reported(),
                final(self).reported(),
                stmt_diags(old(self).ctx(), old(self).env(), opt_view(old(self).ret_context()), *stmt),
            ),
        decreases stmt, 1int,
    {
        let ghost c = self.type_ctx;
        let ghost env0 = self.env();
        let ghost rv = opt_view(self.current_return_type);
        let ghost s0 = self.sink@;
        match stmt {
            Stmt::Let { name, ty, init, .. } => {
                let init_ty = self.check_expr(init);
                let ghost s1 = self.sink@;
                let ghost d1 = expr_diags(c, env0, rv, false, *init);
                proof {
                    lemma_reported_as_none(s1);
                }
                // An annotation is the binding's type; the initial value must
                // fit it.
                let resolved = match ty {
                    Some(te) => {
                        let ann = self.type_ctx.resolve_type_expr(te, self.sink);
                        let ghost s2 = self.sink@;
                        let ghost chk = if !assignable(init_ty@, ann@) {
                            one(9001, init.spec_span())
                        } else {
                            Seq::<TypeDiag>::empty()
                        };
                        proof {
                            lemma_reported_as_none(s2);
                        }
                        if !self.is_assignable(&init_ty, &ann) {
                            let (a, i) = (ann.to_string(), init_ty.to_string());
                            let msg = concat5("类型不匹配：标注为 '", a.as_str(), "'，初始值类型为 '", i.as_str(), "'");
                            self.emit_error(ErrorCode::InternalCompilerError, msg, init.span());
                        }
                        proof {
                            lemma_reported_as_trans(s0, s1, self.sink@, d1, chk);
                        }
                        ann
                    },
                    None => {
                        proof {
                            assert(d1 + Seq::<TypeDiag>::empty() =~= d1);
                        }
                        init_ty
                    },
                };
                self.define_var(name.clone(), resolved);
            },
            Stmt::Assign { target, value, span } => {
                let target_ty = self.check_expr(target);
                let ghost s1 = self.sink@;
                let value_ty = self.check_expr(value);
                let ghost s2 = self.sink@;
                let ghost d12 = expr_diags(c, env0, rv, false, *target) + expr_diags(c, env0, rv, false, *value);
                let ghost chk = if !assignable(value_ty@, target_ty@) {
                    one(9001, *span)
                } else {
                    Seq::<TypeDiag>::empty()
                };
                proof {
                    lemma_reported_as_trans(s0, s1, s2, expr_diags(c, env0, rv, false, *target), expr_diags(c, env0, rv, false, *value));
                    lemma_reported_as_none(s2);
                }
                if !self.is_assignable(&value_ty, &target_ty) {
                    let (t, v) = (target_ty.to_string(), value_ty.to_string());
                    let msg = concat5("赋值类型不匹配：'", t.as_str(), "' 和 '", v.as_str(), "'");
                    self.emit_error(ErrorCode::InternalCompilerError, msg, *span);
                }
                proof {
                    lemma_reported_as_trans(s0, s2, self.sink@, d12, chk);
                }
            },
            // As a statement the value is dropped: arms need not agree.
            Stmt::Expr(expr) => {
                self.branch_in_stmt_pos = true;
                self.check_expr(expr);
                self.branch_in_stmt_pos = false;
            },
            Stmt::Defer(expr, _) => {
                self.branch_in_stmt_pos = true;
                self.check_expr(expr);
                self.branch_in_stmt_pos = false;
            },
        }
    }

    /// The type of an expression; problems found on the way are reported.
    #[verifier::loop_isolation(false)]
    #[verifier::spinoff_prover]
    #[verifier::rlimit(100)]
    pub fn check_expr(&mut self, expr: &Expr) -> (t: Type)
        requires
            old(self).scopes_ok(),
        ensures
            final(self).scopes_ok(),
            final(self).depth() == old(self).depth(),
            final(self).ctx() == old(self).ctx(),
            grows(old(self).reported(), final(self).reported()),
            final(self).ret_context() == old(self).ret_context(),
            !final(self).in_stmt_pos(),
            final(self).env() == old(self).env(),
            t@ == expr_ty(
                old(self).ctx(),
                old(self).env(),
                opt_view(old(self).ret_context()),
                old(self).in_stmt_pos(),
                *expr,
            ),
            reported_as(
                old(self).reported(),
                final(self).reported(),
                expr_diags(old(self).ctx(), old(self).env(), opt_view(old(self).ret_context()), old(self).in_stmt_pos(), *expr),
            ),
        decreases expr, 1int,
    {
        // The statement position holds for this expression only: only a
        // block's tail and a branch's arms pass it on.
        let stmt_pos = self.branch_in_stmt_pos;
        self.branch_in_stmt_pos = false;
        let ghost c = self.type_ctx;
        let ghost env0 = self.env();
        let ghost rv = opt_view(self.current_return_type);
        let ghost s0 = self.sink@;
        proof {
            lemma_reported_as_none(s0);
        }
        match expr {
            Expr::Int(_, _) => Type::i32(),
            Expr::Float(_, _) => Type::float64(),
            Expr::Bool(_, _) => Type::Bool,
            Expr::Str(_, _) => Type::Str,
            Expr::Nil(_) => Type::Void,
            Expr::Path(segments, _) => {
                // A variable first, then a top-level function of that name.
                if segments.len() > 0 {
                    let name = &segments[0];
                    let ty = self.lookup_var(name.as_str());
                    if !ty.is_unknown() {
                        return ty;
                    }
                    match self.type_ctx.get_func(name.as_str()) {
                        Some(func_ty) => {
                            return func_ty;
                        },
                        None => {},
                    }
                }
                Type::Unknown
            },
            Expr::Binary { .. } => self.check_binary(expr),
            Expr::Call { .. } => self.check_call(expr),
            Expr::Field { .. } => self.check_field(expr),
            Expr::Unary { .. } => self.check_unary(expr),
            Expr::Deref(..) => self.check_deref(expr),
            Expr::Index { .. } => self.check_index(expr),
            Expr::Propagate(..) => self.check_propagate(expr),
            Expr::Block { .. } => self.check_block(expr, stmt_pos),
            Expr::Branch { .. } => self.check_branch(expr, stmt_pos),
            Expr::Loop { subject, body, .. } => {
                match subject {
                    Some(sj) => {
                        self.check_expr(sj);
                    },
                    None => {},
                }
                let ghost s1 = self.sink@;
                self.check_expr(body);
                proof {
                    let d1 = match subject {
                        Some(x) => expr_diags(c, env0, rv, false, **x),
                        None => Seq::<TypeDiag>::empty(),
                    };
                    lemma_reported_as_trans(s0, s1, self.sink@, d1, expr_diags(c, env0, rv, false, **body));
                }
                Type::Void
            },
            // Control flow produces no value: `never`.
            Expr::Ret(value, _) => {
                match value {
                    Some(v) => {
                        self.check_expr(v);
                    },
                    None => {},
                }
                Type::Never
            },
            Expr::Stop { .. } => Type::Never,
            Expr::Skip { .. } => Type::Never,
            Expr::Jmp { target, .. } => {
                match target {
                    Some(tg) => {
                        self.check_expr(tg);
                    },
                    None => {},
                }
                Type::Never
            },
            Expr::StructLit { .. } => self.check_struct_lit(expr, stmt_pos),
            Expr::ArrayLit { .. } => self.check_array_lit(expr, stmt_pos),
            Expr::VariantConstructor { .. } => self.check_variant(expr, stmt_pos),
        }
    }
    #[verifier::spinoff_prover]
    #[verifier::rlimit(100)]
    #[verifier::loop_isolation(false)]
    fn check_binary(&mut self, expr: &Expr) -> (t: Type)
        requires
            *expr is Binary,
            old(self).scopes_ok(),
            !old(self).branch_in_stmt_pos,
        ensures
            final(self).scopes_ok(),
            final(self).var_scopes@.len() == old(self).var_scopes@.len(),
            final(self).type_ctx == old(self).type_ctx,
            grows(old(self).sink@, final(self).sink@),
            final(self).current_return_type == old(self).current_return_type,
            !final(self).branch_in_stmt_pos,
            final(self).env() == old(self).env(),
            t@ == expr_ty(old(self).type_ctx, old(self).env(), opt_view(old(self).current_return_type), false, *expr),
            reported_as(
                old(self).sink@,
                final(self).sink@,
                expr_diags(old(self).type_ctx, old(self).env(), opt_view(old(self).current_return_type), false, *expr),
            ),
        decreases expr, 0int,
    {
        let ghost c = self.type_ctx;
        let ghost env0 = self.env();
        let ghost rv = opt_view(self.current_return_type);
        let ghost s0 = self.sink@;
        proof {
            lemma_reported_as_none(s0);
        }
        match expr {
            Expr::Binary { op, lhs, rhs, span } => {
                let lty = self.check_expr(lhs);
                let ghost s1 = self.sink@;
                let rty = self.check_expr(rhs);
                let ghost s2 = self.sink@;
                let t = self.check_binop(op, &lty, &rty, *span);
                proof {
                    let d1 = expr_diags(c, env0, rv, false, **lhs);
                    let d2 = expr_diags(c, env0, rv, false, **rhs);
                    lemma_reported_as_trans(s0, s1, s2, d1, d2);
                    lemma_reported_as_trans(s0, s2, self.sink@, d1 + d2, if binop_rejected(op@, lty@, rty@) {
                        one(9001, *span)
                    } else {
                        Seq::empty()
                    });
                }
                t
            },
            _ => Type::Unknown,
        }
    }

    #[verifier::spinoff_prover]
    #[verifier::rlimit(100)]
    #[verifier::loop_isolation(false)]
    fn check_call(&mut self, expr: &Expr) -> (t: Type)
        requires
            *expr is Call,
            old(self).scopes_ok(),
            !old(self).branch_in_stmt_pos,
        ensures
            final(self).scopes_ok(),
            final(self).var_scopes@.len() == old(self).var_scopes@.len(),
            final(self).type_ctx == old(self).type_ctx,
            grows(old(self).sink@, final(self).sink@),
            final(self).current_return_type == old(self).current_return_type,
            !final(self).branch_in_stmt_pos,
            final(self).env() == old(self).env(),
            t@ == expr_ty(old(self).type_ctx, old(self).env(), opt_view(old(self).current_return_type), false, *expr),
            reported_as(
                old(self).sink@,
                final(self).sink@,
                expr_diags(old(self).type_ctx, old(self).env(), opt_view(old(self).current_return_type), false, *expr),
            ),
        decreases expr, 0int,
    {
        let ghost c = self.type_ctx;
        let ghost env0 = self.env();
        let ghost rv = opt_view(self.current_return_type);
        let ghost s0 = self.sink@;
        proof {
            lemma_reported_as_none(s0);
        }
        match expr {
            Expr::Call { callee, args, .. } => {
                let func_ty = self.check_expr(callee);
                let ghost dc = expr_diags(c, env0, rv, false, **callee);
                let mut i: usize = 0;
                while i < args.len()
                    invariant
                        i <= args@.len(),
                        reported_as(s0, self.sink@, dc + list_diags(c, env0, rv, *expr, i as int)),
                        self.scopes_ok(),
                        self.var_scopes@.len() == old(self).var_scopes@.len(),
                        self.env() == old(self).env(),
                        self.type_ctx == old(self).type_ctx,
                        grows(old(self).sink@, self.sink@),
                        self.current_return_type == old(self).current_return_type,
                        !self.branch_in_stmt_pos,
                    decreases args@.len() - i,
                {
                    proof {
                        assert(decreases_to!(expr => args@[i as int]));
                    }
                    let ghost s1 = self.sink@;
                    self.check_expr(&args[i]);
                    proof {
                        let a = list_diags(c, env0, rv, *expr, i as int);
                        let x = expr_diags(c, env0, rv, false, args@[i as int]);
                        assert(list_diags(c, env0, rv, *expr, i + 1) == a + x);
                        lemma_reported_as_trans(s0, s1, self.sink@, dc + a, x);
                        assert(dc + a + x =~= dc + (a + x));
                    }
                    i = i + 1;
                }
                match func_ty {
                    Type::Func { ret, .. } => *ret,
                    _ => Type::Unknown,
                }
            },
            _ => Type::Unknown,
        }
    }

    #[verifier::spinoff_prover]
    #[verifier::rlimit(100)]
    #[verifier::loop_isolation(false)]
    fn check_field(&mut self, expr: &Expr) -> (t: Type)
        requires
            *expr is Field,
            old(self).scopes_ok(),
            !old(self).branch_in_stmt_pos,
        ensures
            final(self).scopes_ok(),
            final(self).var_scopes@.len() == old(self).var_scopes@.len(),
            final(self).type_ctx == old(self).type_ctx,
            grows(old(self).sink@, final(self).sink@),
            final(self).current_return_type == old(self).current_return_type,
            !final(self).branch_in_stmt_pos,
            final(self).env() == old(self).env(),
            t@ == expr_ty(old(self).type_ctx, old(self).env(), opt_view(old(self).current_return_type), false, *expr),
            reported_as(
                old(self).sink@,
                final(self).sink@,
                expr_diags(old(self).type_ctx, old(self).env(), opt_view(old(self).current_return_type), false, *expr),
            ),
        decreases expr, 0int,
    {
        let ghost c = self.type_ctx;
        let ghost env0 = self.env();
        let ghost rv = opt_view(self.current_return_type);
        let ghost s0 = self.sink@;
        proof {
            lemma_reported_as_none(s0);
        }
        match expr {
            Expr::Field { base, name, span } => {
                let base_ty = self.check_expr(base);
                let ghost s1 = self.sink@;
                let ghost d1 = expr_diags(c, env0, rv, false, **base);
                let ghost fd = field_diags(c, base_ty@, name@, *span);
                proof {
                    lemma_reported_as_none(s1);
                }
                let ghost s1b = s1;
                match &base_ty {
                    Type::Struct(struct_name) => match self.type_ctx.get_struct_field(
                        struct_name.as_str(),
                        name.as_str(),
                    ) {
                        Some(t) => {
                            proof {
                                lemma_reported_as_trans(s0, s1, self.sink@, d1, fd);
                            }
                            t
                        },
                        None => {
                            let msg = concat5("字段 '", name.as_str(), "' 在结构体 '", struct_name.as_str(), "' 中未定义");
                            self.emit_error(ErrorCode::UndefinedName, msg, *span);
                            proof {
                                lemma_reported_as_trans(s0, s1, self.sink@, d1, fd);
                            }
                            Type::Unknown
                        },
                    },
                    _ => {
                        let b = base_ty.to_string();
                        let msg = concat3("类型 '", b.as_str(), "' 没有字段");
                        self.emit_error(ErrorCode::InternalCompilerError, msg, *span);
                        proof {
                            lemma_reported_as_trans(s0, s1, self.sink@, d1, fd);
                        }
                        Type::Unknown
                    },
                }
            },
            _ => Type::Unknown,
        }
    }

    #[verifier::spinoff_prover]
    #[verifier::rlimit(100)]
    #[verifier::loop_isolation(false)]
    fn check_unary(&mut self, expr: &Expr) -> (t: Type)
        requires
            *expr is Unary,
            old(self).scopes_ok(),
            !old(self).branch_in_stmt_pos,
        ensures
            final(self).scopes_ok(),
            final(self).var_scopes@.len() == old(self).var_scopes@.len(),
            final(self).type_ctx == old(self).type_ctx,
            grows(old(self).sink@, final(self).sink@),
            final(self).current_return_type == old(self).current_return_type,
            !final(self).branch_in_stmt_pos,
            final(self).env() == old(self).env(),
            t@ == expr_ty(old(self).type_ctx, old(self).env(), opt_view(old(self).current_return_type), false, *expr),
            reported_as(
                old(self).sink@,
                final(self).sink@,
                expr_diags(old(self).type_ctx, old(self).env(), opt_view(old(self).current_return_type), false, *expr),
            ),
        decreases expr, 0int,
    {
        let ghost c = self.type_ctx;
        let ghost env0 = self.env();
        let ghost rv = opt_view(self.current_return_type);
        let ghost s0 = self.sink@;
        proof {
            lemma_reported_as_none(s0);
        }
        match expr {
            Expr::Unary { op, operand, span } => {
                proof {
                    reveal_strlit("-");
                    reveal_strlit("!");
                    assert("-"@[0] == '-' && "!"@[0] == '!');
                }
                let ty = self.check_expr(operand);
                let ghost s1 = self.sink@;
                let ghost d1 = expr_diags(c, env0, rv, false, **operand);
                let ghost ud = crate::frontend::typecheck::typing::unary_diags(op@, ty@, *span);
                proof {
                    lemma_reported_as_none(s1);
                    lemma_reported_as_trans(s0, s1, s1, d1, Seq::empty());
                    assert(d1 + Seq::<TypeDiag>::empty() =~= d1);
                }
                if str_eq(op, "-") {
                    if !ty.is_numeric() && !ty.is_unknown() {
                        let t = ty.to_string();
                        let msg = concat3("一元负号不支持类型 '", t.as_str(), "'");
                        self.emit_error(ErrorCode::InternalCompilerError, msg, *span);
                        proof {
                            lemma_reported_as_trans(s0, s1, self.sink@, d1, ud);
                        }
                        return Type::Unknown;
                    }
                    proof {
                        assert(ud =~= Seq::<TypeDiag>::empty());
                    }
                    ty
                } else if str_eq(op, "!") {
                    let is_bool = match ty {
                        Type::Bool => true,
                        _ => false,
                    };
                    if !is_bool && !ty.is_unknown() {
                        let t = ty.to_string();
                        let msg = concat3("逻辑非要求布尔类型，得到 '", t.as_str(), "'");
                        self.emit_error(ErrorCode::InternalCompilerError, msg, *span);
                        proof {
                            lemma_reported_as_trans(s0, s1, self.sink@, d1, ud);
                        }
                    } else {
                        proof {
                            assert(ud =~= Seq::<TypeDiag>::empty());
                        }
                    }
                    Type::Bool
                } else {
                    let msg = concat3("未知一元运算符 '", op, "'");
                    self.emit_error(ErrorCode::InternalCompilerError, msg, *span);
                    proof {
                        lemma_reported_as_trans(s0, s1, self.sink@, d1, ud);
                    }
                    Type::Unknown
                }
            },
            _ => Type::Unknown,
        }
    }

    #[verifier::spinoff_prover]
    #[verifier::rlimit(100)]
    #[verifier::loop_isolation(false)]
    fn check_deref(&mut self, expr: &Expr) -> (t: Type)
        requires
            *expr is Deref,
            old(self).scopes_ok(),
            !old(self).branch_in_stmt_pos,
        ensures
            final(self).scopes_ok(),
            final(self).var_scopes@.len() == old(self).var_scopes@.len(),
            final(self).type_ctx == old(self).type_ctx,
            grows(old(self).sink@, final(self).sink@),
            final(self).current_return_type == old(self).current_return_type,
            !final(self).branch_in_stmt_pos,
            final(self).env() == old(self).env(),
            t@ == expr_ty(old(self).type_ctx, old(self).env(), opt_view(old(self).current_return_type), false, *expr),
            reported_as(
                old(self).sink@,
                final(self).sink@,
                expr_diags(old(self).type_ctx, old(self).env(), opt_view(old(self).current_return_type), false, *expr),
            ),
        decreases expr, 0int,
    {
        let ghost c = self.type_ctx;
        let ghost env0 = self.env();
        let ghost rv = opt_view(self.current_return_type);
        let ghost s0 = self.sink@;
        proof {
            lemma_reported_as_none(s0);
        }
        match expr {
            Expr::Deref(inner, span) => {
                let ty = self.check_expr(inner);
                let ghost s1 = self.sink@;
                let ghost d1 = expr_diags(c, env0, rv, false, **inner);
                proof {
                    assert(d1 + Seq::<TypeDiag>::empty() =~= d1);
                }
                match ty {
                    Type::Borrow(inner_ty) => *inner_ty,
                    Type::Own(inner_ty) => *inner_ty,
                    Type::Unknown => Type::Unknown,
                    _ => {
                        let t = ty.to_string();
                        let msg = concat3("无法解引用类型 '", t.as_str(), "'");
                        self.emit_error(ErrorCode::InternalCompilerError, msg, *span);
                        proof {
                            lemma_reported_as_trans(s0, s1, self.sink@, d1, one(9001, *span));
                        }
                        Type::Unknown
                    },
                }
            },
            _ => Type::Unknown,
        }
    }

    #[verifier::spinoff_prover]
    #[verifier::rlimit(100)]
    #[verifier::loop_isolation(false)]
    fn check_index(&mut self, expr: &Expr) -> (t: Type)
        requires
            *expr is Index,
            old(self).scopes_ok(),
            !old(self).branch_in_stmt_pos,
        ensures
            final(self).scopes_ok(),
            final(self).var_scopes@.len() == old(self).var_scopes@.len(),
            final(self).type_ctx == old(self).type_ctx,
            grows(old(self).sink@, final(self).sink@),
            final(self).current_return_type == old(self).current_return_type,
            !final(self).branch_in_stmt_pos,
            final(self).env() == old(self).env(),
            t@ == expr_ty(old(self).type_ctx, old(self).env(), opt_view(old(self).current_return_type), false, *expr),
            reported_as(
                old(self).sink@,
                final(self).sink@,
                expr_diags(old(self).type_ctx, old(self).env(), opt_view(old(self).current_return_type), false, *expr),
            ),
        decreases expr, 0int,
    {
        let ghost c = self.type_ctx;
        let ghost env0 = self.env();
        let ghost rv = opt_view(self.current_return_type);
        let ghost s0 = self.sink@;
        proof {
            lemma_reported_as_none(s0);
        }
        match expr {
            Expr::Index { base, index, span } => {
                let base_ty = self.check_expr(base);
                let ghost s1 = self.sink@;
                self.check_expr(index);
                let ghost s2 = self.sink@;
                let ghost d12 = expr_diags(c, env0, rv, false, **base) + expr_diags(c, env0, rv, false, **index);
                proof {
                    lemma_reported_as_trans(s0, s1, s2, expr_diags(c, env0, rv, false, **base), expr_diags(c, env0, rv, false, **index));
                    assert(d12 + Seq::<TypeDiag>::empty() =~= d12);
                }
                match base_ty {
                    Type::Array { elem, .. } => *elem,
                    Type::Slice { elem } => *elem,
                    Type::Unknown => Type::Unknown,
                    _ => {
                        let t = base_ty.to_string();
                        let msg = concat3("类型 '", t.as_str(), "' 不支持下标访问");
                        self.emit_error(ErrorCode::InternalCompilerError, msg, *span);
                        proof {
                            lemma_reported_as_trans(s0, s2, self.sink@, d12, one(9001, *span));
                        }
                        Type::Unknown
                    },
                }
            },
            _ => Type::Unknown,
        }
    }

    #[verifier::spinoff_prover]
    #[verifier::rlimit(100)]
    #[verifier::loop_isolation(false)]
    fn check_propagate(&mut self, expr: &Expr) -> (t: Type)
        requires
            *expr is Propagate,
            old(self).scopes_ok(),
            !old(self).branch_in_stmt_pos,
        ensures
            final(self).scopes_ok(),
            final(self).var_scopes@.len() == old(self).var_scopes@.len(),
            final(self).type_ctx == old(self).type_ctx,
            grows(old(self).sink@, final(self).sink@),
            final(self).current_return_type == old(self).current_return_type,
            !final(self).branch_in_stmt_pos,
            final(self).env() == old(self).env(),
            t@ == expr_ty(old(self).type_ctx, old(self).env(), opt_view(old(self).current_return_type), false, *expr),
            reported_as(
                old(self).sink@,
                final(self).sink@,
                expr_diags(old(self).type_ctx, old(self).env(), opt_view(old(self).current_return_type), false, *expr),
            ),
        decreases expr, 0int,
    {
        let ghost c = self.type_ctx;
        let ghost env0 = self.env();
        let ghost rv = opt_view(self.current_return_type);
        let ghost s0 = self.sink@;
        proof {
            lemma_reported_as_none(s0);
        }
        match expr {
            Expr::Propagate(inner, span) => {
                let ty = self.check_expr(inner);
                let ghost s1 = self.sink@;
                let ghost d1 = expr_diags(c, env0, rv, false, **inner);
                proof {
                    assert(d1 + Seq::<TypeDiag>::empty() =~= d1);
                }
                match ty {
                    Type::ErrUnion { ok, .. } => *ok,
                    Type::Unknown => Type::Unknown,
                    _ => {
                        let t = ty.to_string();
                        let msg = concat3("'!' 传播要求错误联合类型，得到 '", t.as_str(), "'");
                        self.emit_error(ErrorCode::InternalCompilerError, msg, *span);
                        proof {
                            lemma_reported_as_trans(s0, s1, self.sink@, d1, one(9001, *span));
                        }
                        Type::Unknown
                    },
                }
            },
            _ => Type::Unknown,
        }
    }

    #[verifier::loop_isolation(false)]
    #[verifier::spinoff_prover]
    #[verifier::rlimit(100)]
    fn check_block(&mut self, expr: &Expr, stmt_pos: bool) -> (t: Type)
        requires
            *expr is Block,
            old(self).scopes_ok(),
            !old(self).branch_in_stmt_pos,
        ensures
            final(self).scopes_ok(),
            final(self).var_scopes@.len() == old(self).var_scopes@.len(),
            final(self).type_ctx == old(self).type_ctx,
            grows(old(self).sink@, final(self).sink@),
            final(self).current_return_type == old(self).current_return_type,
            !final(self).branch_in_stmt_pos,
            final(self).env() == old(self).env(),
            t@ == expr_ty(old(self).type_ctx, old(self).env(), opt_view(old(self).current_return_type), stmt_pos, *expr),
            reported_as(
                old(self).sink@,
                final(self).sink@,
                expr_diags(old(self).type_ctx, old(self).env(), opt_view(old(self).current_return_type), stmt_pos, *expr),
            ),
        decreases expr, 0int,
    {
        match expr {
            Expr::Block { stmts, .. } => {
                // The type of a block is that of its tail expression
                // statement, `void` without one.
                let ghost c = self.type_ctx;
                let ghost outer = self.env();
                let ghost rv = opt_view(self.current_return_type);
                let ghost s0 = self.sink@;
                proof {
                    lemma_reported_as_none(s0);
                }
                self.push_scope();
                let ghost inner = self.env();
                let mut last_ty = Type::Void;
                let n = stmts.len();
                let mut i: usize = 0;
                while i < n
                    invariant
                        n == stmts@.len(),
                        i <= n,
                        inner == outer.push(Map::empty()),
                        self.env() == stmts_env(c, inner, rv, *expr, i as int),
                        s0 == old(self).sink@,
                        reported_as(s0, self.sink@, stmts_diags(c, inner, rv, stmt_pos, *expr, i as int)),
                        last_ty@ == (if i == n && n > 0 {
                            expr_ty(c, outer, rv, stmt_pos, *expr)
                        } else {
                            TypeView::Void
                        }),
                        self.scopes_ok(),
                        self.var_scopes@.len() == old(self).var_scopes@.len() + 1,
                        self.type_ctx == old(self).type_ctx,
                        grows(old(self).sink@, self.sink@),
                        self.current_return_type == old(self).current_return_type,
                        !self.branch_in_stmt_pos,
                    decreases n - i,
                {
                    proof {
                        assert(decreases_to!(expr => stmts@[i as int]));
                    }
                    let stmt = &stmts[i];
                    let ghost s1 = self.sink@;
                    let ghost here = stmts_env(c, inner, rv, *expr, i as int);
                    let mut done = false;
                    if i + 1 == n {
                        match stmt {
                            Stmt::Expr(e) => {
                                // The tail is dropped exactly when the block is.
                                self.branch_in_stmt_pos = stmt_pos;
                                last_ty = self.check_expr(e);
                                done = true;
                            },
                            _ => {},
                        }
                    }
                    if !done {
                        self.check_stmt(stmt);
                    }
                    proof {
                        let d = if i + 1 == n && stmts@[i as int] is Expr {
                            expr_diags(c, here, rv, stmt_pos, stmts@[i as int]->Expr_0)
                        } else {
                            stmt_diags(c, here, rv, stmts@[i as int])
                        };
                        assert(stmts_diags(c, inner, rv, stmt_pos, *expr, i + 1) == stmts_diags(
                            c,
                            inner,
                            rv,
                            stmt_pos,
                            *expr,
                            i as int,
                        ) + d);
                        lemma_reported_as_trans(s0, s1, self.sink@, stmts_diags(c, inner, rv, stmt_pos, *expr, i as int), d);
                        assert(stmts_env(c, inner, rv, *expr, i + 1) == stmt_env(
                            c,
                            stmts_env(c, inner, rv, *expr, i as int),
                            rv,
                            stmts@[i as int],
                        ));
                    }
                    i = i + 1;
                }
                proof {
                    lemma_stmts_env_frame(c, inner, rv, *expr, n as int);
                    assert(inner.drop_last() =~= outer);
                    assert(last_ty@ == expr_ty(c, outer, rv, stmt_pos, *expr));
                }
                self.pop_scope();
                last_ty
            },
            _ => Type::Unknown,
        }
    }

    #[verifier::loop_isolation(false)]
    #[verifier::spinoff_prover]
    #[verifier::rlimit(100)]
    fn check_branch(&mut self, expr: &Expr, stmt_pos: bool) -> (t: Type)
        requires
            *expr is Branch,
            old(self).scopes_ok(),
            !old(self).branch_in_stmt_pos,
        ensures
            final(self).scopes_ok(),
            final(self).var_scopes@.len() == old(self).var_scopes@.len(),
            final(self).type_ctx == old(self).type_ctx,
            grows(old(self).sink@, final(self).sink@),
            final(self).current_return_type == old(self).current_return_type,
            !final(self).branch_in_stmt_pos,
            final(self).env() == old(self).env(),
            t@ == expr_ty(old(self).type_ctx, old(self).env(), opt_view(old(self).current_return_type), stmt_pos, *expr),
            reported_as(
                old(self).sink@,
                final(self).sink@,
                expr_diags(old(self).type_ctx, old(self).env(), opt_view(old(self).current_return_type), stmt_pos, *expr),
            ),
        decreases expr, 0int,
    {
        match expr {
            Expr::Branch { scrutinee, arms, .. } => {
                let ghost s0 = self.sink@;
                match scrutinee {
                    Some(sc) => {
                        self.check_expr(sc);
                    },
                    None => {},
                }
                let mut unified: Option<Type> = None;
                // The first arm without a value and the first with one, to
                // report mixing them.
                let mut void_arm: Option<Span> = None;
                let mut value_arm: Option<(Span, Type)> = None;
                let ghost c = self.type_ctx;
                let ghost outer = self.env();
                let ghost rv = opt_view(self.current_return_type);
                let ghost d0 = match scrutinee {
                    Some(x) => expr_diags(c, outer, rv, false, **x),
                    None => Seq::<TypeDiag>::empty(),
                };
                proof {
                    if scrutinee is None {
                        lemma_reported_as_none(s0);
                    }
                }
                let mut i: usize = 0;
                while i < arms.len()
                    invariant
                        i <= arms@.len(),
                        reported_as(s0, self.sink@, d0 + arms_diags(c, outer, rv, stmt_pos, *expr, i as int)),
                        outer == old(self).env(),
                        opt_view(unified) == arms_fold(c, outer, rv, stmt_pos, *expr, i as int).0,
                        void_arm is Some == arms_fold(c, outer, rv, stmt_pos, *expr, i as int).1,
                        (match value_arm {
                            Some((sp, _)) => Some(sp),
                            None => None,
                        }) == arms_fold(c, outer, rv, stmt_pos, *expr, i as int).2,
                        self.scopes_ok(),
                        self.var_scopes@.len() == old(self).var_scopes@.len(),
                        self.env() == old(self).env(),
                        self.type_ctx == old(self).type_ctx,
                        grows(old(self).sink@, self.sink@),
                        self.current_return_type == old(self).current_return_type,
                        !self.branch_in_stmt_pos,
                    decreases arms@.len() - i,
                {
                    proof {
                        assert(decreases_to!(expr => arms@[i as int]));
                    }
                    let arm = &arms[i];
                    let ghost s1 = self.sink@;
                    self.push_scope();
                    self.inject_pattern_bindings(&arm.pattern);
                    // An arm's value is dropped exactly when the branch's is.
                    self.branch_in_stmt_pos = stmt_pos;
                    let arm_ty = self.check_expr(&arm.body);
                    proof {
                        let a = arms_diags(c, outer, rv, stmt_pos, *expr, i as int);
                        let x = expr_diags(c, pattern_env(outer.push(Map::empty()), arm.pattern), rv, stmt_pos, arm.body);
                        assert(arms_diags(c, outer, rv, stmt_pos, *expr, i + 1) == a + x);
                        lemma_reported_as_trans(s0, s1, self.sink@, d0 + a, x);
                        assert(d0 + a + x =~= d0 + (a + x));
                        lemma_pattern_env_frame(outer.push(Map::empty()), arm.pattern);
                        assert(outer.push(Map::empty()).drop_last() =~= outer);
                    }
                    self.pop_scope();
                    // `Never` takes no part in unification.
                    if !arm_ty.is_never() && !arm_ty.is_unknown() {
                        let is_void = match arm_ty {
                            Type::Void => true,
                            _ => false,
                        };
                        if is_void {
                            if void_arm.is_none() {
                                void_arm = Some(arm.span);
                            }
                        } else if value_arm.is_none() {
                            value_arm = Some((arm.span, arm_ty.duplicate()));
                        }
                        unified = match unified {
                            None => Some(arm_ty),
                            Some(prev) => if !prev.same(&arm_ty) {
                                // Arms of different types: unknown.
                                Some(Type::Unknown)
                            } else {
                                Some(prev)
                            },
                        };
                    }
                    i = i + 1;
                }
                // Arms with and without a value cannot be lowered to one
                // result; as a statement, the value is dropped and that is
                // fine.
                let ghost s2 = self.sink@;
                let ghost dd = d0 + arms_diags(c, outer, rv, stmt_pos, *expr, arms@.len() as int);
                proof {
                    assert(dd + Seq::<TypeDiag>::empty() =~= dd);
                }
                if !stmt_pos && void_arm.is_some() {
                    match value_arm {
                        Some((value_span, value_ty)) => {
                            let v = value_ty.to_string();
                            let msg = concat3("分支各臂类型不一致：部分臂产出 '", v.as_str(), "'，部分臂产出 'void'。请让所有臂产出同一类型，或都不产出值");
                            self.emit_error(ErrorCode::TypeMismatch, msg, value_span);
                            proof {
                                lemma_reported_as_trans(s0, s2, self.sink@, dd, one(4001, value_span));
                            }
                            return Type::Unknown;
                        },
                        None => {},
                    }
                }
                match unified {
                    Some(t) => t,
                    None => Type::Unknown,
                }
            },
            _ => Type::Unknown,
        }
    }

    #[verifier::loop_isolation(false)]
    #[verifier::spinoff_prover]
    #[verifier::rlimit(100)]
    fn check_struct_lit(&mut self, expr: &Expr, stmt_pos: bool) -> (t: Type)
        requires
            *expr is StructLit,
            old(self).scopes_ok(),
            !old(self).branch_in_stmt_pos,
        ensures
            final(self).scopes_ok(),
            final(self).var_scopes@.len() == old(self).var_scopes@.len(),
            final(self).type_ctx == old(self).type_ctx,
            grows(old(self).sink@, final(self).sink@),
            final(self).current_return_type == old(self).current_return_type,
            !final(self).branch_in_stmt_pos,
            final(self).env() == old(self).env(),
            t@ == expr_ty(old(self).type_ctx, old(self).env(), opt_view(old(self).current_return_type), stmt_pos, *expr),
            reported_as(
                old(self).sink@,
                final(self).sink@,
                expr_diags(old(self).type_ctx, old(self).env(), opt_view(old(self).current_return_type), stmt_pos, *expr),
            ),
        decreases expr, 0int,
    {
        match expr {
            Expr::StructLit { name, fields, span } => {
                let ghost c = self.type_ctx;
                let ghost env0 = self.env();
                let ghost rv = opt_view(self.current_return_type);
                let ghost s0 = self.sink@;
                proof {
                    lemma_reported_as_none(s0);
                }
                if self.type_ctx.get_struct(name.as_str()).is_some() {
                    let mut i: usize = 0;
                    while i < fields.len()
                        invariant
                            i <= fields@.len(),
                            reported_as(s0, self.sink@, list_diags(c, env0, rv, *expr, i as int)),
                            self.scopes_ok(),
                            self.var_scopes@.len() == old(self).var_scopes@.len(),
                            self.env() == old(self).env(),
                            self.type_ctx == old(self).type_ctx,
                            grows(old(self).sink@, self.sink@),
                            self.current_return_type == old(self).current_return_type,
                            !self.branch_in_stmt_pos,
                        decreases fields@.len() - i,
                    {
                        proof {
                            assert(decreases_to!(expr => fields@[i as int]));
                        }
                        let field_name = &fields[i].0;
                        let ghost s1 = self.sink@;
                        let field_ty = self.check_expr(&fields[i].1);
                        let ghost s2 = self.sink@;
                        let ghost a = list_diags(c, env0, rv, *expr, i as int);
                        let ghost x = expr_diags(c, env0, rv, false, fields@[i as int].1);
                        let ghost chk = match entry_value(c.struct_def(name@)->0@, fields@[i as int].0@) {
                            Some(expected) => if !(field_ty@ is Unknown) && !(expected@ is Unknown) && field_ty@ != expected@ {
                                one(4001, *span)
                            } else {
                                Seq::<TypeDiag>::empty()
                            },
                            None => one(4002, *span),
                        };
                        proof {
                            assert(list_diags(c, env0, rv, *expr, i + 1) == a + x + chk);
                            lemma_reported_as_trans(s0, s1, s2, a, x);
                            lemma_reported_as_none(s2);
                        }
                        match self.type_ctx.get_struct_field(name.as_str(), field_name.as_str()) {
                            Some(expected) => {
                                // Unknown means missing information: not reported.
                                if !field_ty.is_unknown() && !expected.is_unknown() && !field_ty.same(&expected) {
                                    let (e, f) = (expected.to_string(), field_ty.to_string());
                                    let head = concat5("结构体 '", name.as_str(), "' 的字段 '", field_name.as_str(), "' 类型不匹配：期望 '");
                                    let msg = concat5(head.as_str(), e.as_str(), "'，得到 '", f.as_str(), "'");
                                    self.emit_error(ErrorCode::TypeMismatch, msg, *span);
                                }
                            },
                            None => {
                                let msg = concat5("字段 '", field_name.as_str(), "' 在结构体 '", name.as_str(), "' 中未定义");
                                self.emit_error(ErrorCode::UndefinedName, msg, *span);
                            },
                        }
                        proof {
                            lemma_reported_as_trans(s0, s2, self.sink@, a + x, chk);
                        }
                        i = i + 1;
                    }
                    Type::Struct(name.clone())
                } else {
                    let msg = concat3("未定义的结构体 '", name.as_str(), "'");
                    self.emit_error(ErrorCode::UndefinedName, msg, *span);
                    proof {
                        lemma_reported_as_trans(s0, s0, self.sink@, Seq::empty(), one(4002, *span));
                        assert(Seq::<TypeDiag>::empty() + one(4002, *span) =~= one(4002, *span));
                    }
                    Type::Unknown
                }
            },
            _ => Type::Unknown,
        }
    }

    #[verifier::loop_isolation(false)]
    #[verifier::spinoff_prover]
    #[verifier::rlimit(100)]
    fn check_array_lit(&mut self, expr: &Expr, stmt_pos: bool) -> (t: Type)
        requires
            *expr is ArrayLit,
            old(self).scopes_ok(),
            !old(self).branch_in_stmt_pos,
        ensures
            final(self).scopes_ok(),
            final(self).var_scopes@.len() == old(self).var_scopes@.len(),
            final(self).type_ctx == old(self).type_ctx,
            grows(old(self).sink@, final(self).sink@),
            final(self).current_return_type == old(self).current_return_type,
            !final(self).branch_in_stmt_pos,
            final(self).env() == old(self).env(),
            t@ == expr_ty(old(self).type_ctx, old(self).env(), opt_view(old(self).current_return_type), stmt_pos, *expr),
            reported_as(
                old(self).sink@,
                final(self).sink@,
                expr_diags(old(self).type_ctx, old(self).env(), opt_view(old(self).current_return_type), stmt_pos, *expr),
            ),
        decreases expr, 0int,
    {
        match expr {
            Expr::ArrayLit { elements, span } => {
                let ghost c = self.type_ctx;
                let ghost env0 = self.env();
                let ghost rv = opt_view(self.current_return_type);
                let ghost s0 = self.sink@;
                proof {
                    lemma_reported_as_none(s0);
                }
                if elements.len() == 0 {
                    // An empty array: its element type is unknown.
                    proof {
                        assert(list_diags(c, env0, rv, *expr, 0) =~= Seq::<TypeDiag>::empty());
                    }
                    return Type::Unknown;
                }
                proof {
                    assert(decreases_to!(expr => elements@[0]));
                }
                let first_ty = self.check_expr(&elements[0]);
                proof {
                    let x = expr_diags(c, env0, rv, false, elements@[0]);
                    assert(list_diags(c, env0, rv, *expr, 1) == list_diags(c, env0, rv, *expr, 0) + x + Seq::<TypeDiag>::empty());
                    assert(Seq::<TypeDiag>::empty() + x + Seq::<TypeDiag>::empty() =~= x);
                }
                let mut i: usize = 1;
                while i < elements.len()
                    invariant
                        1 <= i <= elements@.len(),
                        first_ty@ == expr_ty(c, env0, rv, false, elements@[0]),
                        reported_as(s0, self.sink@, list_diags(c, env0, rv, *expr, i as int)),
                        self.scopes_ok(),
                        self.var_scopes@.len() == old(self).var_scopes@.len(),
                        self.env() == old(self).env(),
                        self.type_ctx == old(self).type_ctx,
                        grows(old(self).sink@, self.sink@),
                        self.current_return_type == old(self).current_return_type,
                        !self.branch_in_stmt_pos,
                    decreases elements@.len() - i,
                {
                    proof {
                        assert(decreases_to!(expr => elements@[i as int]));
                    }
                    let ghost s1 = self.sink@;
                    let elem_ty = self.check_expr(&elements[i]);
                    let ghost s2 = self.sink@;
                    let ghost a = list_diags(c, env0, rv, *expr, i as int);
                    let ghost x = expr_diags(c, env0, rv, false, elements@[i as int]);
                    let ghost chk = if elem_ty@ != first_ty@ && !(elem_ty@ is Unknown) && !(first_ty@ is Unknown) {
                        one(9001, *span)
                    } else {
                        Seq::<TypeDiag>::empty()
                    };
                    proof {
                        assert(list_diags(c, env0, rv, *expr, i + 1) == a + x + chk);
                        lemma_reported_as_trans(s0, s1, s2, a, x);
                        lemma_reported_as_none(s2);
                    }
                    if !elem_ty.same(&first_ty) && !elem_ty.is_unknown() && !first_ty.is_unknown() {
                        let (f, e) = (first_ty.to_string(), elem_ty.to_string());
                        let msg = concat5("数组元素类型不一致: 期望 '", f.as_str(), "', 得到 '", e.as_str(), "'");
                        self.emit_error(ErrorCode::InternalCompilerError, msg, *span);
                    }
                    proof {
                        lemma_reported_as_trans(s0, s2, self.sink@, a + x, chk);
                    }
                    i = i + 1;
                }
                Type::Array { elem: Box::new(first_ty), len: elements.len() as u64 }
            },
            _ => Type::Unknown,
        }
    }

    #[verifier::loop_isolation(false)]
    #[verifier::spinoff_prover]
    #[verifier::rlimit(100)]
    fn check_variant(&mut self, expr: &Expr, stmt_pos: bool) -> (t: Type)
        requires
            *expr is VariantConstructor,
            old(self).scopes_ok(),
            !old(self).branch_in_stmt_pos,
        ensures
            final(self).scopes_ok(),
            final(self).var_scopes@.len() == old(self).var_scopes@.len(),
            final(self).type_ctx == old(self).type_ctx,
            grows(old(self).sink@, final(self).sink@),
            final(self).current_return_type == old(self).current_return_type,
            !final(self).branch_in_stmt_pos,
            final(self).env() == old(self).env(),
            t@ == expr_ty(old(self).type_ctx, old(self).env(), opt_view(old(self).current_return_type), stmt_pos, *expr),
            reported_as(
                old(self).sink@,
                final(self).sink@,
                expr_diags(old(self).type_ctx, old(self).env(), opt_view(old(self).current_return_type), stmt_pos, *expr),
            ),
        decreases expr, 0int,
    {
        match expr {
            Expr::VariantConstructor { name, payload, span } => {
                let ghost c = self.type_ctx;
                let ghost env0 = self.env();
                let ghost rv = opt_view(self.current_return_type);
                let ghost s0 = self.sink@;
                proof {
                    lemma_reported_as_none(s0);
                }
                let payload_ty = match payload {
                    Some(p) => Some(self.check_expr(p)),
                    None => None,
                };
                let ghost s1 = self.sink@;
                let ghost d1 = match payload {
                    Some(x) => expr_diags(c, env0, rv, false, **x),
                    None => Seq::<TypeDiag>::empty(),
                };
                let ghost vd = variant_diags(c, rv, name@, opt_view(payload_ty), *span);
                proof {
                    lemma_reported_as_none(s1);
                    reveal_strlit("Ok");
                    reveal_strlit("Err");
                    assert("Ok"@.len() == 2 && "Err"@.len() == 3);
                }
                let r = match self.type_ctx.find_variant_union(name.as_str()) {
                    Some((union_name, expected)) => {
                        match payload_ty {
                            Some(actual) => {
                                if !actual.same(&expected) && !actual.is_unknown() {
                                    let (e, a) = (expected.to_string(), actual.to_string());
                                    let head = concat3("变体 '.", name.as_str(), "' payload 类型不匹配：期望 '");
                                    let msg = concat5(head.as_str(), e.as_str(), "'，实际 '", a.as_str(), "'");
                                    self.emit_error(ErrorCode::InternalCompilerError, msg, *span);
                                }
                            },
                            None => {
                                let is_void = match expected {
                                    Type::Void => true,
                                    _ => false,
                                };
                                if !is_void {
                                    let e = expected.to_string();
                                    let msg = concat5("变体 '.", name.as_str(), "' 需要 payload，类型为 '", e.as_str(), "'");
                                    self.emit_error(ErrorCode::InternalCompilerError, msg, *span);
                                }
                            },
                        }
                        Type::Union(union_name)
                    },
                    None => {
                        let is_ok = str_eq(name.as_str(), "Ok");
                        if is_ok || str_eq(name.as_str(), "Err") {
                            // `.Ok` and `.Err` build the error union the
                            // function returns.
                            let expected: Option<Type> = match &self.current_return_type {
                                Some(Type::ErrUnion { ok, err }) => if is_ok {
                                    Some(ok.duplicate())
                                } else {
                                    Some(err.duplicate())
                                },
                                _ => None,
                            };
                            match expected {
                                Some(expected_ty) => {
                                    match payload_ty {
                                        Some(actual) => {
                                            if !actual.same(&expected_ty) && !actual.is_unknown() {
                                                let (e, a) = (expected_ty.to_string(), actual.to_string());
                                                let head = concat3("变体 '.", name.as_str(), "' payload 类型不匹配：期望 '");
                                                let msg = concat5(head.as_str(), e.as_str(), "'，实际 '", a.as_str(), "'");
                                                self.emit_error(ErrorCode::InternalCompilerError, msg, *span);
                                            }
                                        },
                                        None => {
                                            let is_void = match expected_ty {
                                                Type::Void => true,
                                                _ => false,
                                            };
                                            if !is_void {
                                                let e = expected_ty.to_string();
                                                let msg = concat5("变体 '.", name.as_str(), "' 需要 payload，类型为 '", e.as_str(), "'");
                                                self.emit_error(ErrorCode::InternalCompilerError, msg, *span);
                                            }
                                        },
                                    }
                                    match &self.current_return_type {
                                        Some(t) => t.duplicate(),
                                        None => Type::Unknown,
                                    }
                                },
                                None => {
                                    let msg = concat3("变体 '.", name.as_str(), "' 只能在返回错误联合类型的函数中使用");
                                    self.emit_error(ErrorCode::InternalCompilerError, msg, *span);
                                    Type::Unknown
                                },
                            }
                        } else {
                            let msg = concat3("未找到变体 '.", name.as_str(), "'");
                            self.emit_error(ErrorCode::InternalCompilerError, msg, *span);
                            Type::Unknown
                        }
                    },
                };
                proof {
                    assert(reported_as(s1, self.sink@, vd));
                    lemma_reported_as_trans(s0, s1, self.sink@, d1, vd);
                }
                r
            },
            _ => Type::Unknown,
        }
    }
}

} // verus!
