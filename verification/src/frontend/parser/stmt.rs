//! Statement parsing.
//!
//! The binding forms (`::` compile time, `:` and `:=` run time) are told
//! apart here.

use super::decl::parse_type;
use super::expr::parse_expr;
use super::parser_impl::Parser;
use crate::frontend::ast::{Expr, Stmt};
use crate::frontend::lexer::TokenKind;
use crate::text::str_eq;
use vstd::prelude::*;

verus! {

/// The binding forms; which token introduces which binding is part of the
/// language definition.
#[derive(Debug, Clone, Copy, PartialEq, Eq, Structural)]
pub enum BindKind {
    /// `::` compile-time binding.
    Comptime,
    /// `:` run-time binding with a type.
    RuntimeTyped,
    /// `:=` run-time binding with an inferred type.
    RuntimeInferred,
}

pub open spec fn bind_kind_spec(k: TokenKind) -> Option<BindKind> {
    match k {
        TokenKind::Punct(s) => if s@ == "::"@ {
            Some(BindKind::Comptime)
        } else if s@ == ":"@ {
            Some(BindKind::RuntimeTyped)
        } else if s@ == ":="@ {
            Some(BindKind::RuntimeInferred)
        } else {
            None
        },
        _ => None,
    }
}

/// The binding form a token introduces, if any.
pub fn bind_kind(k: &TokenKind) -> (r: Option<BindKind>)
    ensures
        r == bind_kind_spec(*k),
{
    match k {
        TokenKind::Punct(s) => if str_eq(s, "::") {
            Some(BindKind::Comptime)
        } else if str_eq(s, ":") {
            Some(BindKind::RuntimeTyped)
        } else if str_eq(s, ":=") {
            Some(BindKind::RuntimeInferred)
        } else {
            None
        },
        _ => None,
    }
}

pub open spec fn is_jump_keyword_spec(k: Seq<char>) -> bool {
    k == "ret"@ || k == "jmp"@ || k == "stop"@ || k == "skip"@
}

/// Whether a keyword introduces a jump expression (of the never type).
pub fn is_jump_keyword(k: &str) -> (b: bool)
    ensures
        b == is_jump_keyword_spec(k@),
{
    str_eq(k, "ret") || str_eq(k, "jmp") || str_eq(k, "stop") || str_eq(k, "skip")
}

/// The token after the current one, skipping comments.
pub open spec fn next_kind(p: &Parser) -> TokenKind {
    p.toks@[Parser::ahead_index(p.toks@, p.pos as int, 0, 1)].kind
}

/// Whether the statement starts with an identifier followed by `:` or `:=`.
pub open spec fn starts_binding(p: &Parser) -> bool {
    &&& p.cur().kind is Ident
    &&& bind_kind_spec(next_kind(p)) matches Some(k) && k != BindKind::Comptime
}

/// Statement entry point.
pub fn parse_stmt(p: &mut Parser) -> (s: Stmt)
    requires
        old(p).wf(),
    ensures
        final(p).advanced_from(old(p)),
        old(p).at_keyword_spec("defer"@) ==> s is Defer,
        !old(p).at_keyword_spec("defer"@) && starts_binding(old(p)) ==> {
            &&& s matches Stmt::Let { name, is_mut, ty, .. }
            &&& old(p).cur().kind == TokenKind::Ident(name)
            &&& !is_mut
            &&& (ty is Some <==> (next_kind(old(p)) matches TokenKind::Punct(x) && x@ == ":"@))
        },
    decreases old(p).rem(), 9int,
{
    let start = p.peek_span();
    if p.eat_keyword("defer") {
        let expr = parse_expr(p);
        let span = start.extend(expr.span());
        return Stmt::Defer(expr, span);
    }
    // `x : T = e` or `x := e`: a binding only when the identifier is
    // followed by `:` or `:=`.
    if p.at_ident() {
        let kind = bind_kind(p.peek_ahead(1));
        match kind {
            Some(BindKind::RuntimeTyped) | Some(BindKind::RuntimeInferred) => {
                let (name, _) = match p.eat_ident() {
                    Some(r) => r,
                    None => {
                        return Stmt::Expr(parse_expr(p));
                    },
                };
                p.bump();
                if kind == Some(BindKind::RuntimeTyped) {
                    let ty = parse_type(p);
                    p.expect_punct("=");
                    let init = parse_expr(p);
                    let span = start.extend(init.span());
                    return Stmt::Let { name, is_mut: false, ty: Some(ty), init, span };
                } else {
                    let init = parse_expr(p);
                    let span = start.extend(init.span());
                    return Stmt::Let { name, is_mut: false, ty: None, init, span };
                }
            },
            Some(BindKind::Comptime) => {
                p.eat_ident();
                p.bump();
                p.unexpected("运行期语句中不允许编译期绑定");
                return Stmt::Expr(parse_expr(p));
            },
            None => {},
        }
    }
    // Assignment or expression statement: the left side first, then `=`
    // or `:=`.
    let expr = parse_expr(p);
    if p.eat_punct("=") {
        let value = parse_expr(p);
        let span = start.extend(value.span());
        return Stmt::Assign { target: expr, value, span };
    }
    if p.eat_punct(":=") {
        // `x := e` or `~x := e` after a parsed left side.
        let value = parse_expr(p);
        let span = start.extend(value.span());
        match binding_target(&expr) {
            Some((name, is_mut)) => {
                return Stmt::Let { name, is_mut, ty: None, init: value, span };
            },
            None => {},
        }
        // A destructuring binding `~x, ~y := a, b` stays an assignment for
        // the later passes to take apart.
        return Stmt::Assign { target: expr, value, span };
    }
    Stmt::Expr(expr)
}

pub open spec fn unary_operand_is_name(e: Expr, name: String) -> bool {
    e matches Expr::Path(path, _) && path@.len() == 1 && path@[0] == name
}

/// The name a `:=` binds: a single name, or one marked mutable with `~`.
pub open spec fn binding_target_spec(e: Expr) -> Option<(String, bool)> {
    match e {
        Expr::Path(path, _) => if path@.len() == 1 {
            Some((path@[0], false))
        } else {
            None
        },
        Expr::Unary { op, operand, .. } => if op@ == "~"@ {
            match *operand {
                Expr::Path(path, _) => if path@.len() == 1 {
                    Some((path@[0], true))
                } else {
                    None
                },
                _ => None,
            }
        } else {
            None
        },
        _ => None,
    }
}

/// The name a `:=` binds when its left side is a single name, and whether
/// it was marked mutable with `~`.
fn binding_target(e: &Expr) -> (r: Option<(String, bool)>)
    ensures
        r == binding_target_spec(*e),
        r matches Some((name, false)) ==> e matches Expr::Path(path, _) && path@.len() == 1
            && path@[0] == name,
        r matches Some((name, true)) ==> (e matches Expr::Unary { op, operand, .. } && op@ == "~"@
            && unary_operand_is_name(**operand, name)),
{
    match e {
        Expr::Path(path, _) => {
            if path.len() == 1 {
                Some((path[0].clone(), false))
            } else {
                None
            }
        },
        Expr::Unary { op, operand, .. } => {
            if str_eq(op, "~") {
                match &**operand {
                    Expr::Path(path, _) => {
                        if path.len() == 1 {
                            Some((path[0].clone(), true))
                        } else {
                            None
                        }
                    },
                    _ => None,
                }
            } else {
                None
            }
        },
        _ => None,
    }
}

} // verus!
