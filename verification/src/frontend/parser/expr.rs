//! Expression parsing.
//!
//! A Pratt parser handles binary operator precedence; postfix `^` (deref),
//! `!` (propagate), calls, indexing and field access are folded in by
//! `parse_postfix`. Branch `?` and loop `@` are expressions.

use super::parser_impl::Parser;
use super::stmt::parse_stmt;
use crate::diag::Span;
use crate::frontend::ast::{Arm, Expr, Pattern, Stmt};
use crate::frontend::lexer::{Token, TokenKind};
use crate::text::str_eq;
use vstd::prelude::*;

verus! {

/// Binding power of a punctuation operator; larger binds tighter.
pub open spec fn binding_power_spec(op: Seq<char>) -> Option<u8> {
    if op == ","@ {
        Some(5u8)
    } else if op == "*"@ || op == "/"@ || op == "%"@ {
        Some(70u8)
    } else if op == "+"@ || op == "-"@ {
        Some(60u8)
    } else if op == "<<"@ || op == ">>"@ {
        Some(50u8)
    } else if op == "&"@ || op == "|"@ {
        Some(40u8)
    } else if op == "<"@ || op == "<="@ || op == ">"@ || op == ">="@ {
        Some(30u8)
    } else if op == "=="@ || op == "!="@ {
        Some(20u8)
    } else {
        None
    }
}

/// Binary operator precedence. The logical words `and`/`or`/`not` and the
/// bitwise words are keywords, so they are not in this table.
pub fn binding_power(op: &str) -> (r: Option<u8>)
    ensures
        r == binding_power_spec(op@),
{
    if str_eq(op, ",") {
        Some(5)
    } else if str_eq(op, "*") || str_eq(op, "/") || str_eq(op, "%") {
        Some(70)
    } else if str_eq(op, "+") || str_eq(op, "-") {
        Some(60)
    } else if str_eq(op, "<<") || str_eq(op, ">>") {
        Some(50)
    } else if str_eq(op, "&") || str_eq(op, "|") {
        Some(40)
    } else if str_eq(op, "<") || str_eq(op, "<=") || str_eq(op, ">") || str_eq(op, ">=") {
        Some(30)
    } else if str_eq(op, "==") || str_eq(op, "!=") {
        Some(20)
    } else {
        None
    }
}

/// Whether a character has the Unicode `Uppercase` property.
pub uninterp spec fn is_uppercase_char(c: char) -> bool;

/// Calls `char::is_uppercase` of std; the result is named by
/// `is_uppercase_char`, and for ASCII it is true exactly for `A`..=`Z`, as
/// std documents.
#[verifier::external_body]
fn char_is_uppercase(c: char) -> (b: bool)
    ensures
        b == is_uppercase_char(c),
        (c as u32) < 128 ==> (b <==> ('A' <= c <= 'Z')),
{
    c.is_uppercase()
}

/// Whether a token kind is the punctuation `s`.
pub fn kind_is_punct(k: &TokenKind, s: &str) -> (b: bool)
    ensures
        b == (*k matches TokenKind::Punct(x) && x@ == s@),
{
    match k {
        TokenKind::Punct(x) => str_eq(x, s),
        _ => false,
    }
}

/// The first operand of an expression: found through the left side of
/// binary operators and the base of postfix operators.
pub open spec fn leftmost(e: Expr) -> Expr
    decreases e,
{
    match e {
        Expr::Binary { lhs, .. } => leftmost(*lhs),
        Expr::Deref(x, _) => leftmost(*x),
        Expr::Propagate(x, _) => leftmost(*x),
        Expr::Call { callee, .. } => leftmost(*callee),
        Expr::Index { base, .. } => leftmost(*base),
        Expr::Field { base, .. } => leftmost(*base),
        _ => e,
    }
}

/// What the token under the cursor makes of the operand that starts
/// there: a literal is that literal, a name is a path of that one name,
/// and a keyword or punctuation that opens a form gives that form.
pub open spec fn operand_head(p: &Parser, x: Expr) -> bool {
    &&& p.cur().kind matches TokenKind::Int(v) ==> x == Expr::Int(v, p.cur().span)
    &&& p.cur().kind matches TokenKind::Float(v) ==> x == Expr::Float(v, p.cur().span)
    &&& p.cur().kind matches TokenKind::Str(v) ==> x == Expr::Str(v, p.cur().span)
    &&& p.cur().kind matches TokenKind::Ident(n) ==> (x matches Expr::Path(segs, _) && segs@ == seq![n])
    &&& p.at_keyword_spec("true"@) ==> x == Expr::Bool(true, p.cur().span)
    &&& p.at_keyword_spec("false"@) ==> x == Expr::Bool(false, p.cur().span)
    &&& p.at_keyword_spec("nil"@) ==> x == Expr::Nil(p.cur().span)
    &&& p.at_keyword_spec("ret"@) ==> x is Ret
    &&& p.at_keyword_spec("stop"@) ==> x is Stop
    &&& p.at_keyword_spec("skip"@) ==> x is Skip
    &&& p.at_punct_spec("?"@) ==> x is Branch || x is Nil
    &&& p.at_punct_spec("@"@) ==> x is Loop
    &&& p.at_punct_spec("{"@) ==> x is Block
    &&& p.at_punct_spec("["@) ==> x is ArrayLit
    &&& p.at_punct_spec("-"@) ==> (x matches Expr::Unary { op, .. } && op@ == "-"@)
    &&& p.at_keyword_spec("not"@) ==> (x matches Expr::Unary { op, .. } && op@ == "not"@)
    &&& p.at_punct_spec("~"@) ==> (x matches Expr::Unary { op, .. } && op@ == "~"@)
}

/// An operand that `operand_head` describes is its own first operand.
pub proof fn lemma_operand_head_leftmost(p: &Parser, x: Expr)
    requires
        operand_head(p, x),
    ensures
        operand_head(p, leftmost(x)),
{
}

/// Postfix operators keep the first operand.
pub proof fn lemma_postfix_leftmost(e: Expr, base: Expr)
    requires
        postfix_of(e, base),
    ensures
        leftmost(e) == leftmost(base),
    decreases e,
{
    if e != base {
        match e {
            Expr::Deref(x, _) => lemma_postfix_leftmost(*x, base),
            Expr::Propagate(x, _) => lemma_postfix_leftmost(*x, base),
            Expr::Call { callee, .. } => lemma_postfix_leftmost(*callee, base),
            Expr::Index { base: b, .. } => lemma_postfix_leftmost(*b, base),
            Expr::Field { base: b, .. } => lemma_postfix_leftmost(*b, base),
            _ => {},
        }
    }
}

/// The binding power of a binary operator: `or` 10, `and` 15, and the
/// punctuation of the table.
pub open spec fn op_bp(op: Seq<char>) -> int {
    if op == "or"@ {
        10
    } else if op == "and"@ {
        15
    } else {
        match binding_power_spec(op) {
            Some(b) => b as int,
            None => 0,
        }
    }
}

/// Every binary operator of `e` that is not inside another kind of node
/// binds at least `min`, and the right operand of each holds only
/// operators that bind more tightly than it: operators of one binding
/// power group to the left, tighter ones nest deeper.
pub open spec fn prec_ok(e: Expr, min: int) -> bool
    decreases e,
{
    match e {
        Expr::Binary { op, lhs, rhs, .. } => op_bp(op@) >= min && prec_ok(*lhs, min) && prec_ok(*rhs, op_bp(op@) + 1),
        _ => true,
    }
}

/// No `(` among the tokens from `a` up to `b`.
pub open spec fn no_open_paren(toks: Seq<Token>, a: int, b: int) -> bool {
    forall|j: int| a <= j < b ==> !(#[trigger] toks[j].kind matches TokenKind::Punct(x) && x@ == "("@)
}

/// For operators of one binding power the tree leans left: the right
/// operand of a binary node is no binary node of an operator that binds
/// as loosely or more loosely. So `x - y - z` is `(x - y) - z`.
pub proof fn law_left_assoc(op: &'static str, lhs: Expr, rhs: Expr, span: Span, min: int)
    requires
        prec_ok(Expr::Binary { op, lhs: Box::new(lhs), rhs: Box::new(rhs), span }, min),
    ensures
        rhs matches Expr::Binary { op: op2, .. } ==> op_bp(op2@) > op_bp(op@),
        lhs matches Expr::Binary { op: op2, .. } ==> op_bp(op2@) >= min,
{
    reveal_with_fuel(prec_ok, 2);
}

/// The operator the expression loop picks has the binding power `op_bp`
/// gives it.
pub proof fn lemma_op_bp(op: Seq<char>, bp: u8)
    requires
        (op == "or"@ && bp == 10) || (op == "and"@ && bp == 15) || binding_power_spec(op) == Some(bp),
    ensures
        op_bp(op) == bp as int,
{
    reveal_strlit(",");
    reveal_strlit("*");
    reveal_strlit("/");
    reveal_strlit("%");
    reveal_strlit("+");
    reveal_strlit("-");
    reveal_strlit("<<");
    reveal_strlit(">>");
    reveal_strlit("&");
    reveal_strlit("|");
    reveal_strlit("<");
    reveal_strlit("<=");
    reveal_strlit(">");
    reveal_strlit(">=");
    reveal_strlit("==");
    reveal_strlit("!=");
    reveal_strlit("or");
    reveal_strlit("and");
    assert(","@ =~= seq![',']);
    assert("*"@ =~= seq!['*']);
    assert("/"@ =~= seq!['/']);
    assert("%"@ =~= seq!['%']);
    assert("+"@ =~= seq!['+']);
    assert("-"@ =~= seq!['-']);
    assert("<<"@ =~= seq!['<', '<']);
    assert(">>"@ =~= seq!['>', '>']);
    assert("&"@ =~= seq!['&']);
    assert("|"@ =~= seq!['|']);
    assert("<"@ =~= seq!['<']);
    assert("<="@ =~= seq!['<', '=']);
    assert(">"@ =~= seq!['>']);
    assert(">="@ =~= seq!['>', '=']);
    assert("=="@ =~= seq!['=', '=']);
    assert("!="@ =~= seq!['!', '=']);
    assert("or"@ =~= seq!['o', 'r']);
    assert("and"@ =~= seq!['a', 'n', 'd']);
}

/// A postfix chain over a node that is not binary is not binary.
pub proof fn lemma_postfix_not_binary(e: Expr, base: Expr)
    requires
        postfix_of(e, base),
    ensures
        e == base || !(e is Binary),
{
}

/// Expression entry point.
pub fn parse_expr(p: &mut Parser) -> (e: Expr)
    requires
        old(p).wf(),
    ensures
        final(p).advanced_from(old(p)),
        operand_head(old(p), leftmost(e)),
        no_open_paren(old(p).toks@, old(p).pos as int, final(p).pos as int) ==> prec_ok(e, 0),
    decreases old(p).rem(), 8int,
{
    parse_expr_bp(p, 0)
}

/// Pratt parsing with a minimum binding power. The expression starts with
/// the operand under the cursor.
pub fn parse_expr_bp(p: &mut Parser, min_bp: u8) -> (e: Expr)
    requires
        old(p).wf(),
    ensures
        final(p).advanced_from(old(p)),
        operand_head(old(p), leftmost(e)),
        no_open_paren(old(p).toks@, old(p).pos as int, final(p).pos as int) ==> prec_ok(e, min_bp as int),
    decreases old(p).rem(), 7int,
{
    proof {
        reveal_strlit("or");
        reveal_strlit("and");
        reveal_strlit("(");
        assert("or"@.len() == 2 && "and"@.len() == 3);
    }
    let mut lhs = parse_prefix(p);
    proof {
        lemma_operand_head_leftmost(old(p), lhs);
    }
    loop
        invariant
            p.advanced_from(old(p)),
            operand_head(old(p), leftmost(lhs)),
            old(p).pos <= p.pos,
            no_open_paren(old(p).toks@, old(p).pos as int, p.pos as int) ==> prec_ok(lhs, min_bp as int),
        decreases p.rem(),
    {
        let ghost before = lhs;
        lhs = parse_postfix(p, lhs);
        proof {
            lemma_postfix_leftmost(lhs, before);
            lemma_postfix_not_binary(lhs, before);
        }
        let (op, bp): (&'static str, u8) = if p.at_keyword("or") {
            ("or", 10)
        } else if p.at_keyword("and") {
            ("and", 15)
        } else {
            match p.peek() {
                TokenKind::Punct(s) => match binding_power(s) {
                    Some(bp) => (*s, bp),
                    None => {
                        break ;
                    },
                },
                _ => {
                    break ;
                },
            }
        };
        if bp < min_bp {
            break ;
        }
        let ghost mid = p.pos as int;
        proof {
            lemma_op_bp(op@, bp);
        }
        p.bump();
        let ghost after_op = p.pos as int;
        let rhs = parse_expr_bp(p, bp + 1);
        let ghost left = lhs;
        let span = lhs.span().extend(rhs.span());
        lhs = Expr::Binary { op, lhs: Box::new(lhs), rhs: Box::new(rhs), span };
        proof {
            if no_open_paren(old(p).toks@, old(p).pos as int, p.pos as int) {
                assert(no_open_paren(old(p).toks@, old(p).pos as int, mid));
                assert(no_open_paren(p.toks@, after_op, p.pos as int));
                assert(prec_ok(left, min_bp as int));
                assert(prec_ok(rhs, bp + 1));
            }
        }
    }
    lhs
}

/// Optional `@label` after `skip`.
fn parse_skip_label(p: &mut Parser) -> (r: Option<String>)
    requires
        old(p).wf(),
    ensures
        final(p).advanced_from(old(p)),
        r == (if old(p).at_punct_spec("@"@) {
            match old(p).next_kind() {
                TokenKind::Ident(n) => Some(n),
                _ => None::<String>,
            }
        } else {
            None::<String>
        }),
{
    if p.at_punct("@") {
        p.bump();
        let name = match p.peek() {
            TokenKind::Ident(name) => name.clone(),
            _ => {
                p.unexpected("标签名");
                return None;
            },
        };
        p.bump();
        Some(name)
    } else {
        None
    }
}

/// Prefix forms: unary operators, literals, paths, branches, loops, blocks.
fn parse_prefix(p: &mut Parser) -> (e: Expr)
    requires
        old(p).wf(),
    ensures
        old(p).cur().kind matches TokenKind::Int(v) ==> e == Expr::Int(v, old(p).cur().span),
        old(p).cur().kind matches TokenKind::Float(v) ==> e == Expr::Float(v, old(p).cur().span),
        old(p).cur().kind matches TokenKind::Str(v) ==> e == Expr::Str(v, old(p).cur().span),
        old(p).at_keyword_spec("true"@) ==> e == Expr::Bool(true, old(p).cur().span),
        old(p).at_keyword_spec("false"@) ==> e == Expr::Bool(false, old(p).cur().span),
        old(p).at_keyword_spec("nil"@) ==> e == Expr::Nil(old(p).cur().span),
        old(p).at_keyword_spec("ret"@) ==> e is Ret,
        old(p).at_keyword_spec("stop"@) ==> e is Stop,
        old(p).at_keyword_spec("skip"@) ==> e is Skip,
        old(p).at_punct_spec("?"@) ==> e is Branch || e is Nil,
        old(p).at_punct_spec("@"@) ==> e is Loop,
        old(p).at_punct_spec("{"@) ==> e is Block,
        old(p).at_punct_spec("["@) ==> e is ArrayLit,
        old(p).at_punct_spec("-"@) || old(p).at_keyword_spec("not"@) || old(p).at_punct_spec("~"@) ==> e is Unary,
        old(p).at_punct_spec("*"@) ==> e is Deref,
        old(p).cur().kind matches TokenKind::Ident(n) ==> (e matches Expr::Path(segs, _) && segs@ == seq![n]),
        operand_head(old(p), e),
        !old(p).at_punct_spec("("@) ==> !(e is Binary),
        old(p).at_punct_spec("("@) ==> final(p).pos > old(p).pos,
        final(p).advanced_from(old(p)),
    decreases old(p).rem(), 6int,
{
    proof {
        reveal_strlit("true");
        reveal_strlit("false");
        reveal_strlit("nil");
        reveal_strlit("ret");
        reveal_strlit("stop");
        reveal_strlit("skip");
        assert("true"@[0] == 't' && "true"@.len() == 4);
        assert("false"@[0] == 'f' && "false"@.len() == 5);
        assert("nil"@[0] == 'n' && "nil"@.len() == 3);
        assert("ret"@[0] == 'r' && "ret"@.len() == 3);
        assert("stop"@[1] == 't' && "stop"@.len() == 4);
        assert("skip"@[1] == 'k' && "skip"@.len() == 4);
        reveal_strlit("not");
        assert("not"@[1] == 'o' && "nil"@[1] == 'i' && "not"@.len() == 3);
        reveal_strlit("?");
        reveal_strlit("@");
        reveal_strlit("{");
        reveal_strlit("(");
        reveal_strlit("-");
        reveal_strlit("~");
        reveal_strlit("*");
        reveal_strlit("[");
        assert("?"@[0] == '?' && "@"@[0] == '@' && "{"@[0] == '{' && "("@[0] == '(' && "-"@[0] == '-');
        assert("~"@[0] == '~' && "*"@[0] == '*' && "["@[0] == '[');
    }
    match p.peek() {
        TokenKind::Int(s) => {
            let s = s.clone();
            let span = p.bump();
            return Expr::Int(s, span);
        },
        TokenKind::Float(s) => {
            let s = s.clone();
            let span = p.bump();
            return Expr::Float(s, span);
        },
        TokenKind::Str(s) => {
            let s = s.clone();
            let span = p.bump();
            return Expr::Str(s, span);
        },
        TokenKind::Ident(_) => {
            return parse_path_or_struct_lit(p);
        },
        _ => {},
    }
    if p.at_keyword("true") {
        let span = p.bump();
        Expr::Bool(true, span)
    } else if p.at_keyword("false") {
        let span = p.bump();
        Expr::Bool(false, span)
    } else if p.at_keyword("nil") {
        let span = p.bump();
        Expr::Nil(span)
    } else if p.at_keyword("ret") {
        parse_ret(p)
    } else if p.at_keyword("stop") {
        parse_stop(p)
    } else if p.at_keyword("skip") {
        let start = p.bump();
        let label = parse_skip_label(p);
        Expr::Skip { label, span: start }
    } else if p.at_punct("?") {
        parse_branch(p)
    } else if p.at_punct("@") {
        parse_loop(p)
    } else if p.at_punct("{") {
        parse_block(p)
    } else if p.at_punct("(") {
        p.bump();
        let e = parse_expr(p);
        p.expect_punct(")");
        e
    } else if p.at_punct("-") || p.at_keyword("not") || p.at_punct("~") {
        let op: &'static str = if p.at_punct("-") {
            "-"
        } else if p.at_keyword("not") {
            "not"
        } else {
            "~"
        };
        let start = p.bump();
        let operand = parse_prefix(p);
        let span = start.extend(operand.span());
        Expr::Unary { op, operand: Box::new(operand), span }
    } else if p.at_punct("*") {
        let start = p.bump();
        let operand = parse_prefix(p);
        let span = start.extend(operand.span());
        Expr::Deref(Box::new(operand), span)
    } else if p.at_punct("[") {
        parse_array_lit(p)
    } else if p.at_punct(".") {
        parse_path_or_struct_lit(p)
    } else {
        p.unexpected("表达式");
        Expr::Nil(p.peek_span())
    }
}

/// Arguments of a call, after the opening parenthesis.
fn parse_call_args(p: &mut Parser) -> (args: Vec<Expr>)
    requires
        old(p).wf(),
    ensures
        final(p).advanced_from(old(p)),
        old(p).at_punct_spec(")"@) ==> args@.len() == 0 && final(p).pos == old(p).next_pos(),
        !old(p).at_punct_spec(")"@) && !old(p).at_eof_spec() ==> args@.len() > 0 && operand_head(
            old(p),
            leftmost(args@[0]),
        ),
    decreases old(p).rem(), 8int,
{
    let mut args: Vec<Expr> = Vec::new();
    let ghost mut started = false;
    loop
        invariant_except_break
            !started ==> p.pos == old(p).pos && args@.len() == 0,
            started ==> !old(p).at_punct_spec(")"@) && !old(p).at_eof_spec() && args@.len() > 0,
        invariant
            p.advanced_from(old(p)),
            args@.len() > 0 ==> operand_head(old(p), leftmost(args@[0])),
        ensures
            old(p).at_punct_spec(")"@) ==> args@.len() == 0 && p.pos == old(p).next_pos(),
            !old(p).at_punct_spec(")"@) && !old(p).at_eof_spec() ==> args@.len() > 0,
        decreases 2 * p.rem() + if p.at_punct_spec(")"@) {
            0int
        } else {
            1int
        },
    {
        let ghost was_started = started;
        proof {
            started = true;
        }
        if p.eat_punct(")") {
            break ;
        }
        if p.at_eof() {
            p.unexpected(")");
            break ;
        }
        // A higher binding power keeps the comma from being read as an operator.
        let ghost q = *p;
        let a = parse_expr_bp(p, 10);
        proof {
            if args@.len() == 0 {
                assert(!was_started);
                assert(q.cur() == old(p).cur());
                assert(operand_head(old(p), leftmost(a)));
            }
        }
        args.push(a);
        if !p.eat_punct(",") && !p.at_punct(")") {
            p.unexpected(", 或 )");
            break ;
        }
    }
    args
}

/// `e` is `base` under zero or more postfix operators: dereference,
/// propagation, call, index or field access, each applied to the one
/// before.
pub open spec fn postfix_of(e: Expr, base: Expr) -> bool
    decreases e,
{
    e == base || match e {
        Expr::Deref(x, _) => postfix_of(*x, base),
        Expr::Propagate(x, _) => postfix_of(*x, base),
        Expr::Call { callee, .. } => postfix_of(*callee, base),
        Expr::Index { base: b, .. } => postfix_of(*b, base),
        Expr::Field { base: b, .. } => postfix_of(*b, base),
        _ => false,
    }
}

/// Whether the token under the cursor may start a postfix operator.
pub open spec fn at_postfix(p: &Parser) -> bool {
    p.at_punct_spec("^"@) || p.at_punct_spec("!"@) || p.at_punct_spec("("@) || p.at_punct_spec("["@)
        || p.at_punct_spec("."@)
}

/// Whether the cursor is at `^`, `!`, `(` or `[`, which always apply a
/// postfix operator.
pub open spec fn at_operator_postfix(p: &Parser) -> bool {
    p.at_punct_spec("^"@) || p.at_punct_spec("!"@) || p.at_punct_spec("("@) || p.at_punct_spec("["@)
}

/// `f` is the operator that the token under the cursor applies to `base`:
/// a dereference for `^`, a propagation for `!`, a call for `(`, an index
/// for `[`.
pub open spec fn first_postfix(p: &Parser, f: Expr, base: Expr) -> bool {
    &&& p.at_punct_spec("^"@) ==> (f matches Expr::Deref(b, _) && *b == base)
    &&& p.at_punct_spec("!"@) ==> (f matches Expr::Propagate(b, _) && *b == base)
    &&& p.at_punct_spec("("@) ==> (f matches Expr::Call { callee, .. } && *callee == base)
    &&& p.at_punct_spec("["@) ==> (f matches Expr::Index { base: b, .. } && *b == base)
}

/// Postfix operators: `^`, `!`, calls, indexing, field access.
fn parse_postfix(p: &mut Parser, base: Expr) -> (e: Expr)
    requires
        old(p).wf(),
    ensures
        final(p).advanced_from(old(p)),
        postfix_of(e, base),
        !at_postfix(old(p)) ==> e == base && final(p).pos == old(p).pos,
        at_operator_postfix(old(p)) ==> exists|f: Expr| postfix_of(e, f) && first_postfix(old(p), f, base),
    decreases old(p).rem(), 6int,
{
    proof {
        reveal_strlit("^");
        reveal_strlit("!");
        reveal_strlit("(");
        reveal_strlit("[");
        reveal_strlit(".");
        assert("^"@[0] == '^' && "!"@[0] == '!' && "("@[0] == '(' && "["@[0] == '[' && "."@[0] == '.');
    }
    let ghost base0 = base;
    let ghost mut first = base;
    let ghost mut wrapped = false;
    let mut base = base;
    loop
        invariant
            p.advanced_from(old(p)),
            postfix_of(base, base0),
            p.pos == old(p).pos ==> base == base0 && !wrapped,
            !at_postfix(old(p)) ==> p.pos == old(p).pos,
            wrapped ==> postfix_of(base, first) && first_postfix(old(p), first, base0),
            at_operator_postfix(old(p)) && p.pos != old(p).pos ==> wrapped,
        ensures
            at_operator_postfix(old(p)) ==> wrapped,
        decreases p.rem(),
    {
        let ghost at_start = p.pos == old(p).pos;
        proof {
            reveal_strlit("^");
            reveal_strlit("!");
            reveal_strlit("(");
            reveal_strlit("[");
            assert("^"@[0] == '^' && "!"@[0] == '!' && "("@[0] == '(' && "["@[0] == '[');
        }
        if p.at_punct("^") {
            p.bump();
            let span = base.span().extend(p.peek_span());
            base = Expr::Deref(Box::new(base), span);
            proof {
                if at_start {
                    first = base;
                    wrapped = true;
                } else if wrapped {
                    assert(postfix_of(base, first));
                }
            }
        } else if p.at_punct("!") {
            p.bump();
            let span = base.span().extend(p.peek_span());
            base = Expr::Propagate(Box::new(base), span);
            proof {
                if at_start {
                    first = base;
                    wrapped = true;
                } else if wrapped {
                    assert(postfix_of(base, first));
                }
            }
        } else if p.at_punct("(") {
            p.bump();
            let args = parse_call_args(p);
            let span = base.span().extend(p.peek_span());
            base = Expr::Call { callee: Box::new(base), args, span };
            proof {
                if at_start {
                    first = base;
                    wrapped = true;
                } else if wrapped {
                    assert(postfix_of(base, first));
                }
            }
        } else if p.at_punct("[") {
            p.bump();
            let index = parse_expr(p);
            p.expect_punct("]");
            let span = base.span().extend(p.peek_span());
            base = Expr::Index { base: Box::new(base), index: Box::new(index), span };
            proof {
                if at_start {
                    first = base;
                    wrapped = true;
                } else if wrapped {
                    assert(postfix_of(base, first));
                }
            }
        } else if p.at_punct(".") {
            // `.Name` with a capital letter starts a variant pattern, not a
            // field access: stop here.
            let uppercase = match p.peek_ahead(1) {
                TokenKind::Ident(name) => name.as_str().unicode_len() > 0
                    && char_is_uppercase(name.as_str().get_char(0)),
                _ => false,
            };
            if uppercase {
                break ;
            }
            p.bump();
            match p.eat_ident() {
                Some((name, name_span)) => {
                    let span = base.span().extend(name_span);
                    base = Expr::Field { base: Box::new(base), name, span };
                    proof {
                        if wrapped {
                            assert(postfix_of(base, first));
                        }
                    }
                },
                None => {
                    p.unexpected("字段名");
                    break ;
                },
            }
        } else {
            // `{` and everything else end the postfix chain.
            break ;
        }
    }
    proof {
        if at_operator_postfix(old(p)) {
            assert(postfix_of(base, first) && first_postfix(old(p), first, base0));
        }
    }
    base
}

/// A path or a variant construction: `ident` or `.Variant(expr)`.
fn parse_path_or_struct_lit(p: &mut Parser) -> (e: Expr)
    requires
        old(p).wf(),
    ensures
        final(p).advanced_from(old(p)),
        old(p).cur().kind matches TokenKind::Ident(n) ==> (e matches Expr::Path(segs, _) && segs@ == seq![n]),
        old(p).at_punct_spec("."@) ==> match old(p).next_kind() {
            TokenKind::Ident(n) => e matches Expr::VariantConstructor { name, .. } && name == n,
            _ => e == Expr::Nil(old(p).cur().span),
        },
        !old(p).at_punct_spec("."@) && !(old(p).cur().kind is Ident) ==> e == Expr::Nil(old(p).cur().span),
    decreases old(p).rem(), 5int,
{
    proof {
        reveal_strlit(".");
    }
    let start = p.peek_span();
    if p.eat_punct(".") {
        match p.eat_ident() {
            Some((name, _)) => {
                let payload = if p.eat_punct("(") {
                    let expr = parse_expr(p);
                    p.expect_punct(")");
                    Some(Box::new(expr))
                } else {
                    None
                };
                let span = start.extend(p.peek_span());
                Expr::VariantConstructor { name, payload, span }
            },
            None => {
                p.unexpected("标识符");
                Expr::Nil(start)
            },
        }
    } else {
        match p.eat_ident() {
            Some((name, _)) => {
                let span = start.extend(p.peek_span());
                Expr::Path(vec![name], span)
            },
            None => {
                p.unexpected("标识符");
                Expr::Nil(start)
            },
        }
    }
}

/// Array literal `[a, b, ...]`.
fn parse_array_lit(p: &mut Parser) -> (e: Expr)
    requires
        old(p).wf(),
        old(p).at_punct_spec("["@),
    ensures
        e is ArrayLit,
        final(p).advanced_from(old(p)),
        final(p).rem() < old(p).rem(),
    decreases old(p).rem(), 5int,
{
    let start = p.bump();
    let mut elements: Vec<Expr> = Vec::new();
    loop
        invariant
            p.advanced_from(old(p)),
            p.rem() < old(p).rem(),
        decreases 2 * p.rem() + if p.at_punct_spec("]"@) {
            0int
        } else {
            1int
        },
    {
        if p.eat_punct("]") {
            break ;
        }
        if p.at_eof() {
            p.unexpected("]");
            break ;
        }
        elements.push(parse_expr_bp(p, 10));
        if !p.eat_punct(",") && !p.at_punct("]") {
            p.unexpected(", 或 ]");
            break ;
        }
    }
    let span = start.extend(p.peek_span());
    Expr::ArrayLit { elements, span }
}

/// A block `{ ... }`; its last expression is its value.
pub fn parse_block(p: &mut Parser) -> (e: Expr)
    requires
        old(p).wf(),
    ensures
        e is Block,
        final(p).advanced_from(old(p)),
        old(p).at_punct_spec("{"@) ==> final(p).rem() < old(p).rem(),
    decreases old(p).rem(), if old(p).at_punct_spec("{"@) {
        5int
    } else {
        10int
    },
{
    let start = p.peek_span();
    p.expect_punct("{");
    let mut stmts: Vec<Stmt> = Vec::new();
    loop
        invariant
            p.advanced_from(old(p)),
            old(p).at_punct_spec("{"@) ==> p.rem() < old(p).rem(),
        decreases p.rem(),
    {
        if p.eat_punct("}") {
            break ;
        }
        if p.at_eof() {
            p.unexpected("}");
            break ;
        }
        let ghost iter_rem = p.rem();
        let iter_pos = p.pos();
        // A run of guards `? cond => body` becomes one branch expression.
        if p.at_punct("?") {
            let mut arms: Vec<Arm> = Vec::new();
            let guard_start = p.peek_span();
            while p.at_punct("?")
                invariant
                    p.advanced_from(old(p)),
                    old(p).at_punct_spec("{"@) ==> p.rem() < old(p).rem(),
                    p.rem() <= iter_rem,
                    arms@.len() > 0 ==> p.rem() < iter_rem,
                decreases p.rem(),
            {
                // `? {` is a condition chain, parsed as an ordinary statement.
                if kind_is_punct(p.peek_ahead(1), "{") {
                    break ;
                }
                p.bump();
                let cond = parse_expr_bp(p, 10);
                // `? expr is { ... }` is a match.
                if p.eat_keyword("is") {
                    p.expect_punct("{");
                    let match_arms = parse_arms(p);
                    p.expect_punct("}");
                    let span = guard_start.extend(p.peek_span());
                    let branch_expr = Expr::Branch {
                        scrutinee: Some(Box::new(cond)),
                        arms: match_arms,
                        span,
                    };
                    stmts.push(Stmt::Expr(branch_expr));
                    continue ;
                }
                if !p.eat_punct("=>") {
                    p.unexpected("=>");
                    break ;
                }
                let body = parse_expr(p);
                let arm_span = guard_start.extend(body.span());
                arms.push(Arm { pattern: Pattern::Cond(Box::new(cond)), body, span: arm_span });
            }
            if arms.len() > 0 {
                let branch_span = guard_start.extend(arms[arms.len() - 1].span);
                let branch_expr = Expr::Branch { scrutinee: None, arms, span: branch_span };
                stmts.push(Stmt::Expr(branch_expr));
                continue ;
            }
        }
        let pos_before = p.pos();
        stmts.push(parse_stmt(p));
        // If the statement parser made no progress, skip a token so the
        // loop cannot spin.
        if p.pos() == pos_before {
            p.bump();
        }
    }
    let span = start.extend(p.peek_span());
    Expr::Block { stmts, span }
}

/// Branch `?`: guard, condition chain, or match.
pub fn parse_branch(p: &mut Parser) -> (e: Expr)
    requires
        old(p).wf(),
        !old(p).at_eof_spec(),
    ensures
        e is Branch || e is Nil,
        final(p).advanced_from(old(p)),
        final(p).rem() < old(p).rem(),
    decreases old(p).rem(), 5int,
{
    let start = p.bump();
    // Guard `? cond => body`, or match `? expr is { ... }`.
    if !p.at_punct("{") {
        // A low binding power keeps `=>` from being consumed.
        let cond = parse_expr_bp(p, 10);
        if p.eat_punct("=>") {
            let body = parse_expr(p);
            let span = start.extend(body.span());
            return Expr::Branch {
                scrutinee: None,
                arms: vec![Arm { pattern: Pattern::Cond(Box::new(cond)), body, span }],
                span,
            };
        } else if p.eat_keyword("is") {
            p.expect_punct("{");
            let arms = parse_arms(p);
            p.expect_punct("}");
            let span = start.extend(p.peek_span());
            return Expr::Branch { scrutinee: Some(Box::new(cond)), arms, span };
        } else {
            p.unexpected("=> 或 is");
            return Expr::Nil(start);
        }
    }
    // Condition chain `? { cond => body, ... }`.
    p.bump();
    let arms = parse_arms(p);
    p.expect_punct("}");
    let span = start.extend(p.peek_span());
    Expr::Branch { scrutinee: None, arms, span }
}

/// Loop `@`: endless, conditional, or over a subject; optionally labelled.
pub fn parse_loop(p: &mut Parser) -> (e: Expr)
    requires
        old(p).wf(),
        !old(p).at_eof_spec(),
    ensures
        e is Loop,
        final(p).advanced_from(old(p)),
        final(p).rem() < old(p).rem(),
    decreases old(p).rem(), 5int,
{
    let start = p.bump();
    // A label `@label @ { ... }`.
    let label = match p.peek() {
        TokenKind::Ident(name) => {
            let lbl = name.clone();
            p.bump();
            if !p.eat_punct("@") {
                p.unexpected("@");
            }
            Some(lbl)
        },
        _ => None,
    };
    // `@ { body }` loops forever.
    if p.at_punct("{") {
        let body = parse_block(p);
        let span = start.extend(body.span());
        return Expr::Loop { label, subject: None, body: Box::new(body), span };
    }
    // `@ cond { body }` or `@ x in range { body }`.
    let subject = parse_expr_bp(p, 10);
    let body = parse_block(p);
    let span = start.extend(body.span());
    Expr::Loop { label, subject: Some(Box::new(subject)), body: Box::new(body), span }
}

/// What the tokens at the cursor make of the pattern that starts there: a
/// `.Name` is a variant pattern of that name, a literal (or `true`,
/// `false`, `nil` written as a name) a literal pattern, a name followed by
/// a binary operator a condition, any other name a binding, and anything
/// else a condition.
pub open spec fn pattern_head(p: &Parser, pat: Pattern) -> bool {
    &&& p.at_punct_spec("."@) ==> match p.next_kind() {
        TokenKind::Ident(n) => pat matches Pattern::Variant { name, .. } && name == n,
        _ => pat is Wildcard,
    }
    &&& p.cur().kind matches TokenKind::Int(v) ==> pat == Pattern::Lit(Box::new(Expr::Int(v, p.cur().span)))
    &&& p.cur().kind matches TokenKind::Float(v) ==> pat == Pattern::Lit(Box::new(Expr::Float(v, p.cur().span)))
    &&& p.cur().kind matches TokenKind::Str(v) ==> pat == Pattern::Lit(Box::new(Expr::Str(v, p.cur().span)))
    &&& p.at_keyword_spec("true"@) ==> pat == Pattern::Lit(Box::new(Expr::Bool(true, p.cur().span)))
    &&& p.at_keyword_spec("false"@) ==> pat == Pattern::Lit(Box::new(Expr::Bool(false, p.cur().span)))
    &&& p.at_keyword_spec("nil"@) ==> pat == Pattern::Lit(Box::new(Expr::Nil(p.cur().span)))
    &&& p.cur().kind matches TokenKind::Ident(n) ==> if n@ == "true"@ {
        pat == Pattern::Lit(Box::new(Expr::Bool(true, p.cur().span)))
    } else if n@ == "false"@ {
        pat == Pattern::Lit(Box::new(Expr::Bool(false, p.cur().span)))
    } else if n@ == "nil"@ {
        pat == Pattern::Lit(Box::new(Expr::Nil(p.cur().span)))
    } else if p.next_kind() matches TokenKind::Punct(op) && binding_power_spec(op@) is Some {
        pat is Cond
    } else {
        pat == Pattern::Bind(n, p.cur().span)
    }
    &&& !p.at_punct_spec("."@) && !(p.cur().kind is Int) && !(p.cur().kind is Float) && !(p.cur().kind is Str)
        && !(p.cur().kind is Ident) && !p.at_keyword_spec("true"@) && !p.at_keyword_spec("false"@)
        && !p.at_keyword_spec("nil"@) ==> pat is Cond
}

/// The arms `pattern => body`, up to the closing brace.
fn parse_arms(p: &mut Parser) -> (arms: Vec<Arm>)
    requires
        old(p).wf(),
    ensures
        final(p).advanced_from(old(p)),
        old(p).at_punct_spec("}"@) || old(p).at_eof_spec() ==> arms@.len() == 0 && final(p).pos == old(p).pos,
        !old(p).at_punct_spec("}"@) && !old(p).at_eof_spec() ==> arms@.len() > 0 && pattern_head(
            old(p),
            arms@[0].pattern,
        ),
    decreases old(p).rem(), 12int,
{
    let mut arms: Vec<Arm> = Vec::new();
    while !p.at_punct("}") && !p.at_eof()
        invariant
            p.advanced_from(old(p)),
            arms@.len() == 0 ==> p.pos == old(p).pos,
            arms@.len() > 0 ==> pattern_head(old(p), arms@[0].pattern),
            old(p).at_punct_spec("}"@) || old(p).at_eof_spec() ==> arms@.len() == 0,
        ensures
            old(p).at_punct_spec("}"@) || old(p).at_eof_spec() ==> arms@.len() == 0 && p.pos == old(p).pos,
            !old(p).at_punct_spec("}"@) && !old(p).at_eof_spec() ==> arms@.len() > 0,
        decreases p.rem(),
    {
        let ghost q = *p;
        let ghost was_empty = arms@.len() == 0;
        let arm_start = p.pos();
        let a = parse_arm(p);
        proof {
            if was_empty {
                assert(q.cur() == old(p).cur());
                assert(q.next_pos() == old(p).next_pos());
            }
        }
        arms.push(a);
        // No progress means the arm failed: stop rather than spin.
        if p.pos() == arm_start {
            break ;
        }
        // Arms may be separated by commas or newlines.
        p.eat_punct(",");
    }
    arms
}

/// One arm `pattern => expression`.
pub fn parse_arm(p: &mut Parser) -> (a: Arm)
    requires
        old(p).wf(),
    ensures
        final(p).advanced_from(old(p)),
        pattern_head(old(p), a.pattern),
    decreases old(p).rem(), 11int,
{
    let start = p.peek_span();
    let pattern = parse_pattern(p);
    if !p.expect_punct("=>") {
        return Arm { pattern, body: Expr::Nil(p.peek_span()), span: start };
    }
    // A block body is parsed whole; otherwise one statement-like
    // expression, which stops at a newline, `,` or `}`.
    let body = if p.at_punct("{") {
        parse_expr_bp(p, 10)
    } else {
        parse_stmt_expr(p)
    };
    let span = start.extend(body.span());
    Arm { pattern, body, span }
}

/// One statement-like expression for an arm body; control-flow keywords
/// are parsed so that their operands cannot swallow the next pattern.
fn parse_stmt_expr(p: &mut Parser) -> (e: Expr)
    requires
        old(p).wf(),
    ensures
        final(p).advanced_from(old(p)),
        old(p).at_keyword_spec("ret"@) ==> e is Ret,
        old(p).at_keyword_spec("stop"@) ==> e is Stop,
        !old(p).at_keyword_spec("ret"@) && !old(p).at_keyword_spec("stop"@) ==> operand_head(old(p), leftmost(e)),
    decreases old(p).rem(), 8int,
{
    proof {
        reveal_strlit("ret");
        reveal_strlit("stop");
        assert("ret"@[0] == 'r' && "stop"@[0] == 's');
    }
    if p.at_keyword("ret") {
        parse_ret(p)
    } else if p.at_keyword("stop") {
        parse_stop(p)
    } else if p.at_keyword("skip") || p.at_keyword("jmp") || p.at_keyword("break") {
        let e = parse_prefix(p);
        proof {
            lemma_operand_head_leftmost(old(p), e);
        }
        e
    } else {
        parse_expr_bp(p, 10)
    }
}

/// Patterns: variants, bindings, literals, wildcards, and conditions.
pub fn parse_pattern(p: &mut Parser) -> (pat: Pattern)
    requires
        old(p).wf(),
    ensures
        final(p).advanced_from(old(p)),
        pattern_head(old(p), pat),
    decreases old(p).rem(), 10int,
{
    proof {
        reveal_strlit(".");
        reveal_strlit("true");
        reveal_strlit("false");
        reveal_strlit("nil");
        assert("true"@[0] == 't' && "false"@[0] == 'f' && "nil"@[0] == 'n');
        if !(old(p).cur().kind is Eof) {
            Parser::lemma_first_non_comment_inside(old(p).toks@, old(p).pos + 1);
        }
    }
    let start = p.peek_span();
    if p.at_punct(".") {
        p.bump();
        return match p.eat_ident() {
            Some((name, _)) => {
                let mut bindings: Vec<String> = Vec::new();
                if p.eat_punct("(") {
                    loop
                        invariant
                            p.advanced_from(old(p)),
                        decreases p.rem(),
                    {
                        if p.eat_punct(")") {
                            break ;
                        }
                        if p.at_eof() {
                            p.unexpected(")");
                            break ;
                        }
                        match p.eat_ident() {
                            Some((binding, _)) => bindings.push(binding),
                            None => {
                                p.unexpected("标识符");
                                break ;
                            },
                        }
                        if !p.eat_punct(",") && !p.at_punct(")") {
                            p.unexpected(", 或 )");
                            break ;
                        }
                    }
                }
                let span = start.extend(p.peek_span());
                Pattern::Variant { name, bindings, span }
            },
            None => {
                p.unexpected("变体名");
                Pattern::Wildcard(start)
            },
        };
    }
    let literal = match p.peek() {
        TokenKind::Int(_) | TokenKind::Float(_) | TokenKind::Str(_) => true,
        _ => p.at_keyword("true") || p.at_keyword("false") || p.at_keyword("nil"),
    };
    if literal {
        let lit = parse_prefix(p);
        return Pattern::Lit(Box::new(lit));
    }
    let name = match p.peek() {
        TokenKind::Ident(name) => name.clone(),
        _ => {
            // Anything else is a condition expression.
            let expr = parse_expr(p);
            return Pattern::Cond(Box::new(expr));
        },
    };
    // `true`/`false`/`nil` written as identifiers are literals.
    if str_eq(name.as_str(), "true") {
        let span = p.bump();
        return Pattern::Lit(Box::new(Expr::Bool(true, span)));
    }
    if str_eq(name.as_str(), "false") {
        let span = p.bump();
        return Pattern::Lit(Box::new(Expr::Bool(false, span)));
    }
    if str_eq(name.as_str(), "nil") {
        let span = p.bump();
        return Pattern::Lit(Box::new(Expr::Nil(span)));
    }
    // A binary operator next means a condition; otherwise a binding.
    proof {
        let t = p.toks@;
        let n1 = Parser::first_non_comment(t, p.pos + 1);
        assert(Parser::ahead_index(t, p.pos as int, 0, 1) == Parser::ahead_index(t, n1, 1, 1));
        assert(Parser::ahead_index(t, n1, 1, 1) == n1);
    }
    let is_binop = match p.peek_ahead(1) {
        TokenKind::Punct(op) => binding_power(op).is_some(),
        _ => false,
    };
    if is_binop {
        let expr = parse_expr(p);
        Pattern::Cond(Box::new(expr))
    } else {
        match p.eat_ident() {
            Some((name, span)) => Pattern::Bind(name, span),
            None => Pattern::Wildcard(start),
        }
    }
}

/// `ret` or `ret expr`.
fn parse_ret(p: &mut Parser) -> (e: Expr)
    requires
        old(p).wf(),
        !old(p).at_eof_spec(),
    ensures
        e is Ret,
        final(p).advanced_from(old(p)),
        final(p).rem() < old(p).rem(),
    decreases old(p).rem(), 5int,
{
    let start = p.bump();
    // Before a separator or the end of a block, `ret` has no value.
    if p.at_punct("}") || p.at_punct(";") || p.at_eof() {
        return Expr::Ret(None, start);
    }
    // Binding power 10 keeps commas and following arms out.
    let val = parse_expr_bp(p, 10);
    let span = start.extend(val.span());
    Expr::Ret(Some(Box::new(val)), span)
}

/// `stop` or `stop @label`.
fn parse_stop(p: &mut Parser) -> (e: Expr)
    requires
        old(p).wf(),
        !old(p).at_eof_spec(),
    ensures
        e is Stop,
        final(p).advanced_from(old(p)),
        final(p).rem() < old(p).rem(),
{
    let start = p.bump();
    let label = if p.eat_punct("@") {
        match p.peek() {
            TokenKind::Ident(name) => {
                let lbl = name.clone();
                p.bump();
                Some(lbl)
            },
            _ => {
                p.unexpected("标签名");
                None
            },
        }
    } else {
        None
    };
    Expr::Stop { label, span: start }
}

} // verus!
