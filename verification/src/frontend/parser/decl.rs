//! Parsing of top-level items and type expressions.
//!
//! Every top-level item reads `name :: ...`; the shape of the right-hand
//! side decides whether it is a function, a struct or a union.

use super::expr::{parse_block, parse_expr};
use super::parser_impl::Parser;
use crate::frontend::ast::{Field, Func, Item, Param, StructDef, TypeExpr, UnionDef, UsePath, Variant};
use crate::diag::Span;
use crate::frontend::lexer::{Token, TokenKind};
use crate::text::str_eq;
use vstd::prelude::*;

verus! {

/// The value of a decimal literal as `str::parse::<u64>` reads it: an
/// optional `+`, then at least one ASCII digit, within range.
pub open spec fn digits_value(d: Seq<char>) -> nat
    decreases d.len(),
{
    if d.len() == 0 {
        0
    } else {
        digits_value(d.drop_last()) * 10 + (d.last() as nat - 48) as nat
    }
}

pub open spec fn all_digits(d: Seq<char>) -> bool {
    forall|i: int| 0 <= i < d.len() ==> '0' <= #[trigger] d[i] <= '9'
}

pub open spec fn parse_u64_spec(s: Seq<char>) -> Option<u64> {
    let d = if s.len() > 0 && s[0] == '+' {
        s.skip(1)
    } else {
        s
    };
    if d.len() == 0 || !all_digits(d) || digits_value(d) > u64::MAX {
        None
    } else {
        Some(digits_value(d) as u64)
    }
}

pub proof fn lemma_digits_prefix_bound(d: Seq<char>, m: int)
    requires
        all_digits(d),
        0 <= m <= d.len(),
    ensures
        digits_value(d.subrange(0, m)) <= digits_value(d),
    decreases d.len(),
{
    if m < d.len() {
        let e = d.drop_last();
        assert(all_digits(e)) by {
            assert forall|i: int| 0 <= i < e.len() implies '0' <= #[trigger] e[i] <= '9' by {
                assert(e[i] == d[i]);
            }
        }
        lemma_digits_prefix_bound(e, m);
        assert(e.subrange(0, m) =~= d.subrange(0, m));
    } else {
        assert(d.subrange(0, m) =~= d);
    }
}

/// Reads a decimal `u64` the way `str::parse::<u64>` does.
pub fn parse_u64(s: &str) -> (r: Option<u64>)
    ensures
        r == parse_u64_spec(s@),
{
    let n = s.unicode_len();
    let skip: usize = if n > 0 && s.get_char(0) == '+' {
        1
    } else {
        0
    };
    let ghost d = s@.skip(skip as int);
    proof {
        if !(s@.len() > 0 && s@[0] == '+') {
            assert(d =~= s@);
        }
    }
    if skip == n {
        return None;
    }
    let mut v: u64 = 0;
    let mut i: usize = skip;
    while i < n
        invariant
            n == s@.len(),
            skip <= i <= n,
            d == s@.skip(skip as int),
            d == (if s@.len() > 0 && s@[0] == '+' {
                s@.skip(1)
            } else {
                s@
            }),
            all_digits(d.subrange(0, i - skip)),
            v as nat == digits_value(d.subrange(0, i - skip)),
        decreases n - i,
    {
        let c = s.get_char(i);
        let ghost k = i - skip;
        proof {
            assert(d[k] == c);
            assert(d.subrange(0, k + 1).drop_last() =~= d.subrange(0, k));
        }
        if !('0' <= c && c <= '9') {
            proof {
                assert(!all_digits(d));
            }
            return None;
        }
        let digit: u64 = (c as u32 - 48) as u64;
        proof {
            assert forall|j: int| 0 <= j < k + 1 implies '0' <= #[trigger] d.subrange(0, k + 1)[j] <= '9' by {
                if j < k {
                    assert(d.subrange(0, k + 1)[j] == d.subrange(0, k)[j]);
                }
            }
        }
        if v > 1844674407370955161 || (v == 1844674407370955161 && digit > 5) {
            proof {
                assert(digits_value(d.subrange(0, k + 1)) > u64::MAX);
                if all_digits(d) {
                    lemma_digits_prefix_bound(d, k + 1);
                }
            }
            return None;
        }
        v = v * 10 + digit;
        i = i + 1;
    }
    proof {
        assert(d.subrange(0, (n - skip) as int) =~= d);
    }
    Some(v)
}


/// The three right-hand shapes of a top-level item.
#[derive(Debug, Clone, Copy, PartialEq, Eq, Structural)]
pub enum ItemShape {
    /// `(params..) ret => body`
    Func,
    /// `{fields..}`
    Struct,
    /// `.Variant | .Variant`
    Union,
}

pub open spec fn item_shape_spec(first: Seq<char>) -> Option<ItemShape> {
    if first == "("@ {
        Some(ItemShape::Func)
    } else if first == "{"@ {
        Some(ItemShape::Struct)
    } else if first == "."@ {
        Some(ItemShape::Union)
    } else {
        None
    }
}

/// The shape of an item from the first token after `::`.
pub fn item_shape(first: &str) -> (r: Option<ItemShape>)
    ensures
        r == item_shape_spec(first@),
{
    if str_eq(first, "(") {
        Some(ItemShape::Func)
    } else if str_eq(first, "{") {
        Some(ItemShape::Struct)
    } else if str_eq(first, ".") {
        Some(ItemShape::Union)
    } else {
        None
    }
}

/// Whether the token at `i` is the keyword `pub`.
pub open spec fn pub_at(toks: Seq<Token>, i: int) -> bool {
    toks[i].kind matches TokenKind::Keyword(k) && k@ == "pub"@
}

/// Where the name of an item that starts at `i` stands: there, or past a
/// leading `pub`.
pub open spec fn name_index_at(toks: Seq<Token>, i: int) -> int {
    if pub_at(toks, i) {
        Parser::first_non_comment(toks, i + 1)
    } else {
        i
    }
}

/// Where an item's name stands: at the cursor, or past a leading `pub`.
pub open spec fn item_name_index(p: &Parser) -> int {
    name_index_at(p.toks@, p.pos as int)
}

/// Name, shape and visibility of a declared item; `None` for an import.
pub open spec fn item_head(it: Item) -> Option<(String, ItemShape, bool)> {
    match it {
        Item::Func(f) => Some((f.name, ItemShape::Func, f.is_public)),
        Item::Struct(s) => Some((s.name, ItemShape::Struct, s.is_public)),
        Item::Union(u) => Some((u.name, ItemShape::Union, u.is_public)),
        Item::Use(_) => None,
    }
}

pub open spec fn opt_item_head(r: Option<Item>) -> Option<(String, ItemShape, bool)> {
    match r {
        Some(it) => item_head(it),
        None => None,
    }
}

/// The item that the tokens `name :: x` at `i` announce: its name, the
/// shape that `x` selects, and whether `pub` came first. `None` where
/// `::` or a shape token is missing.
pub open spec fn head_at(toks: Seq<Token>, i: int) -> Option<(String, ItemShape, bool)> {
    let i0 = name_index_at(toks, i);
    let i1 = Parser::first_non_comment(toks, i0 + 1);
    let i2 = Parser::first_non_comment(toks, i1 + 1);
    let k0 = toks[i0].kind;
    let k1 = toks[i1].kind;
    let k2 = toks[i2].kind;
    if k0 is Ident && k1 is Punct && k1->Punct_0@ == "::"@ && k2 is Punct && item_shape_spec(
        k2->Punct_0@,
    ) is Some {
        Some((k0->Ident_0, item_shape_spec(k2->Punct_0@)->Some_0, pub_at(toks, i)))
    } else {
        None
    }
}

/// The item that the tokens at the cursor announce.
pub open spec fn announced_head(p: &Parser) -> Option<(String, ItemShape, bool)> {
    head_at(p.toks@, p.pos as int)
}

/// Top-level item entry point: `name :: right-hand side`, optionally
/// preceded by `pub`, or `use path`.
pub fn parse_item(p: &mut Parser) -> (r: Option<Item>)
    requires
        old(p).wf(),
    ensures
        final(p).advanced_from(old(p)),
        r is Some ==> final(p).rem() < old(p).rem(),
        old(p).toks@[item_name_index(old(p))].kind matches TokenKind::Keyword(k) && k@ == "use"@
            ==> (r matches Some(Item::Use(u)) && u.segments@ == use_segments(
            old(p).toks@,
            Parser::first_non_comment(old(p).toks@, item_name_index(old(p)) + 1),
        )),
        old(p).toks@[item_name_index(old(p))].kind is Ident ==> opt_item_head(r)
            == announced_head(old(p)),
        !old(p).at_keyword_spec("pub"@) && !old(p).at_keyword_spec("use"@) && !(old(
            p,
        ).cur().kind is Ident) ==> r is None && final(p).pos == old(p).pos,
{
    proof {
        reveal_strlit("pub");
        reveal_strlit("use");
        assert("pub"@[0] != "use"@[0]);
    }
    let is_public = p.eat_keyword("pub");
    if p.eat_keyword("use") {
        return Some(Item::Use(parse_use(p)));
    }
    let (name, _) = match p.eat_ident() {
        Some(r) => r,
        None => {
            return None;
        },
    };
    if !p.eat_punct("::") {
        p.unexpected("::");
        p.recover_to_item();
        return None;
    }
    let shape = match p.peek() {
        TokenKind::Punct(s) => item_shape(s),
        _ => None,
    };
    match shape {
        Some(ItemShape::Func) => Some(Item::Func(parse_func(p, name, is_public))),
        Some(ItemShape::Struct) => Some(Item::Struct(parse_struct(p, name, is_public))),
        Some(ItemShape::Union) => Some(Item::Union(parse_union(p, name, is_public))),
        None => {
            p.unexpected("( 或 { 或 .");
            p.recover_to_item();
            None
        },
    }
}

/// A function `f :: (params..) ret => body`.
fn parse_func(p: &mut Parser, name: String, is_public: bool) -> (f: Func)
    requires
        old(p).wf(),
    ensures
        final(p).advanced_from(old(p)),
        f.name == name,
        f.is_public == is_public,
{
    let start = p.peek_span();
    p.expect_punct("(");
    let mut params: Vec<Param> = Vec::new();
    loop
        invariant
            p.advanced_from(old(p)),
        decreases p.rem(),
    {
        if p.eat_punct(")") {
            break ;
        }
        if p.at_eof() {
            break ;
        }
        // `~name type`
        let is_mut = p.eat_punct("~");
        match p.eat_ident() {
            Some((pname, pspan)) => {
                let ty = parse_type(p);
                params.push(Param { name: pname, ty, is_mut, span: pspan });
                if !p.eat_punct(",") && !p.at_punct(")") {
                    break ;
                }
            },
            None => {
                p.unexpected("参数名");
                break ;
            },
        }
    }
    // Optional return type.
    let ret = if p.at_punct("=>") {
        None
    } else {
        Some(parse_type(p))
    };
    // Optional error type: `T ! E`.
    let err = if p.eat_punct("!") {
        Some(parse_type(p))
    } else {
        None
    };
    if !p.expect_punct("=>") {
        p.recover_to_item();
        let span = start.extend(p.peek_span());
        return Func { name, params, ret, err, body: parse_expr(p), span, is_public };
    }
    let body = if p.at_punct("{") {
        parse_block(p)
    } else {
        parse_expr(p)
    };
    let span = start.extend(body.span());
    Func { name, params, ret, err, body, span, is_public }
}

/// A struct `Vec3 :: {x, y, z f32}`: names separated by commas share the
/// type that follows the last of them.
fn parse_struct(p: &mut Parser, name: String, is_public: bool) -> (s: StructDef)
    requires
        old(p).wf(),
    ensures
        final(p).advanced_from(old(p)),
        s.name == name,
        s.is_public == is_public,
{
    let start = p.peek_span();
    p.expect_punct("{");
    let mut fields: Vec<Field> = Vec::new();
    loop
        invariant
            p.advanced_from(old(p)),
        decreases p.rem(),
    {
        if p.eat_punct("}") {
            break ;
        }
        if p.at_eof() {
            break ;
        }
        let (fname, fspan) = match p.eat_ident() {
            Some(r) => r,
            None => {
                p.unexpected("字段名");
                break ;
            },
        };
        let ghost after_first = p.rem();
        let mut names: Vec<(String, Span)> = vec![(fname, fspan)];
        // `, name ,` or `, name }` adds a name; `, name type` adds the last one.
        while p.at_punct(",")
            invariant
                p.advanced_from(old(p)),
                p.rem() <= after_first,
                after_first < old(p).rem(),
            decreases p.rem(),
        {
            let ahead_is_ident = match p.peek_ahead(1) {
                TokenKind::Ident(_) => true,
                _ => false,
            };
            if !ahead_is_ident {
                break ;
            }
            let (more, last) = match p.peek_ahead(2) {
                TokenKind::Punct(x) => (str_eq(x, ",") || str_eq(x, "}"), false),
                TokenKind::Ident(_) => (true, true),
                _ => (false, false),
            };
            if !more {
                break ;
            }
            p.bump();
            match p.eat_ident() {
                Some(r) => names.push(r),
                None => {},
            }
            if last {
                break ;
            }
        }
        let ty = parse_type(p);
        let mut i: usize = 0;
        while i < names.len()
            invariant
                i <= names@.len(),
            decreases names@.len() - i,
        {
            let (fname, fspan) = (names[i].0.clone(), names[i].1);
            fields.push(Field { name: fname, ty: ty.duplicate(), span: fspan });
            i = i + 1;
        }
        p.eat_punct(",");
    }
    let span = start.extend(p.peek_span());
    StructDef { name, fields, span, is_public }
}

/// A union `Shape :: .Circle(f32) | .Rect(f32, f32)`.
fn parse_union(p: &mut Parser, name: String, is_public: bool) -> (u: UnionDef)
    requires
        old(p).wf(),
    ensures
        final(p).advanced_from(old(p)),
        u.name == name,
        u.is_public == is_public,
{
    let start = p.peek_span();
    let mut variants: Vec<Variant> = Vec::new();
    loop
        invariant
            p.advanced_from(old(p)),
        decreases p.rem(),
    {
        let ghost iter_rem = p.rem();
        if !p.eat_punct(".") {
            break ;
        }
        match p.eat_ident() {
            Some((vname, vspan)) => {
                let mut payload: Vec<TypeExpr> = Vec::new();
                if p.eat_punct("(") {
                    loop
                        invariant
                            p.advanced_from(old(p)),
                            p.rem() < iter_rem,
                        decreases 2 * p.rem() + if p.at_punct_spec(")"@) {
                            0int
                        } else {
                            1int
                        },
                    {
                        if p.eat_punct(")") {
                            break ;
                        }
                        if p.at_eof() {
                            break ;
                        }
                        payload.push(parse_type(p));
                        if !p.eat_punct(",") && !p.at_punct(")") {
                            break ;
                        }
                    }
                }
                variants.push(Variant { name: vname, payload, span: vspan });
            },
            None => {
                p.unexpected("变体名");
                break ;
            },
        }
        if !p.eat_punct("|") {
            break ;
        }
    }
    let span = start.extend(p.peek_span());
    UnionDef { name, variants, span, is_public }
}

/// The names of `.name .name ...` from position `i` on, up to the first
/// `.` that no name follows. Each step moves to a later position.
pub open spec fn use_tail(toks: Seq<Token>, i: int) -> Seq<String>
    decreases toks.len() - i,
{
    if 0 <= i < toks.len() && toks[i].kind is Punct && toks[i].kind->Punct_0@ == "."@ {
        let j = Parser::first_non_comment(toks, i + 1);
        let k = Parser::first_non_comment(toks, j + 1);
        if i < j < k <= toks.len() && toks[j].kind is Ident {
            seq![toks[j].kind->Ident_0].add(use_tail(toks, k))
        } else {
            Seq::empty()
        }
    } else {
        Seq::empty()
    }
}

/// The segments of an import path that starts at position `i`.
pub open spec fn use_segments(toks: Seq<Token>, i: int) -> Seq<String> {
    if 0 <= i < toks.len() && toks[i].kind is Ident {
        seq![toks[i].kind->Ident_0].add(use_tail(toks, Parser::first_non_comment(toks, i + 1)))
    } else {
        use_tail(toks, i)
    }
}

/// An import `use std.io`.
fn parse_use(p: &mut Parser) -> (u: UsePath)
    requires
        old(p).wf(),
    ensures
        final(p).advanced_from(old(p)),
        u.segments@ == use_segments(old(p).toks@, old(p).pos as int),
{
    proof {
        reveal_strlit(".");
    }
    let start = p.peek_span();
    let mut segments: Vec<String> = Vec::new();
    match p.eat_ident() {
        Some((seg, _)) => segments.push(seg),
        None => {},
    }
    proof {
        assert(segments@.add(use_tail(p.toks@, p.pos as int)) =~= use_segments(
            old(p).toks@,
            old(p).pos as int,
        ));
    }
    loop
        invariant_except_break
            segments@.add(use_tail(p.toks@, p.pos as int)) == use_segments(
                old(p).toks@,
                old(p).pos as int,
            ),
        invariant
            p.advanced_from(old(p)),
        ensures
            segments@ == use_segments(old(p).toks@, old(p).pos as int),
        decreases p.rem(),
    {
        let ghost i = p.pos as int;
        let ghost toks = p.toks@;
        let ghost before = segments@;
        if !p.eat_punct(".") {
            proof {
                assert(use_tail(toks, i) == Seq::<String>::empty());
                assert(segments@.add(Seq::<String>::empty()) =~= segments@);
            }
            break;
        }
        proof {
            Parser::lemma_first_non_comment_bound(toks, i + 1);
        }
        let ghost j = p.pos as int;
        match p.eat_ident() {
            Some((seg, _)) => {
                proof {
                    Parser::lemma_first_non_comment_bound(toks, j + 1);
                    assert(use_tail(toks, i) == seq![seg].add(use_tail(toks, p.pos as int)));
                }
                segments.push(seg);
                proof {
                    assert(before.add(seq![seg].add(use_tail(toks, p.pos as int))) =~= segments@.add(
                        use_tail(toks, p.pos as int),
                    ));
                }
            },
            None => {
                proof {
                    assert(use_tail(toks, i) == Seq::<String>::empty());
                    assert(segments@.add(Seq::<String>::empty()) =~= segments@);
                }
                p.unexpected("模块名");
                break ;
            },
        }
    }
    let span = start.extend(p.peek_span());
    UsePath { segments, span }
}

/// A type expression: `own ^T`, `^T`, `[N]T`, `[]T`, `Name` or `T ! E`.
/// Where none of these starts, an empty name stands in its place.
pub fn parse_type(p: &mut Parser) -> (t: TypeExpr)
    requires
        old(p).wf(),
    ensures
        final(p).advanced_from(old(p)),
        old(p).at_keyword_spec("own"@) ==> t is Own,
        old(p).at_punct_spec("^"@) ==> t is Borrow,
        old(p).at_punct_spec("["@) ==> t is Array || t is Slice,
        old(p).cur().kind matches TokenKind::Ident(n) ==> match t {
            TypeExpr::Named(m, _) => m == n,
            TypeExpr::ErrUnion(ok, _, _) => *ok matches TypeExpr::Named(m, _) && m == n,
            _ => false,
        },
        !old(p).at_keyword_spec("own"@) && !old(p).at_punct_spec("^"@) && !old(p).at_punct_spec(
            "["@,
        ) && !(old(p).cur().kind is Ident) ==> (t matches TypeExpr::Named(m, sp) && m@ == Seq::<char>::empty()
            && sp == old(p).cur().span)
            && final(p).pos == old(p).pos,
    decreases old(p).rem(),
{
    proof {
        reveal_strlit("own");
        reveal_strlit("^");
        reveal_strlit("[");
        assert("^"@[0] != "["@[0]);
    }
    let start = p.peek_span();
    if p.eat_keyword("own") {
        p.expect_punct("^");
        let inner = parse_type(p);
        let span = start.extend(p.peek_span());
        return TypeExpr::Own(Box::new(inner), span);
    }
    if p.eat_punct("^") {
        let inner = parse_type(p);
        let span = start.extend(p.peek_span());
        return TypeExpr::Borrow(Box::new(inner), span);
    }
    if p.eat_punct("[") {
        // `[N]T` is an array, `[]T` a slice.
        let size = match p.peek() {
            TokenKind::Int(n) => {
                let num = match parse_u64(n.as_str()) {
                    Some(v) => v,
                    None => 0,
                };
                Some(num)
            },
            _ => None,
        };
        if size.is_some() {
            p.bump();
        }
        p.expect_punct("]");
        let elem = parse_type(p);
        let span = start.extend(p.peek_span());
        return match size {
            Some(n) => TypeExpr::Array(Box::new(elem), n, span),
            None => TypeExpr::Slice(Box::new(elem), span),
        };
    }
    match p.eat_ident() {
        Some((name, _)) => {
            let span = start.extend(p.peek_span());
            if p.eat_punct("!") {
                let err_ty = parse_type(p);
                let span = start.extend(p.peek_span());
                return TypeExpr::ErrUnion(
                    Box::new(TypeExpr::Named(name, span)),
                    Box::new(err_ty),
                    span,
                );
            }
            TypeExpr::Named(name, span)
        },
        None => TypeExpr::Named(String::new(), p.peek_span()),
    }
}

} // verus!
