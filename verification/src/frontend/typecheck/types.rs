//! The types of the Kore0 subset.

use crate::text::{decimal, u64_to_decimal};
use vstd::prelude::*;

verus! {

/// A Kore0 type.
#[derive(Debug)]
pub enum Type {
    /// An integer type (`i32`, `u64`, ...).
    Int { signed: bool, width: u8 },
    /// A floating-point type (`f32`, `f64`).
    Float { width: u8 },
    Bool,
    Str,
    /// No value.
    Void,
    /// Does not return.
    Never,
    /// Borrowed pointer `^T`.
    Borrow(Box<Type>),
    /// Owning pointer `own ^T`.
    Own(Box<Type>),
    /// Array `[N]T`.
    Array { elem: Box<Type>, len: u64 },
    /// Slice `[]T`.
    Slice { elem: Box<Type> },
    /// Error union `T ! E`.
    ErrUnion { ok: Box<Type>, err: Box<Type> },
    /// A named struct.
    Struct(String),
    /// A named union.
    Union(String),
    /// A function type.
    Func { params: Vec<Type>, ret: Box<Type>, err: Option<Box<Type>> },
    /// Stands in where inference failed.
    Unknown,
}

/// A type as a mathematical value: names as character sequences,
/// parameter lists as sequences.
pub enum TypeView {
    Int { signed: bool, width: u8 },
    Float { width: u8 },
    Bool,
    Str,
    Void,
    Never,
    Borrow(Box<TypeView>),
    Own(Box<TypeView>),
    Array { elem: Box<TypeView>, len: u64 },
    Slice { elem: Box<TypeView> },
    ErrUnion { ok: Box<TypeView>, err: Box<TypeView> },
    Struct(Seq<char>),
    Union(Seq<char>),
    Func { params: Seq<TypeView>, ret: Box<TypeView>, err: Option<Box<TypeView>> },
    Unknown,
}

/// The value a type denotes.
pub open spec fn type_view(t: Type) -> TypeView
    decreases t,
{
    match t {
        Type::Int { signed, width } => TypeView::Int { signed, width },
        Type::Float { width } => TypeView::Float { width },
        Type::Bool => TypeView::Bool,
        Type::Str => TypeView::Str,
        Type::Void => TypeView::Void,
        Type::Never => TypeView::Never,
        Type::Borrow(x) => TypeView::Borrow(Box::new(type_view(*x))),
        Type::Own(x) => TypeView::Own(Box::new(type_view(*x))),
        Type::Array { elem, len } => TypeView::Array { elem: Box::new(type_view(*elem)), len },
        Type::Slice { elem } => TypeView::Slice { elem: Box::new(type_view(*elem)) },
        Type::ErrUnion { ok, err } => TypeView::ErrUnion {
            ok: Box::new(type_view(*ok)),
            err: Box::new(type_view(*err)),
        },
        Type::Struct(n) => TypeView::Struct(n@),
        Type::Union(n) => TypeView::Union(n@),
        Type::Func { params, ret, err } => TypeView::Func {
            params: Seq::new(
                params@.len(),
                |i: int|
                    if 0 <= i < params@.len() {
                        type_view(params@[i])
                    } else {
                        TypeView::Unknown
                    },
            ),
            ret: Box::new(type_view(*ret)),
            err: match err {
                Some(e) => Some(Box::new(type_view(*e))),
                None => None,
            },
        },
        Type::Unknown => TypeView::Unknown,
    }
}

impl View for Type {
    type V = TypeView;

    open spec fn view(&self) -> TypeView {
        type_view(*self)
    }
}

/// Two types are the same type exactly when they denote the same value.
pub proof fn lemma_teq_view(a: Type, b: Type)
    ensures
        teq(a, b) == (a@ == b@),
    decreases a,
{
    match (a, b) {
        (Type::Borrow(x), Type::Borrow(y)) => lemma_teq_view(*x, *y),
        (Type::Own(x), Type::Own(y)) => lemma_teq_view(*x, *y),
        (Type::Array { elem: x, .. }, Type::Array { elem: y, .. }) => lemma_teq_view(*x, *y),
        (Type::Slice { elem: x }, Type::Slice { elem: y }) => lemma_teq_view(*x, *y),
        (Type::ErrUnion { ok: o1, err: e1 }, Type::ErrUnion { ok: o2, err: e2 }) => {
            lemma_teq_view(*o1, *o2);
            lemma_teq_view(*e1, *e2);
        },
        (Type::Func { params: p1, ret: r1, err: e1 }, Type::Func { params: p2, ret: r2, err: e2 }) => {
            lemma_teq_view(*r1, *r2);
            match (e1, e2) {
                (Some(x), Some(y)) => lemma_teq_view(*x, *y),
                _ => {},
            }
            assert forall|i: int| 0 <= i < p1@.len() && i < p2@.len() implies teq(#[trigger] p1@[i], p2@[i])
                == (type_view(p1@[i]) == type_view(p2@[i])) by {
                assert(decreases_to!(a => p1@[i]));
                lemma_teq_view(p1@[i], p2@[i]);
            }
            let v1 = a@;
            let v2 = b@;
            if teq(a, b) {
                assert(v1->params =~= v2->params);
            } else if v1 == v2 {
                assert(p1@.len() == v1->params.len());
                assert forall|i: int| 0 <= i < p1@.len() implies teq(#[trigger] p1@[i], p2@[i]) by {
                    assert(v1->params[i] == v2->params[i]);
                }
            }
        },
        _ => {},
    }
}

/// Two types are the same type: the same shape, the same names, the same
/// widths and lengths.
pub open spec fn teq(a: Type, b: Type) -> bool
    decreases a,
{
    match (a, b) {
        (Type::Int { signed: s1, width: w1 }, Type::Int { signed: s2, width: w2 }) => s1 == s2 && w1
            == w2,
        (Type::Float { width: w1 }, Type::Float { width: w2 }) => w1 == w2,
        (Type::Bool, Type::Bool) => true,
        (Type::Str, Type::Str) => true,
        (Type::Void, Type::Void) => true,
        (Type::Never, Type::Never) => true,
        (Type::Borrow(x), Type::Borrow(y)) => teq(*x, *y),
        (Type::Own(x), Type::Own(y)) => teq(*x, *y),
        (Type::Array { elem: x, len: n }, Type::Array { elem: y, len: m }) => n == m && teq(*x, *y),
        (Type::Slice { elem: x }, Type::Slice { elem: y }) => teq(*x, *y),
        (Type::ErrUnion { ok: o1, err: e1 }, Type::ErrUnion { ok: o2, err: e2 }) => teq(*o1, *o2)
            && teq(*e1, *e2),
        (Type::Struct(x), Type::Struct(y)) => x@ == y@,
        (Type::Union(x), Type::Union(y)) => x@ == y@,
        (Type::Func { params: p1, ret: r1, err: e1 }, Type::Func { params: p2, ret: r2, err: e2 }) => {
            &&& p1@.len() == p2@.len()
            &&& forall|i: int| 0 <= i < p1@.len() ==> teq(#[trigger] p1@[i], p2@[i])
            &&& teq(*r1, *r2)
            &&& match (e1, e2) {
                (None, None) => true,
                (Some(x), Some(y)) => teq(*x, *y),
                _ => false,
            }
        },
        (Type::Unknown, Type::Unknown) => true,
        _ => false,
    }
}

/// The written form of a list of types, separated by `, `.
pub open spec fn list_text(ts: Seq<Type>) -> Seq<char>
    decreases ts,
{
    if ts.len() == 0 {
        Seq::empty()
    } else if ts.len() == 1 {
        type_text(ts[0])
    } else {
        list_text(ts.drop_last()) + ", "@ + type_text(ts.last())
    }
}

/// The written form of a type.
pub open spec fn type_text(t: Type) -> Seq<char>
    decreases t,
{
    match t {
        Type::Int { signed, width } => (if signed {
            "i"@
        } else {
            "u"@
        }) + decimal(width as nat),
        Type::Float { width } => "f"@ + decimal(width as nat),
        Type::Bool => "bool"@,
        Type::Str => "str"@,
        Type::Void => "void"@,
        Type::Never => "never"@,
        Type::Borrow(x) => "^"@ + type_text(*x),
        Type::Own(x) => "own ^"@ + type_text(*x),
        Type::Array { elem, len } => "["@ + decimal(len as nat) + "]"@ + type_text(*elem),
        Type::Slice { elem } => "[]"@ + type_text(*elem),
        Type::ErrUnion { ok, err } => type_text(*ok) + " ! "@ + type_text(*err),
        Type::Struct(name) => name@,
        Type::Union(name) => name@,
        Type::Func { params, ret, err } => "("@ + list_text(params@) + ") "@ + type_text(*ret) + match err {
            Some(e) => " ! "@ + type_text(*e),
            None => Seq::empty(),
        },
        Type::Unknown => "<unknown>"@,
    }
}

impl Type {
    pub fn i32() -> (t: Type)
        ensures
            t == (Type::Int { signed: true, width: 32 }),
    {
        Type::Int { signed: true, width: 32 }
    }

    pub fn i64() -> (t: Type)
        ensures
            t == (Type::Int { signed: true, width: 64 }),
    {
        Type::Int { signed: true, width: 64 }
    }

    pub fn u32() -> (t: Type)
        ensures
            t == (Type::Int { signed: false, width: 32 }),
    {
        Type::Int { signed: false, width: 32 }
    }

    pub fn u64() -> (t: Type)
        ensures
            t == (Type::Int { signed: false, width: 64 }),
    {
        Type::Int { signed: false, width: 64 }
    }

    pub fn float64() -> (t: Type)
        ensures
            t == (Type::Float { width: 64 }),
    {
        Type::Float { width: 64 }
    }

    pub fn is_never(&self) -> (b: bool)
        ensures
            b == (*self is Never),
    {
        match self {
            Type::Never => true,
            _ => false,
        }
    }

    pub fn is_int(&self) -> (b: bool)
        ensures
            b == (*self is Int),
    {
        match self {
            Type::Int { .. } => true,
            _ => false,
        }
    }

    pub fn is_float(&self) -> (b: bool)
        ensures
            b == (*self is Float),
    {
        match self {
            Type::Float { .. } => true,
            _ => false,
        }
    }

    /// Integer or floating point.
    pub fn is_numeric(&self) -> (b: bool)
        ensures
            b == (*self is Int || *self is Float),
    {
        self.is_int() || self.is_float()
    }

    pub fn is_unknown(&self) -> (b: bool)
        ensures
            b == (*self is Unknown),
    {
        match self {
            Type::Unknown => true,
            _ => false,
        }
    }

    /// Whether two types are the same type.
    #[verifier::loop_isolation(false)]
    pub fn same(&self, other: &Type) -> (b: bool)
        ensures
            b == teq(*self, *other),
            b == (self@ == other@),
        decreases self,
    {
        proof {
            lemma_teq_view(*self, *other);
        }
        match (self, other) {
            (Type::Int { signed: s1, width: w1 }, Type::Int { signed: s2, width: w2 }) => *s1 == *s2
                && *w1 == *w2,
            (Type::Float { width: w1 }, Type::Float { width: w2 }) => *w1 == *w2,
            (Type::Bool, Type::Bool) => true,
            (Type::Str, Type::Str) => true,
            (Type::Void, Type::Void) => true,
            (Type::Never, Type::Never) => true,
            (Type::Borrow(x), Type::Borrow(y)) => x.same(y),
            (Type::Own(x), Type::Own(y)) => x.same(y),
            (Type::Array { elem: x, len: n }, Type::Array { elem: y, len: m }) => *n == *m && x.same(y),
            (Type::Slice { elem: x }, Type::Slice { elem: y }) => x.same(y),
            (Type::ErrUnion { ok: o1, err: e1 }, Type::ErrUnion { ok: o2, err: e2 }) => o1.same(o2)
                && e1.same(e2),
            (Type::Struct(x), Type::Struct(y)) => x.eq(y),
            (Type::Union(x), Type::Union(y)) => x.eq(y),
            (
                Type::Func { params: p1, ret: r1, err: e1 },
                Type::Func { params: p2, ret: r2, err: e2 },
            ) => {
                if p1.len() != p2.len() {
                    return false;
                }
                let mut i: usize = 0;
                while i < p1.len()
                    invariant
                        p1@.len() == p2@.len(),
                        i <= p1@.len(),
                        forall|j: int| 0 <= j < i ==> teq(#[trigger] p1@[j], p2@[j]),
                    decreases p1@.len() - i,
                {
                    proof {
                        assert(decreases_to!(self => p1@[i as int]));
                    }
                    if !p1[i].same(&p2[i]) {
                        return false;
                    }
                    i = i + 1;
                }
                if !r1.same(r2) {
                    return false;
                }
                match (e1, e2) {
                    (None, None) => true,
                    (Some(x), Some(y)) => x.same(y),
                    _ => false,
                }
            },
            (Type::Unknown, Type::Unknown) => true,
            _ => false,
        }
    }

    /// A copy of the type.
    #[verifier::loop_isolation(false)]
    pub fn duplicate(&self) -> (t: Type)
        ensures
            teq(t, *self),
            t@ == self@,
            t is Unknown == *self is Unknown,
            t is Void == *self is Void,
            t is Never == *self is Never,
        decreases self,
    {
        proof {
            lemma_teq_refl(*self);
        }
        let t = match self {
            Type::Int { signed, width } => Type::Int { signed: *signed, width: *width },
            Type::Float { width } => Type::Float { width: *width },
            Type::Bool => Type::Bool,
            Type::Str => Type::Str,
            Type::Void => Type::Void,
            Type::Never => Type::Never,
            Type::Borrow(x) => Type::Borrow(Box::new(x.duplicate())),
            Type::Own(x) => Type::Own(Box::new(x.duplicate())),
            Type::Array { elem, len } => Type::Array { elem: Box::new(elem.duplicate()), len: *len },
            Type::Slice { elem } => Type::Slice { elem: Box::new(elem.duplicate()) },
            Type::ErrUnion { ok, err } => Type::ErrUnion {
                ok: Box::new(ok.duplicate()),
                err: Box::new(err.duplicate()),
            },
            Type::Struct(name) => Type::Struct(name.clone()),
            Type::Union(name) => Type::Union(name.clone()),
            Type::Func { params, ret, err } => {
                let mut ps: Vec<Type> = Vec::new();
                let mut i: usize = 0;
                while i < params.len()
                    invariant
                        i <= params@.len(),
                        ps@.len() == i,
                        forall|j: int| 0 <= j < i ==> teq(#[trigger] ps@[j], params@[j]),
                    decreases params@.len() - i,
                {
                    proof {
                        assert(decreases_to!(self => params@[i as int]));
                    }
                    ps.push(params[i].duplicate());
                    i = i + 1;
                }
                let e = match err {
                    Some(x) => Some(Box::new(x.duplicate())),
                    None => None,
                };
                Type::Func { params: ps, ret: Box::new(ret.duplicate()), err: e }
            },
            Type::Unknown => Type::Unknown,
        };
        proof {
            lemma_teq_view(t, *self);
        }
        t
    }

    /// The written form of the type: `i32`, `^str`, `[10]i32`, `i32 ! str`,
    /// `(i32, str) bool`, `<unknown>`, ...
    #[verifier::loop_isolation(false)]
    pub fn to_string(&self) -> (s: String)
        ensures
            s@ == type_text(*self),
        decreases self,
    {
        match self {
            Type::Int { signed, width } => {
                let mut s = if *signed {
                    String::from_str("i")
                } else {
                    String::from_str("u")
                };
                let w = u64_to_decimal(*width as u64);
                s.append(w.as_str());
                s
            },
            Type::Float { width } => {
                let mut s = String::from_str("f");
                let w = u64_to_decimal(*width as u64);
                s.append(w.as_str());
                s
            },
            Type::Bool => String::from_str("bool"),
            Type::Str => String::from_str("str"),
            Type::Void => String::from_str("void"),
            Type::Never => String::from_str("never"),
            Type::Borrow(x) => {
                let mut s = String::from_str("^");
                let inner = x.to_string();
                s.append(inner.as_str());
                s
            },
            Type::Own(x) => {
                let mut s = String::from_str("own ^");
                let inner = x.to_string();
                s.append(inner.as_str());
                s
            },
            Type::Array { elem, len } => {
                let mut s = String::from_str("[");
                let n = u64_to_decimal(*len);
                s.append(n.as_str());
                s.append("]");
                let inner = elem.to_string();
                s.append(inner.as_str());
                s
            },
            Type::Slice { elem } => {
                let mut s = String::from_str("[]");
                let inner = elem.to_string();
                s.append(inner.as_str());
                s
            },
            Type::ErrUnion { ok, err } => {
                let mut s = ok.to_string();
                s.append(" ! ");
                let e = err.to_string();
                s.append(e.as_str());
                s
            },
            Type::Struct(name) => name.clone(),
            Type::Union(name) => name.clone(),
            Type::Func { params, ret, err } => {
                let mut s = String::from_str("(");
                let mut list = String::new();
                let mut i: usize = 0;
                while i < params.len()
                    invariant
                        i <= params@.len(),
                        list@ == list_text(params@.take(i as int)),
                    decreases params@.len() - i,
                {
                    proof {
                        assert(decreases_to!(self => params@[i as int]));
                        assert(params@.take(i + 1).drop_last() =~= params@.take(i as int));
                    }
                    if i > 0 {
                        list.append(", ");
                    }
                    let p = params[i].to_string();
                    list.append(p.as_str());
                    i = i + 1;
                }
                proof {
                    assert(params@.take(i as int) =~= params@);
                }
                s.append(list.as_str());
                s.append(") ");
                let r = ret.to_string();
                s.append(r.as_str());
                match err {
                    Some(e) => {
                        s.append(" ! ");
                        let et = e.to_string();
                        s.append(et.as_str());
                    },
                    None => {},
                }
                s
            },
            Type::Unknown => String::from_str("<unknown>"),
        }
    }
}

/// Every type is the same type as itself.
pub proof fn lemma_teq_refl(t: Type)
    ensures
        teq(t, t),
    decreases t,
{
    match t {
        Type::Borrow(x) => lemma_teq_refl(*x),
        Type::Own(x) => lemma_teq_refl(*x),
        Type::Array { elem, .. } => lemma_teq_refl(*elem),
        Type::Slice { elem } => lemma_teq_refl(*elem),
        Type::ErrUnion { ok, err } => {
            lemma_teq_refl(*ok);
            lemma_teq_refl(*err);
        },
        Type::Func { params, ret, err } => {
            assert forall|i: int| 0 <= i < params@.len() implies teq(#[trigger] params@[i], params@[i]) by {
                assert(decreases_to!(t => params@[i]));
                lemma_teq_refl(params@[i]);
            }
            lemma_teq_refl(*ret);
            match err {
                Some(x) => lemma_teq_refl(*x),
                None => {},
            }
        },
        _ => {},
    }
}

impl Clone for Type {
    fn clone(&self) -> (t: Type) {
        self.duplicate()
    }
}

impl PartialEq for Type {
    fn eq(&self, other: &Type) -> (b: bool) {
        self.same(other)
    }
}

impl Eq for Type {
}

impl vstd::std_specs::cmp::PartialEqSpecImpl for Type {
    open spec fn obeys_eq_spec() -> bool {
        true
    }

    open spec fn eq_spec(&self, other: &Type) -> bool {
        teq(*self, *other)
    }
}

} // verus!
