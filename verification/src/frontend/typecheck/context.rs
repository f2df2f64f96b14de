//! The type context: the struct, union and function signatures a module
//! defines, and the translation of written types into types.

use super::types::{teq, type_text, Type};
use crate::diag::DiagSink;
use crate::frontend::ast::TypeExpr;
use crate::text::{decimal, digit_char, str_eq, string_eq_str};
use vstd::prelude::*;

verus! {

/// The index of the first entry named `name`.
pub open spec fn first_entry<V>(list: Seq<(String, V)>, name: Seq<char>) -> Option<int>
    decreases list.len(),
{
    if list.len() == 0 {
        None
    } else {
        match first_entry(list.drop_last(), name) {
            Some(i) => Some(i),
            None => if list.last().0@ == name {
                Some(list.len() - 1)
            } else {
                None
            },
        }
    }
}

pub proof fn lemma_first_entry<V>(list: Seq<(String, V)>, name: Seq<char>)
    ensures
        first_entry(list, name) matches Some(i) ==> 0 <= i < list.len() && list[i].0@ == name
            && forall|j: int| 0 <= j < i ==> (#[trigger] list[j]).0@ != name,
        first_entry(list, name) is None ==> forall|j: int| 0 <= j < list.len() ==> (#[trigger] list[j]).0@ != name,
    decreases list.len(),
{
    if list.len() > 0 {
        let init = list.drop_last();
        lemma_first_entry(init, name);
        assert forall|j: int| 0 <= j < init.len() implies init[j] == list[j] by {}
    }
}

/// The index of the first entry of `list` named `name`.
pub(crate) fn find_entry<V>(list: &Vec<(String, V)>, name: &str) -> (r: Option<usize>)
    ensures
        r == (match first_entry(list@, name@) {
            Some(i) => Some(i as usize),
            None => None::<usize>,
        }),
        r matches Some(i) ==> i < list@.len() && list@[i as int].0@ == name@,
        r is None ==> entry_value(list@, name@) is None,
{
    proof {
        lemma_first_entry(list@, name@);
    }
    let mut i: usize = 0;
    while i < list.len()
        invariant
            i <= list@.len(),
            forall|j: int| 0 <= j < i ==> (#[trigger] list@[j]).0@ != name@,
            first_entry(list@, name@) matches Some(k) ==> 0 <= k < list@.len() && list@[k].0@ == name@
                && forall|j: int| 0 <= j < k ==> (#[trigger] list@[j]).0@ != name@,
            first_entry(list@, name@) is None ==> forall|j: int| 0 <= j < list@.len() ==> (#[trigger] list@[j]).0@ != name@,
        decreases list@.len() - i,
    {
        if string_eq_str(&list[i].0, name) {
            return Some(i);
        }
        i = i + 1;
    }
    None
}

/// No two entries share a name.
pub open spec fn unique_names<V>(list: Seq<(String, V)>) -> bool {
    forall|i: int, j: int| 0 <= i < j < list.len() ==> (#[trigger] list[i]).0@ != (#[trigger] list[j]).0@
}

/// Binds `name` to `value`: the entry of that name takes the new value, or
/// a new entry is added.
pub(crate) fn set_entry<V>(list: &mut Vec<(String, V)>, name: String, value: V)
    requires
        unique_names(old(list)@),
    ensures
        unique_names(final(list)@),
        final(list)@ == (match first_entry(old(list)@, name@) {
            Some(i) => old(list)@.update(i, (name, value)),
            None => old(list)@.push((name, value)),
        }),
        entry_value(final(list)@, name@) == Some(value),
        forall|n: Seq<char>| n != name@ ==> #[trigger] entry_value(final(list)@, n) == entry_value(old(list)@, n),
{
    match find_entry(list, name.as_str()) {
        Some(i) => {
            proof {
                lemma_first_entry(list@, name@);
            }
            let ghost n = name@;
            let ghost pair = (name, value);
            list.set(i, (name, value));
            proof {
                assert(list@ =~= old(list)@.update(i as int, pair));
            }
            proof {
                assert(list@[i as int].0@ == n);
                assert(forall|j: int| 0 <= j < old(list)@.len() && j != i ==> list@[j] == old(list)@[j]);
                assert forall|a: int, b: int| 0 <= a < b < list@.len() implies (#[trigger] list@[a]).0@ != (#[trigger] list@[b]).0@ by {
                    if a != i && b != i {
                        assert(list@[a] == old(list)@[a]);
                        assert(list@[b] == old(list)@[b]);
                    } else if a == i {
                        assert(list@[b] == old(list)@[b]);
                        assert(old(list)@[i as int].0@ == n);
                    } else {
                        assert(list@[a] == old(list)@[a]);
                        assert(old(list)@[i as int].0@ == n);
                    }
                }
                lemma_entry_after_set(old(list)@, list@, n);
            }
        },
        None => {
            proof {
                lemma_first_entry(list@, name@);
            }
            let ghost n = name@;
            let ghost pair = (name, value);
            list.push((name, value));
            proof {
                assert(list@ =~= old(list)@.push(pair));
            }
            proof {
                assert(forall|j: int| 0 <= j < old(list)@.len() ==> list@[j] == old(list)@[j]);
                assert(list@.last().0@ == n);
                assert forall|a: int, b: int| 0 <= a < b < list@.len() implies (#[trigger] list@[a]).0@ != (#[trigger] list@[b]).0@ by {
                    assert(list@[a] == old(list)@[a]);
                    if b < old(list)@.len() {
                        assert(list@[b] == old(list)@[b]);
                    }
                }
                lemma_entry_after_set(old(list)@, list@, n);
            }
        },
    }
}

/// The definitions of a module's structs, unions and functions.
#[derive(Debug)]
pub struct TypeContext {
    /// Struct name and its fields.
    structs: Vec<(String, Vec<(String, Type)>)>,
    /// Union name and its variants with their payload types.
    unions: Vec<(String, Vec<(String, Type)>)>,
    /// Function name and its `Type::Func`.
    funcs: Vec<(String, Type)>,
}

/// The value bound to `name` in a list of entries.
pub open spec fn entry_value<V>(list: Seq<(String, V)>, name: Seq<char>) -> Option<V> {
    match first_entry(list, name) {
        Some(i) => Some(list[i].1),
        None => None,
    }
}

/// The index of the first union that has a variant named `v`.
pub open spec fn variant_home(unions: Seq<(String, Vec<(String, Type)>)>, v: Seq<char>) -> Option<
    int,
>
    decreases unions.len(),
{
    if unions.len() == 0 {
        None
    } else {
        match variant_home(unions.drop_last(), v) {
            Some(i) => Some(i),
            None => if entry_value(unions.last().1@, v) is Some {
                Some(unions.len() - 1)
            } else {
                None
            },
        }
    }
}

/// The primitive type a name denotes.
pub open spec fn primitive(name: Seq<char>) -> Option<Type> {
    if name == "i8"@ {
        Some(Type::Int { signed: true, width: 8 })
    } else if name == "i16"@ {
        Some(Type::Int { signed: true, width: 16 })
    } else if name == "i32"@ {
        Some(Type::Int { signed: true, width: 32 })
    } else if name == "i64"@ {
        Some(Type::Int { signed: true, width: 64 })
    } else if name == "u8"@ {
        Some(Type::Int { signed: false, width: 8 })
    } else if name == "u16"@ {
        Some(Type::Int { signed: false, width: 16 })
    } else if name == "u32"@ {
        Some(Type::Int { signed: false, width: 32 })
    } else if name == "u64"@ {
        Some(Type::Int { signed: false, width: 64 })
    } else if name == "f32"@ {
        Some(Type::Float { width: 32 })
    } else if name == "f64"@ {
        Some(Type::Float { width: 64 })
    } else if name == "bool"@ {
        Some(Type::Bool)
    } else if name == "str"@ {
        Some(Type::Str)
    } else if name == "void"@ {
        Some(Type::Void)
    } else {
        None
    }
}

/// Each primitive name denotes the type it spells: the written form of the
/// type it resolves to is the name itself (`u16` is the unsigned integer of
/// width 16, `f32` the float of width 32, ...). So distinct names give
/// distinct types.
pub proof fn law_primitive_spells_its_name(name: Seq<char>)
    requires
        primitive(name) is Some,
    ensures
        type_text(primitive(name)->0) == name,
{
    reveal_strlit("i8");
    reveal_strlit("i16");
    reveal_strlit("i32");
    reveal_strlit("i64");
    reveal_strlit("u8");
    reveal_strlit("u16");
    reveal_strlit("u32");
    reveal_strlit("u64");
    reveal_strlit("f32");
    reveal_strlit("f64");
    reveal_strlit("bool");
    reveal_strlit("str");
    reveal_strlit("void");
    reveal_strlit("i");
    reveal_strlit("u");
    reveal_strlit("f");
    assert(decimal(8) =~= seq!['8']);
    assert(decimal(1) =~= seq!['1']);
    assert(decimal(3) =~= seq!['3']);
    assert(decimal(6) =~= seq!['6']);
    assert(decimal(16) == decimal(1).push(digit_char(6)));
    assert(decimal(32) == decimal(3).push(digit_char(2)));
    assert(decimal(64) == decimal(6).push(digit_char(4)));
    assert(decimal(16) =~= seq!['1', '6']);
    assert(decimal(32) =~= seq!['3', '2']);
    assert(decimal(64) =~= seq!['6', '4']);
    assert("i"@ + decimal(8) =~= "i8"@);
    assert("i"@ + decimal(16) =~= "i16"@);
    assert("i"@ + decimal(32) =~= "i32"@);
    assert("i"@ + decimal(64) =~= "i64"@);
    assert("u"@ + decimal(8) =~= "u8"@);
    assert("u"@ + decimal(16) =~= "u16"@);
    assert("u"@ + decimal(32) =~= "u32"@);
    assert("u"@ + decimal(64) =~= "u64"@);
    assert("f"@ + decimal(32) =~= "f32"@);
    assert("f"@ + decimal(64) =~= "f64"@);
}

/// Distinct primitive names resolve to distinct types.
pub proof fn law_primitive_injective(a: Seq<char>, b: Seq<char>)
    requires
        primitive(a) is Some,
        primitive(b) is Some,
        a != b,
    ensures
        primitive(a) != primitive(b),
{
    law_primitive_spells_its_name(a);
    law_primitive_spells_its_name(b);
}

fn primitive_type(name: &str) -> (r: Option<Type>)
    ensures
        r == primitive(name@),
{
    if str_eq(name, "i8") {
        Some(Type::Int { signed: true, width: 8 })
    } else if str_eq(name, "i16") {
        Some(Type::Int { signed: true, width: 16 })
    } else if str_eq(name, "i32") {
        Some(Type::i32())
    } else if str_eq(name, "i64") {
        Some(Type::i64())
    } else if str_eq(name, "u8") {
        Some(Type::Int { signed: false, width: 8 })
    } else if str_eq(name, "u16") {
        Some(Type::Int { signed: false, width: 16 })
    } else if str_eq(name, "u32") {
        Some(Type::u32())
    } else if str_eq(name, "u64") {
        Some(Type::u64())
    } else if str_eq(name, "f32") {
        Some(Type::Float { width: 32 })
    } else if str_eq(name, "f64") {
        Some(Type::float64())
    } else if str_eq(name, "bool") {
        Some(Type::Bool)
    } else if str_eq(name, "str") {
        Some(Type::Str)
    } else if str_eq(name, "void") {
        Some(Type::Void)
    } else {
        None
    }
}

impl TypeContext {
    #[verifier::type_invariant]
    spec fn names_unique(&self) -> bool {
        &&& unique_names(self.structs@)
        &&& unique_names(self.unions@)
        &&& unique_names(self.funcs@)
    }

    /// The defined structs, each name once.
    pub closed spec fn struct_entries(&self) -> Seq<(String, Vec<(String, Type)>)> {
        self.structs@
    }

    /// The defined unions, each name once.
    pub closed spec fn union_entries(&self) -> Seq<(String, Vec<(String, Type)>)> {
        self.unions@
    }

    /// The defined function signatures, each name once.
    pub closed spec fn func_entries(&self) -> Seq<(String, Type)> {
        self.funcs@
    }

    pub open spec fn struct_def(&self, name: Seq<char>) -> Option<Vec<(String, Type)>> {
        entry_value(self.struct_entries(), name)
    }

    pub open spec fn union_def(&self, name: Seq<char>) -> Option<Vec<(String, Type)>> {
        entry_value(self.union_entries(), name)
    }

    pub open spec fn func_def(&self, name: Seq<char>) -> Option<Type> {
        entry_value(self.func_entries(), name)
    }

    /// The type a written type denotes in this context. A name that is
    /// neither primitive nor defined stands for a struct of that name; name
    /// resolution reports it.
    pub open spec fn resolved(&self, te: TypeExpr) -> Type
        decreases te,
    {
        match te {
            TypeExpr::Named(name, _) => match primitive(name@) {
                Some(t) => t,
                None => if self.struct_def(name@) is Some {
                    Type::Struct(name)
                } else if self.union_def(name@) is Some {
                    Type::Union(name)
                } else {
                    Type::Struct(name)
                },
            },
            TypeExpr::Borrow(inner, _) => Type::Borrow(Box::new(self.resolved(*inner))),
            TypeExpr::Own(inner, _) => Type::Own(Box::new(self.resolved(*inner))),
            TypeExpr::Array(elem, len, _) => Type::Array { elem: Box::new(self.resolved(*elem)), len },
            TypeExpr::Slice(elem, _) => Type::Slice { elem: Box::new(self.resolved(*elem)) },
            TypeExpr::ErrUnion(ok, err, _) => Type::ErrUnion {
                ok: Box::new(self.resolved(*ok)),
                err: Box::new(self.resolved(*err)),
            },
        }
    }

    pub fn new() -> (c: TypeContext)
        ensures
            c.struct_entries().len() == 0,
            c.union_entries().len() == 0,
            c.func_entries().len() == 0,
    {
        TypeContext { structs: Vec::new(), unions: Vec::new(), funcs: Vec::new() }
    }

    /// Defines (or redefines) a struct.
    pub fn define_struct(&mut self, name: String, fields: Vec<(String, Type)>)
        ensures
            final(self).struct_def(name@) == Some(fields),
            forall|n: Seq<char>| n != name@ ==> #[trigger] final(self).struct_def(n) == old(self).struct_def(n),
            final(self).union_entries() == old(self).union_entries(),
            final(self).func_entries() == old(self).func_entries(),
            final(self).struct_entries() == (match first_entry(old(self).struct_entries(), name@) {
                Some(i) => old(self).struct_entries().update(i, (name, fields)),
                None => old(self).struct_entries().push((name, fields)),
            }),
            unique_names(final(self).struct_entries()),
    {
        proof {
            use_type_invariant(&*self);
        }
        let ghost n = name@;
        let mut list: Vec<(String, Vec<(String, Type)>)> = Vec::new();
        std::mem::swap(&mut list, &mut self.structs);
        set_entry(&mut list, name, fields);
        self.structs = list;
    }

    /// Defines (or redefines) a union.
    pub fn define_union(&mut self, name: String, variants: Vec<(String, Type)>)
        ensures
            final(self).union_def(name@) == Some(variants),
            forall|n: Seq<char>| n != name@ ==> #[trigger] final(self).union_def(n) == old(self).union_def(n),
            final(self).struct_entries() == old(self).struct_entries(),
            final(self).func_entries() == old(self).func_entries(),
            final(self).union_entries() == (match first_entry(old(self).union_entries(), name@) {
                Some(i) => old(self).union_entries().update(i, (name, variants)),
                None => old(self).union_entries().push((name, variants)),
            }),
            unique_names(final(self).union_entries()),
    {
        proof {
            use_type_invariant(&*self);
        }
        let ghost n = name@;
        let mut list: Vec<(String, Vec<(String, Type)>)> = Vec::new();
        std::mem::swap(&mut list, &mut self.unions);
        set_entry(&mut list, name, variants);
        self.unions = list;
    }

    /// Defines (or redefines) a function signature.
    pub fn define_func(&mut self, name: String, func_ty: Type)
        ensures
            final(self).func_def(name@) == Some(func_ty),
            forall|n: Seq<char>| n != name@ ==> #[trigger] final(self).func_def(n) == old(self).func_def(n),
            final(self).struct_entries() == old(self).struct_entries(),
            final(self).union_entries() == old(self).union_entries(),
            final(self).func_entries() == (match first_entry(old(self).func_entries(), name@) {
                Some(i) => old(self).func_entries().update(i, (name, func_ty)),
                None => old(self).func_entries().push((name, func_ty)),
            }),
            unique_names(final(self).func_entries()),
    {
        proof {
            use_type_invariant(&*self);
        }
        let ghost n = name@;
        let mut list: Vec<(String, Type)> = Vec::new();
        std::mem::swap(&mut list, &mut self.funcs);
        set_entry(&mut list, name, func_ty);
        self.funcs = list;
    }

    /// The fields of a struct.
    pub fn get_struct(&self, name: &str) -> (r: Option<&Vec<(String, Type)>>)
        ensures
            r == (match self.struct_def(name@) {
                Some(v) => Some(&v),
                None => None::<&Vec<(String, Type)>>,
            }),
    {
        proof {
            lemma_first_entry(self.structs@, name@);
        }
        match find_entry(&self.structs, name) {
            Some(i) => Some(&self.structs[i].1),
            None => None,
        }
    }

    /// The variants of a union.
    pub fn get_union(&self, name: &str) -> (r: Option<&Vec<(String, Type)>>)
        ensures
            r == (match self.union_def(name@) {
                Some(v) => Some(&v),
                None => None::<&Vec<(String, Type)>>,
            }),
    {
        proof {
            lemma_first_entry(self.unions@, name@);
        }
        match find_entry(&self.unions, name) {
            Some(i) => Some(&self.unions[i].1),
            None => None,
        }
    }

    /// A copy of a function's signature.
    pub fn get_func(&self, name: &str) -> (r: Option<Type>)
        ensures
            r is Some == self.func_def(name@) is Some,
            r matches Some(t) ==> teq(t, self.func_def(name@)->0) && t@ == self.func_def(name@)->0@,
    {
        proof {
            lemma_first_entry(self.funcs@, name@);
        }
        match find_entry(&self.funcs, name) {
            Some(i) => Some(self.funcs[i].1.duplicate()),
            None => None,
        }
    }

    /// A copy of the type of a struct's field.
    pub fn get_struct_field(&self, struct_name: &str, field_name: &str) -> (r: Option<Type>)
        ensures
            r is Some == (self.struct_def(struct_name@) matches Some(fs) && entry_value(fs@, field_name@) is Some),
            r matches Some(t) ==> teq(t, entry_value(self.struct_def(struct_name@)->0@, field_name@)->0)
                && t@ == entry_value(self.struct_def(struct_name@)->0@, field_name@)->0@,
    {
        let fields = match self.get_struct(struct_name) {
            Some(fs) => fs,
            None => {
                return None;
            },
        };
        proof {
            lemma_first_entry(fields@, field_name@);
        }
        match find_entry(fields, field_name) {
            Some(i) => Some(fields[i].1.duplicate()),
            None => None,
        }
    }

    /// The first union, in order of definition, that has a variant of the
    /// given name, with that variant's payload type.
    pub fn find_variant_union(&self, variant_name: &str) -> (r: Option<(String, Type)>)
        ensures
            r matches Some((u, t)) ==> (self.union_def(u@) matches Some(vs) && entry_value(vs@, variant_name@)
                matches Some(pt) && teq(t, pt)),
            match variant_home(self.union_entries(), variant_name@) {
                Some(i) => r matches Some((u, t)) && u@ == self.union_entries()[i].0@ && t@ == entry_value(
                    self.union_entries()[i].1@,
                    variant_name@,
                )->0@,
                None => r is None,
            },
            unique_names(self.union_entries()),
    {
        proof {
            lemma_variant_home(self.unions@, variant_name@);
            use_type_invariant(self);
        }
        proof {
            use_type_invariant(self);
        }
        let mut i: usize = 0;
        while i < self.unions.len()
            invariant
                i <= self.unions@.len(),
                unique_names(self.unions@),
                forall|j: int| 0 <= j < i ==> entry_value((#[trigger] self.unions@[j]).1@, variant_name@) is None,
            decreases self.unions@.len() - i,
        {
            let variants = &self.unions[i].1;
            match find_entry(variants, variant_name) {
                Some(k) => {
                    proof {
                        lemma_unique_first(self.unions@, i as int);
                        lemma_first_entry(variants@, variant_name@);
                        assert(entry_value(self.unions@[i as int].1@, variant_name@) is Some);
                        lemma_variant_home(self.unions@, variant_name@);
                        match variant_home(self.unions@, variant_name@) {
                            Some(h) => {
                                if h < i {
                                    assert(entry_value(self.unions@[h].1@, variant_name@) is None);
                                } else if h > i {
                                    assert(entry_value(self.unions@[i as int].1@, variant_name@) is None);
                                }
                            },
                            None => {
                                assert(entry_value(self.unions@[i as int].1@, variant_name@) is None);
                            },
                        }
                    }
                    let u = self.unions[i].0.clone();
                    let t = variants[k].1.duplicate();
                    proof {
                        assert(u@ == self.unions@[i as int].0@);
                        assert(t@ == entry_value(self.unions@[i as int].1@, variant_name@)->0@);
                    }
                    return Some((u, t));
                },
                None => {},
            }
            i = i + 1;
        }
        None
    }

    /// The type a written type denotes.
    pub fn resolve_type_expr(&self, type_expr: &TypeExpr, sink: &mut DiagSink) -> (t: Type)
        ensures
            t == self.resolved(*type_expr),
            *final(sink) == *old(sink),
        decreases type_expr,
    {
        match type_expr {
            TypeExpr::Named(name, _) => match primitive_type(name.as_str()) {
                Some(t) => t,
                None => if self.get_struct(name.as_str()).is_some() {
                    Type::Struct(name.clone())
                } else if self.get_union(name.as_str()).is_some() {
                    Type::Union(name.clone())
                } else {
                    Type::Struct(name.clone())
                },
            },
            TypeExpr::Borrow(inner, _) => Type::Borrow(Box::new(self.resolve_type_expr(inner, sink))),
            TypeExpr::Own(inner, _) => Type::Own(Box::new(self.resolve_type_expr(inner, sink))),
            TypeExpr::Array(elem, len, _) => Type::Array {
                elem: Box::new(self.resolve_type_expr(elem, sink)),
                len: *len,
            },
            TypeExpr::Slice(elem, _) => Type::Slice { elem: Box::new(self.resolve_type_expr(elem, sink)) },
            TypeExpr::ErrUnion(ok, err, _) => {
                let o = self.resolve_type_expr(ok, sink);
                let e = self.resolve_type_expr(err, sink);
                Type::ErrUnion { ok: Box::new(o), err: Box::new(e) }
            },
        }
    }
}

/// The first union with a given variant has it, and none before it has.
pub proof fn lemma_variant_home(unions: Seq<(String, Vec<(String, Type)>)>, v: Seq<char>)
    ensures
        variant_home(unions, v) matches Some(i) ==> 0 <= i < unions.len() && entry_value(unions[i].1@, v) is Some
            && forall|j: int| 0 <= j < i ==> entry_value((#[trigger] unions[j]).1@, v) is None,
        variant_home(unions, v) is None ==> forall|j: int|
            0 <= j < unions.len() ==> entry_value((#[trigger] unions[j]).1@, v) is None,
    decreases unions.len(),
{
    if unions.len() > 0 {
        let init = unions.drop_last();
        lemma_variant_home(init, v);
        assert forall|j: int| 0 <= j < init.len() implies init[j] == unions[j] by {}
    }
}

/// In a list of unique names, every entry is the first of its name.
proof fn lemma_unique_first<V>(list: Seq<(String, V)>, i: int)
    requires
        unique_names(list),
        0 <= i < list.len(),
    ensures
        first_entry(list, list[i].0@) == Some(i),
{
    lemma_first_entry(list, list[i].0@);
    match first_entry(list, list[i].0@) {
        Some(k) => {
            if k < i {
                assert(list[k].0@ != list[i].0@);
            }
        },
        None => {},
    }
}

/// What `set_entry` leaves behind, by name.
proof fn lemma_entry_after_set<V>(old_list: Seq<(String, V)>, new_list: Seq<(String, V)>, name: Seq<char>)
    requires
        unique_names(new_list),
        match first_entry(old_list, name) {
            Some(i) => new_list.len() == old_list.len() && new_list[i].0@ == name && forall|j: int|
                0 <= j < old_list.len() && j != i ==> new_list[j] == old_list[j],
            None => new_list.len() == old_list.len() + 1 && new_list.last().0@ == name && forall|j: int|
                0 <= j < old_list.len() ==> new_list[j] == old_list[j],
        },
    ensures
        first_entry(new_list, name) == (match first_entry(old_list, name) {
            Some(i) => Some(i),
            None => Some(old_list.len() as int),
        }),
        entry_value(new_list, name) == Some(new_list[match first_entry(old_list, name) {
            Some(i) => i,
            None => old_list.len() as int,
        }].1),
        forall|n: Seq<char>| n != name ==> #[trigger] entry_value(new_list, n) == entry_value(old_list, n),
{
    lemma_first_entry(old_list, name);
    match first_entry(old_list, name) {
        Some(i) => lemma_unique_first(new_list, i),
        None => lemma_unique_first(new_list, old_list.len() as int),
    }
    assert forall|n: Seq<char>| n != name implies #[trigger] entry_value(new_list, n) == entry_value(old_list, n) by {
        lemma_first_entry(old_list, n);
        lemma_first_entry(new_list, n);
        match first_entry(old_list, n) {
            Some(k) => {
                assert(new_list[k] == old_list[k]);
                lemma_unique_first(new_list, k);
            },
            None => {
                match first_entry(new_list, n) {
                    Some(k) => {
                        if k < old_list.len() {
                            assert(new_list[k] == old_list[k]);
                        }
                    },
                    None => {},
                }
            },
        }
    }
}

impl Default for TypeContext {
    fn default() -> (c: TypeContext)
        ensures
            c.struct_entries().len() == 0,
            c.union_entries().len() == 0,
            c.func_entries().len() == 0,
    {
        TypeContext::new()
    }
}

} // verus!
