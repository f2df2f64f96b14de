//! The symbol table. Name resolution owns it; later passes only read it, so
//! it offers queries and, while it is being built, insertion.

use crate::diag::Span;
use crate::frontend::resolve::module::ModuleId;
use vstd::prelude::*;

verus! {

/// A symbol's number. After resolution every reference points at a
/// `SymbolId` instead of a string.
#[derive(Debug, Clone, Copy, PartialEq, Eq, PartialOrd, Ord, Hash, Structural)]
pub struct SymbolId(pub u32);

/// The kinds of symbol of the Kore0 subset.
#[derive(Debug, Clone, Copy, PartialEq, Eq, Structural)]
pub enum SymbolKind {
    Func,
    Struct,
    Union,
    /// A struct field or a union variant.
    Member,
    Param,
    /// A local binding.
    Local,
    /// A module brought in by `use`.
    Module(ModuleId),
}

#[derive(Debug, Clone)]
pub struct Symbol {
    pub name: String,
    pub kind: SymbolKind,
    /// Where it was declared; a redefinition points at both places.
    pub span: Span,
    /// Whether it carries the mutability mark `~`.
    pub is_mut: bool,
    /// Whether it is public (`pub`).
    pub is_public: bool,
}

impl Symbol {
    /// A copy of the symbol, equal to it.
    pub fn duplicate(&self) -> (s: Symbol)
        ensures
            s == *self,
    {
        Symbol {
            name: self.name.clone(),
            kind: self.kind,
            span: self.span,
            is_mut: self.is_mut,
            is_public: self.is_public,
        }
    }
}

/// Symbols in the order they were inserted; a symbol's id is its index.
#[derive(Debug)]
pub struct SymbolTable {
    syms: Vec<Symbol>,
}

impl SymbolTable {
    /// Ids are `u32`, so the table never outgrows them.
    #[verifier::type_invariant]
    spec fn fits_ids(&self) -> bool {
        self.syms@.len() <= u32::MAX
    }
}

impl View for SymbolTable {
    type V = Seq<Symbol>;

    closed spec fn view(&self) -> Seq<Symbol> {
        self.syms@
    }
}

/// The index of the first symbol named `name`.
pub open spec fn first_named(syms: Seq<Symbol>, name: Seq<char>) -> Option<int>
    decreases syms.len(),
{
    if syms.len() == 0 {
        None
    } else {
        match first_named(syms.drop_last(), name) {
            Some(i) => Some(i),
            None => if syms.last().name@ == name {
                Some(syms.len() - 1)
            } else {
                None
            },
        }
    }
}

pub proof fn lemma_first_named(syms: Seq<Symbol>, name: Seq<char>)
    ensures
        first_named(syms, name) matches Some(i) ==> 0 <= i < syms.len() && syms[i].name@ == name
            && forall|j: int| 0 <= j < i ==> syms[j].name@ != name,
        first_named(syms, name) is None ==> forall|j: int|
            0 <= j < syms.len() ==> syms[j].name@ != name,
    decreases syms.len(),
{
    if syms.len() > 0 {
        let init = syms.drop_last();
        lemma_first_named(init, name);
        assert forall|j: int| 0 <= j < init.len() implies init[j] == syms[j] by {}
    }
}

impl SymbolTable {
    pub fn new() -> (t: SymbolTable)
        ensures
            t@ == Seq::<Symbol>::empty(),
    {
        SymbolTable { syms: Vec::new() }
    }

    /// Records a symbol and returns its id, the next index. A name may be
    /// inserted twice: whether that is legal depends on scopes, which
    /// decide it.
    pub fn insert(&mut self, sym: Symbol) -> (id: SymbolId)
        requires
            old(self)@.len() < u32::MAX,
        ensures
            id.0 == old(self)@.len(),
            final(self)@ == old(self)@.push(sym),
    {
        let id = SymbolId(self.syms.len() as u32);
        let mut syms: Vec<Symbol> = Vec::new();
        std::mem::swap(&mut syms, &mut self.syms);
        syms.push(sym);
        self.syms = syms;
        id
    }

    /// The symbol with the given id, if there is one.
    pub fn get(&self, id: SymbolId) -> (r: Option<&Symbol>)
        ensures
            r == (if (id.0 as int) < self@.len() {
                Some(&self@[id.0 as int])
            } else {
                None
            }),
    {
        let i = id.0 as usize;
        if i < self.syms.len() {
            Some(&self.syms[i])
        } else {
            None
        }
    }

    /// The id of the first symbol with the given name.
    pub fn lookup(&self, name: &str) -> (r: Option<SymbolId>)
        ensures
            r == (match first_named(self@, name@) {
                Some(i) => Some(SymbolId(i as u32)),
                None => None,
            }),
            r matches Some(id) ==> id.0 < self@.len(),
    {
        proof {
            use_type_invariant(self);
        }
        let mut i: usize = 0;
        while i < self.syms.len()
            invariant
                i <= self@.len(),
                self.syms@.len() <= u32::MAX,
                first_named(self@.take(i as int), name@) is None,
            decreases self@.len() - i,
        {
            proof {
                assert(self@.take(i + 1).drop_last() =~= self@.take(i as int));
            }
            if crate::text::string_eq_str(&self.syms[i].name, name) {
                proof {
                    lemma_first_named_prefix(self@, name@, i as int + 1);
                }
                return Some(SymbolId(i as u32));
            }
            i = i + 1;
        }
        proof {
            assert(self@.take(i as int) =~= self@);
        }
        None
    }

    pub fn len(&self) -> (n: usize)
        ensures
            n == self@.len(),
            n <= u32::MAX,
    {
        proof {
            use_type_invariant(self);
        }
        self.syms.len()
    }

    pub fn is_empty(&self) -> (b: bool)
        ensures
            b == (self@.len() == 0),
    {
        self.syms.len() == 0
    }

    /// Every symbol with its id, in id order.
    pub fn iter(&self) -> (v: Vec<(SymbolId, &Symbol)>)
        ensures
            v@.len() == self@.len(),
            forall|i: int| 0 <= i < v@.len() ==> v@[i].0.0 == i && *v@[i].1 == self@[i],
    {
        proof {
            use_type_invariant(self);
        }
        let mut v: Vec<(SymbolId, &Symbol)> = Vec::new();
        let mut i: usize = 0;
        while i < self.syms.len()
            invariant
                i <= self@.len(),
                v@.len() == i,
                self.syms@.len() <= u32::MAX,
                forall|j: int| 0 <= j < i ==> (#[trigger] v@[j]).0.0 == j && *v@[j].1 == self@[j],
            decreases self@.len() - i,
        {
            let ghost old_v = v@;
            v.push((SymbolId(i as u32), &self.syms[i]));
            proof {
                assert forall|j: int| 0 <= j < i + 1 implies (#[trigger] v@[j]).0.0 == j && *v@[j].1
                    == self@[j] by {
                    if j < i {
                        assert(v@[j] == old_v[j]);
                        assert(old_v[j].0.0 == j);
                    }
                }
            }
            i = i + 1;
        }
        v
    }
}

/// A prefix that ends in a match decides the first match of the whole.
proof fn lemma_first_named_prefix(syms: Seq<Symbol>, name: Seq<char>, k: int)
    requires
        0 < k <= syms.len(),
        first_named(syms.take(k), name) is Some,
    ensures
        first_named(syms, name) == first_named(syms.take(k), name),
    decreases syms.len(),
{
    if k < syms.len() {
        assert(syms.drop_last().take(k) =~= syms.take(k));
        lemma_first_named_prefix(syms.drop_last(), name, k);
    } else {
        assert(syms.take(k) =~= syms);
    }
}

} // verus!
