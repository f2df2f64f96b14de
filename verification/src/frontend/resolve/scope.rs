//! The scope stack.
//!
//! Names are looked up along a chain: local scopes from the innermost
//! outwards, then the module-level `::` bindings. Built-ins are the
//! caller's concern.

use crate::diag::{DiagLoc, DiagSink, Diagnostic, Severity, Span, SubDiag};
use crate::frontend::resolve::symbols::SymbolId;
use crate::text::{concat3, string_eq_str};
use vstd::prelude::*;

verus! {

/// The binding of `k` in a list of bindings: the one written last.
pub open spec fn latest_binding(s: Seq<(String, SymbolId)>, k: Seq<char>) -> Option<SymbolId>
    decreases s.len(),
{
    if s.len() == 0 {
        None
    } else if s.last().0@ == k {
        Some(s.last().1)
    } else {
        latest_binding(s.drop_last(), k)
    }
}

/// The bindings of a list, as a map from names to symbols.
pub open spec fn bindings_map(s: Seq<(String, SymbolId)>) -> Map<Seq<char>, SymbolId> {
    Map::new(|k: Seq<char>| latest_binding(s, k) is Some, |k: Seq<char>| latest_binding(s, k)->0)
}

/// One scope: names bound to symbols.
#[derive(Debug)]
pub struct Scope {
    bindings: Vec<(String, SymbolId)>,
}

impl View for Scope {
    type V = Map<Seq<char>, SymbolId>;

    closed spec fn view(&self) -> Map<Seq<char>, SymbolId> {
        bindings_map(self.bindings@)
    }
}

impl Default for Scope {
    fn default() -> (s: Scope)
        ensures
            s@ == Map::<Seq<char>, SymbolId>::empty(),
    {
        Scope::new()
    }
}

impl Scope {
    pub fn new() -> (s: Scope)
        ensures
            s@ == Map::<Seq<char>, SymbolId>::empty(),
    {
        let s = Scope { bindings: Vec::new() };
        proof {
            assert(s@ =~= Map::<Seq<char>, SymbolId>::empty());
        }
        s
    }

    /// The symbol `name` is bound to in this scope.
    pub fn lookup(&self, name: &str) -> (r: Option<SymbolId>)
        ensures
            r == (if self@.contains_key(name@) {
                Some(self@[name@])
            } else {
                None
            }),
    {
        let mut i = self.bindings.len();
        proof {
            assert(self.bindings@.take(i as int) =~= self.bindings@);
        }
        while i > 0
            invariant
                i <= self.bindings@.len(),
                latest_binding(self.bindings@, name@) == latest_binding(
                    self.bindings@.take(i as int),
                    name@,
                ),
            decreases i,
        {
            proof {
                assert(self.bindings@.take(i as int).drop_last() =~= self.bindings@.take(i - 1));
            }
            if string_eq_str(&self.bindings[i - 1].0, name) {
                return Some(self.bindings[i - 1].1);
            }
            i = i - 1;
        }
        None
    }

    /// Binds `name` to `id` in this scope. Returns the symbol it was bound
    /// to before, if any (a redefinition); the new binding replaces it.
    pub fn insert(&mut self, name: String, id: SymbolId) -> (r: Option<SymbolId>)
        ensures
            r == (if old(self)@.contains_key(name@) {
                Some(old(self)@[name@])
            } else {
                None
            }),
            final(self)@ == old(self)@.insert(name@, id),
    {
        let r = self.lookup(name.as_str());
        let ghost k = name@;
        self.bindings.push((name, id));
        proof {
            assert(self.bindings@.drop_last() =~= old(self).bindings@);
            assert(self@ =~= old(self)@.insert(k, id));
        }
        r
    }

    /// Whether `name` is bound in this scope.
    pub fn contains(&self, name: &str) -> (b: bool)
        ensures
            b == self@.contains_key(name@),
    {
        self.lookup(name).is_some()
    }
}

/// The symbol a name resolves to through local scopes, innermost first,
/// and then the module scope.
pub open spec fn resolve_in(locals: Seq<Map<Seq<char>, SymbolId>>, module: Map<Seq<char>, SymbolId>, k: Seq<char>) -> Option<SymbolId>
    decreases locals.len(),
{
    if locals.len() == 0 {
        if module.contains_key(k) {
            Some(module[k])
        } else {
            None
        }
    } else if locals.last().contains_key(k) {
        Some(locals.last()[k])
    } else {
        resolve_in(locals.drop_last(), module, k)
    }
}

/// A name found nowhere is not bound at module level either.
pub proof fn lemma_resolve_none(locals: Seq<Map<Seq<char>, SymbolId>>, module: Map<Seq<char>, SymbolId>, k: Seq<char>)
    ensures
        resolve_in(locals, module, k) is None ==> !module.contains_key(k),
    decreases locals.len(),
{
    if locals.len() > 0 {
        lemma_resolve_none(locals.drop_last(), module, k);
    }
}

/// The stack of nested local scopes, with the module scope beside it.
///
/// Redefining a name in one scope is an error the caller reports; an inner
/// scope may shadow an outer one.
#[derive(Debug)]
pub struct ScopeStack {
    /// Innermost last.
    scopes: Vec<Scope>,
    /// Module-level `::` bindings, visible from everywhere in the module.
    module_scope: Scope,
}

impl ScopeStack {
    /// The local scopes, outermost first.
    pub closed spec fn locals(&self) -> Seq<Map<Seq<char>, SymbolId>> {
        self.scopes@.map_values(|s: Scope| s@)
    }

    /// The module-level bindings.
    pub closed spec fn module(&self) -> Map<Seq<char>, SymbolId> {
        self.module_scope@
    }

    pub fn new() -> (s: ScopeStack)
        ensures
            s.locals() == Seq::<Map<Seq<char>, SymbolId>>::empty(),
            s.module() == Map::<Seq<char>, SymbolId>::empty(),
    {
        let s = ScopeStack { scopes: Vec::new(), module_scope: Scope::new() };
        proof {
            assert(s.locals() =~= Seq::<Map<Seq<char>, SymbolId>>::empty());
        }
        s
    }

    /// Enters a new, empty scope (function body, block, loop, ...).
    pub fn push_scope(&mut self)
        ensures
            final(self).locals() == old(self).locals().push(Map::<Seq<char>, SymbolId>::empty()),
            final(self).module() == old(self).module(),
    {
        self.scopes.push(Scope::new());
        proof {
            assert(self.locals() =~= old(self).locals().push(Map::<Seq<char>, SymbolId>::empty()));
        }
    }

    /// Leaves the innermost scope.
    pub fn pop_scope(&mut self)
        requires
            old(self).locals().len() > 0,
        ensures
            final(self).locals() == old(self).locals().drop_last(),
            final(self).module() == old(self).module(),
    {
        self.scopes.pop();
        proof {
            assert(self.locals() =~= old(self).locals().drop_last());
        }
    }

    /// Defines `name` in the innermost scope. `Err` carries the symbol the
    /// name was already bound to there, a redefinition the caller reports;
    /// the new binding replaces it either way.
    pub fn define_local(&mut self, name: String, id: SymbolId) -> (r: Result<(), SymbolId>)
        requires
            old(self).locals().len() > 0,
        ensures
            r == (if old(self).locals().last().contains_key(name@) {
                Err(old(self).locals().last()[name@])
            } else {
                Ok(())
            }),
            final(self).locals() == old(self).locals().drop_last().push(
                old(self).locals().last().insert(name@, id),
            ),
            final(self).module() == old(self).module(),
    {
        let mut current = self.scopes.pop().unwrap();
        let r = current.insert(name, id);
        self.scopes.push(current);
        proof {
            assert(self.locals() =~= old(self).locals().drop_last().push(
                old(self).locals().last().insert(name@, id),
            ));
        }
        match r {
            None => Ok(()),
            Some(old_id) => Err(old_id),
        }
    }

    /// Defines a module-level `::` binding. `Err` carries the symbol the
    /// name was already bound to; the new binding replaces it either way.
    pub fn define_module(&mut self, name: String, id: SymbolId) -> (r: Result<(), SymbolId>)
        ensures
            r == (if old(self).module().contains_key(name@) {
                Err(old(self).module()[name@])
            } else {
                Ok(())
            }),
            final(self).locals() == old(self).locals(),
            final(self).module() == old(self).module().insert(name@, id),
    {
        match self.module_scope.insert(name, id) {
            None => Ok(()),
            Some(old_id) => Err(old_id),
        }
    }

    /// Looks a name up: local scopes from the innermost out, then the
    /// module scope. `None` leaves built-ins to the caller.
    pub fn lookup(&self, name: &str) -> (r: Option<SymbolId>)
        ensures
            r == resolve_in(self.locals(), self.module(), name@),
    {
        let mut i = self.scopes.len();
        proof {
            assert(self.locals().take(i as int) =~= self.locals());
        }
        while i > 0
            invariant
                i <= self.scopes@.len(),
                resolve_in(self.locals(), self.module(), name@) == resolve_in(
                    self.locals().take(i as int),
                    self.module(),
                    name@,
                ),
            decreases i,
        {
            proof {
                assert(self.locals().take(i as int).drop_last() =~= self.locals().take(i - 1));
                assert(self.locals().take(i as int).last() == self.scopes@[i - 1]@);
            }
            match self.scopes[i - 1].lookup(name) {
                Some(id) => {
                    return Some(id);
                },
                None => {},
            }
            i = i - 1;
        }
        proof {
            assert(self.locals().take(0) =~= Seq::<Map<Seq<char>, SymbolId>>::empty());
        }
        self.module_scope.lookup(name)
    }

    /// Looks a name up in the module scope only (forward references to
    /// `::` bindings).
    pub fn lookup_module(&self, name: &str) -> (r: Option<SymbolId>)
        ensures
            r == (if self.module().contains_key(name@) {
                Some(self.module()[name@])
            } else {
                None
            }),
    {
        self.module_scope.lookup(name)
    }

    /// Whether any local scope is open.
    pub fn in_local_scope(&self) -> (b: bool)
        ensures
            b == (self.locals().len() > 0),
    {
        self.scopes.len() > 0
    }

    /// The number of open local scopes (0 is module level).
    pub fn depth(&self) -> (n: usize)
        ensures
            n == self.locals().len(),
    {
        self.scopes.len()
    }
}

impl Default for ScopeStack {
    fn default() -> (s: ScopeStack)
        ensures
            s.locals() == Seq::<Map<Seq<char>, SymbolId>>::empty(),
            s.module() == Map::<Seq<char>, SymbolId>::empty(),
    {
        ScopeStack::new()
    }
}

/// A name defined in the innermost scope is found there, whatever outer
/// scopes and the module scope bind it to.
pub proof fn law_innermost_definition_wins(
    locals: Seq<Map<Seq<char>, SymbolId>>,
    module: Map<Seq<char>, SymbolId>,
    name: Seq<char>,
    id: SymbolId,
)
    requires
        locals.len() > 0,
    ensures
        resolve_in(locals.drop_last().push(locals.last().insert(name, id)), module, name) == Some(
            id,
        ),
{
    let l2 = locals.drop_last().push(locals.last().insert(name, id));
    assert(l2.last() == locals.last().insert(name, id));
}

/// Entering a scope and leaving it again restores what every name
/// resolves to.
pub proof fn law_pop_restores_lookup(
    locals: Seq<Map<Seq<char>, SymbolId>>,
    inner: Map<Seq<char>, SymbolId>,
    module: Map<Seq<char>, SymbolId>,
    name: Seq<char>,
)
    ensures
        resolve_in(locals.push(inner).drop_last(), module, name) == resolve_in(locals, module, name),
{
    assert(locals.push(inner).drop_last() =~= locals);
}

/// A name not bound in any local scope resolves to its module-level
/// binding.
pub proof fn law_module_scope_is_outermost(
    locals: Seq<Map<Seq<char>, SymbolId>>,
    module: Map<Seq<char>, SymbolId>,
    name: Seq<char>,
)
    requires
        forall|i: int| 0 <= i < locals.len() ==> !(#[trigger] locals[i]).contains_key(name),
    ensures
        resolve_in(locals, module, name) == (if module.contains_key(name) {
            Some(module[name])
        } else {
            None
        }),
    decreases locals.len(),
{
    if locals.len() > 0 {
        let l = locals.drop_last();
        assert forall|i: int| 0 <= i < l.len() implies !(#[trigger] l[i]).contains_key(name) by {
            assert(l[i] == locals[i]);
        }
        assert(!locals[locals.len() - 1].contains_key(name));
        law_module_scope_is_outermost(l, module, name);
    }
}

/// Reports a redefinition in one scope (E4003), pointing at both the new
/// definition and the first one.
pub fn emit_redefinition_error(sink: &mut DiagSink, name: &str, new_span: Span, old_span: Span)
    ensures
        final(sink)@.len() == old(sink)@.len() + 1,
        final(sink)@.drop_last() == old(sink)@,
        final(sink)@.last().code == 4003,
        final(sink)@.last().severity == Severity::Error,
        final(sink)@.last().msg@ == "重定义名字 `"@ + name@ + "`"@,
        final(sink)@.last().loc == DiagLoc::At(new_span),
        final(sink)@.last().children@.len() == 1,
        final(sink)@.last().children@[0].severity == Severity::Note,
        final(sink)@.last().children@[0].msg@ == "首次定义在此"@,
        final(sink)@.last().children@[0].loc == DiagLoc::At(old_span),
{
    let d = Diagnostic::error(4003, concat3("重定义名字 `", name, "`"), DiagLoc::At(new_span)).child(
        SubDiag::new(Severity::Note, "首次定义在此").at(old_span),
    );
    sink.emit(d);
    proof {
        assert(sink@.drop_last() =~= old(sink)@);
    }
}

} // verus!
