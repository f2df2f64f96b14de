//! Building the symbol table: walks the AST and fills the table and the
//! scope stack.
//!
//! Two passes: the first collects every module-level `::` binding
//! (functions, structs, unions), the second resolves function bodies and
//! local scopes, so forward references inside a module are legal.

use crate::diag::{DiagLoc, DiagSink, Diagnostic, ErrorCode, FileId, Span};
use crate::frontend::ast::{Expr, Item, Module, Param, Pattern, Stmt};
use crate::frontend::resolve::module::{emit_undefined_module, last_with_name, ModuleId, ModuleInfo, ModuleRegistry};
use crate::frontend::resolve::names::{
    bind_all, bind_name, item_reports, lemma_param_names_push, lemma_reports_names_no_undefined, param_names, items_reports, lemma_reports_names_none, lemma_reports_names_one,
    lemma_reports_names_other, lemma_reports_names_trans, lemma_resolve_visible, local_names, pattern_names, reports_names,
    res_arms, res_expr, res_list, res_stmt, res_stmts, Locals, NameReport,
};
use crate::frontend::resolve::scope::{emit_redefinition_error, ScopeStack};
use crate::frontend::resolve::symbols::{Symbol, SymbolId, SymbolKind, SymbolTable};
use crate::text::{concat3, join, joined, str_eq, string_eq_str};
use vstd::prelude::*;

verus! {

/// Which pass the resolver is in.
#[derive(Debug, Clone, Copy, PartialEq, Eq, Structural)]
enum Phase {
    /// First pass: module-level `::` bindings only.
    CollectModuleItems,
    /// Second pass: function bodies and local scopes.
    ResolveLocals,
}

/// The names of the built-in functions, registered before any item.
pub open spec fn builtin_names() -> Seq<Seq<char>> {
    seq!["print"@, "println"@, "eprint"@, "eprintln"@, "read_file"@, "write_file"@]
}

/// The message that reports `n` as undefined.
pub open spec fn undefined_name_msg(n: Seq<char>) -> Seq<char> {
    "未定义的名字 `"@ + n + "`"@
}

/// `b` holds `a` and perhaps more after it.
pub open spec fn extends(a: Seq<Diagnostic>, b: Seq<Diagnostic>) -> bool {
    a.len() <= b.len() && forall|i: int| 0 <= i < a.len() ==> #[trigger] b[i] == a[i]
}

/// `d` reports none of `names` as undefined.
pub open spec fn spares(d: Diagnostic, names: Set<Seq<char>>) -> bool {
    d.code == 4002 ==> forall|n: Seq<char>| #[trigger] names.contains(n) ==> d.msg@ != undefined_name_msg(n)
}

/// `b` holds `a`, then reports that call none of `names` undefined.
pub open spec fn reports_sparing(a: Seq<Diagnostic>, b: Seq<Diagnostic>, names: Set<Seq<char>>) -> bool {
    &&& extends(a, b)
    &&& forall|i: int| a.len() <= i < b.len() ==> spares(#[trigger] b[i], names)
}

/// `b` holds `a`, then reports none of which is of an undefined name.
pub open spec fn reports_no_undefined(a: Seq<Diagnostic>, b: Seq<Diagnostic>) -> bool {
    &&& extends(a, b)
    &&& forall|i: int| a.len() <= i < b.len() ==> (#[trigger] b[i]).code != 4002
}

/// The name a module-level item binds: that of a function, a struct or a
/// union.
pub open spec fn item_binding(it: Item) -> Option<Seq<char>> {
    match it {
        Item::Func(f) => Some(f.name@),
        Item::Struct(s) => Some(s.name@),
        Item::Union(u) => Some(u.name@),
        Item::Use(_) => None,
    }
}

/// The names bound at module level: the built-ins and the items' names.
pub open spec fn module_level_names(items: Seq<Item>) -> Set<Seq<char>> {
    Set::new(
        |n: Seq<char>|
            builtin_names().contains(n) || exists|i: int| 0 <= i < items.len() && #[trigger] item_binding(items[i]) == Some(n),
    )
}

/// Whether an item is a `use` whose path ends in `n`.
pub open spec fn uses_name(it: Item, n: Seq<char>) -> bool {
    match it {
        Item::Use(u) => u.segments@.len() > 0 && u.segments@.last()@ == n,
        _ => false,
    }
}

/// The names that the `use` items of a module end in.
pub open spec fn used_names(items: Seq<Item>) -> Set<Seq<char>> {
    Set::new(|n: Seq<char>| exists|i: int| 0 <= i < items.len() && #[trigger] uses_name(items[i], n))
}

/// Whether an item of `items` binds `n` at module level, or is a `use`
/// that ends in `n`.
pub open spec fn item_declares(items: Seq<Item>, n: Seq<char>) -> bool {
    exists|i: int| 0 <= i < items.len() && (#[trigger] item_binding(items[i]) == Some(n) || uses_name(items[i], n))
}

/// Whether `it` is a `use` of a module that `ms` does not hold: its path
/// ends in a name that no registered module has.
pub open spec fn unknown_use(ms: Seq<ModuleInfo>, it: Item) -> bool {
    it matches Item::Use(u) && u.segments@.len() > 0 && last_with_name(ms, u.segments@.last()@) is None
}

/// `b` holds, after the diagnostics of `a`, an E4006 report at `span`.
pub open spec fn reports_unknown_module(a: Seq<Diagnostic>, b: Seq<Diagnostic>, span: Span) -> bool {
    exists|k: int| a.len() <= k < b.len() && (#[trigger] b[k]).code == 4006 && b[k].loc == DiagLoc::At(span)
}

/// Every name of `b` is one of `a` or `n`.
pub open spec fn adds_at_most(a: Map<Seq<char>, SymbolId>, b: Map<Seq<char>, SymbolId>, n: Seq<char>) -> bool {
    forall|k: Seq<char>| #[trigger] b.contains_key(k) ==> a.contains_key(k) || k == n
}

proof fn lemma_undefined_msg_injective(a: Seq<char>, b: Seq<char>)
    requires
        undefined_name_msg(a) == undefined_name_msg(b),
    ensures
        a == b,
{
    let p = "未定义的名字 `"@;
    let q = "`"@;
    assert(undefined_name_msg(a) == p + a + q);
    assert(undefined_name_msg(b) == p + b + q);
    assert((p + a + q).len() == p.len() + a.len() + q.len());
    assert((p + b + q).len() == p.len() + b.len() + q.len());
    assert(a.len() == b.len());
    assert forall|k: int| 0 <= k < a.len() implies a[k] == b[k] by {
        assert(undefined_name_msg(a)[p.len() + k] == a[k]);
        assert(undefined_name_msg(b)[p.len() + k] == b[k]);
    }
    assert(a =~= b);
}

proof fn lemma_recorded_span_some(spans: Seq<(String, Span)>, name: Seq<char>)
    ensures
        recorded_span(spans, name) is Some ==> exists|j: int| 0 <= j < spans.len() && (#[trigger] spans[j]).0@ == name,
    decreases spans.len(),
{
    if spans.len() > 0 {
        lemma_recorded_span_some(spans.drop_last(), name);
        if recorded_span(spans.drop_last(), name) is Some {
            let j = choose|j: int| 0 <= j < spans.drop_last().len() && (#[trigger] spans.drop_last()[j]).0@ == name;
            assert(spans[j] == spans.drop_last()[j]);
        } else if spans.last().0@ == name {
            assert(spans[spans.len() - 1] == spans.last());
        }
    }
}

/// The name resolver: the symbol table, the scope stack, and where
/// diagnostics go.
pub struct Resolver<'a> {
    table: SymbolTable,
    scopes: ScopeStack,
    sink: &'a mut DiagSink,
    /// Where each module-level symbol was defined, for redefinitions.
    module_spans: Vec<(String, Span)>,
    phase: Phase,
    /// The registry of modules, when several files are compiled.
    registry: Option<&'a mut ModuleRegistry>,
    current_module: Option<ModuleId>,
}

/// The first recorded span of a module-level name.
pub open spec fn recorded_span(spans: Seq<(String, Span)>, name: Seq<char>) -> Option<Span>
    decreases spans.len(),
{
    if spans.len() == 0 {
        None
    } else {
        match recorded_span(spans.drop_last(), name) {
            Some(s) => Some(s),
            None => if spans.last().0@ == name {
                Some(spans.last().1)
            } else {
                None
            },
        }
    }
}

fn find_span(spans: &Vec<(String, Span)>, name: &str) -> (r: Option<Span>)
    ensures
        r == recorded_span(spans@, name@),
{
    let mut i: usize = 0;
    while i < spans.len()
        invariant
            i <= spans@.len(),
            recorded_span(spans@.take(i as int), name@) is None,
        decreases spans@.len() - i,
    {
        proof {
            assert(spans@.take(i + 1).drop_last() =~= spans@.take(i as int));
        }
        if string_eq_str(&spans[i].0, name) {
            proof {
                lemma_recorded_span_prefix(spans@, name@, i + 1);
            }
            return Some(spans[i].1);
        }
        i = i + 1;
    }
    proof {
        assert(spans@.take(i as int) =~= spans@);
    }
    None
}

proof fn lemma_recorded_span_prefix(spans: Seq<(String, Span)>, name: Seq<char>, k: int)
    requires
        0 < k <= spans.len(),
        recorded_span(spans.take(k), name) is Some,
    ensures
        recorded_span(spans, name) == recorded_span(spans.take(k), name),
    decreases spans.len(),
{
    if k < spans.len() {
        assert(spans.drop_last().take(k) =~= spans.take(k));
        lemma_recorded_span_prefix(spans.drop_last(), name, k);
    } else {
        assert(spans.take(k) =~= spans);
    }
}

/// Every name of `a` is a name of `b`.
pub open spec fn dom_grows(a: Map<Seq<char>, SymbolId>, b: Map<Seq<char>, SymbolId>) -> bool {
    forall|n: Seq<char>| a.contains_key(n) ==> #[trigger] b.contains_key(n)
}

/// The table only grows: what it held stays where it was.
pub open spec fn table_grows(a: Seq<Symbol>, b: Seq<Symbol>) -> bool {
    a.len() <= b.len() && forall|i: int| 0 <= i < a.len() ==> #[trigger] b[i] == a[i]
}

impl<'a> Resolver<'a> {
    /// The symbols defined so far.
    pub closed spec fn symbols(&self) -> Seq<Symbol> {
        self.table@
    }

    /// The diagnostics reported so far.
    pub closed spec fn reported(&self) -> Seq<Diagnostic> {
        self.sink@
    }

    /// Where diagnostics go.
    pub closed spec fn sink_ref(&self) -> &'a mut DiagSink {
        self.sink
    }

    /// Unless the table filled up, the local scopes hold the names of `r`
    /// and the reports since `before` are those of `r`.
    closed spec fn resolved_as(&self, before: &Resolver<'a>, r: (Locals, Seq<NameReport>)) -> bool {
        self.table@.len() < 0xffff_ffff ==> {
            &&& local_names(self.scopes.locals()) == r.0
            &&& reports_names(before.sink@, self.sink@, r.1)
        }
    }

    /// The modules of the registry, when there is one.
    pub closed spec fn registry_infos(&self) -> Option<Seq<ModuleInfo>> {
        match self.registry {
            Some(r) => Some(r.infos()),
            None => None,
        }
    }

    /// Inside a function body a local scope is open.
    closed spec fn inv(&self) -> bool {
        self.phase == Phase::ResolveLocals ==> self.scopes.locals().len() > 0
    }

    /// Every name with a recorded definition is bound at module level.
    closed spec fn spans_bound(&self) -> bool {
        &&& forall|j: int|
            0 <= j < self.module_spans@.len() ==> self.scopes.module().contains_key(#[trigger] self.module_spans@[j].0@)
        &&& forall|k: Seq<char>|
            #[trigger] self.scopes.module().contains_key(k) ==> (self.scopes.module()[k].0 as int) < self.table@.len()
                && self.table@[self.scopes.module()[k].0 as int].name@ == k
    }

    /// The built-in functions are bound at module level.
    closed spec fn builtins_bound(&self) -> bool {
        forall|k: int| 0 <= k < 6 ==> self.scopes.module().contains_key(#[trigger] builtin_names()[k])
    }

    /// Freshly made: no local scope open, the built-ins bound.
    pub closed spec fn ready(&self) -> bool {
        &&& self.scopes.locals().len() == 0
        &&& self.spans_bound()
        &&& self.builtins_bound()
        &&& forall|k: Seq<char>| #[trigger] self.scopes.module().contains_key(k) ==> builtin_names().contains(k)
    }

    /// A resolver for a single file, with the built-in functions defined.
    pub fn new(sink: &'a mut DiagSink) -> (r: Resolver<'a>)
        ensures
            r.symbols().len() == 6,
            forall|i: int| 0 <= i < 6 ==> (#[trigger] r.symbols()[i]).name@ == builtin_names()[i]
                && r.symbols()[i].kind == SymbolKind::Func,
            r.reported() == old(sink)@,
            *final(r.sink_ref()) == *final(sink),
            r.ready(),
            r.registry_infos() is None,
    {
        let mut resolver = Resolver {
            table: SymbolTable::new(),
            scopes: ScopeStack::default(),
            sink,
            module_spans: Vec::new(),
            phase: Phase::CollectModuleItems,
            registry: None,
            current_module: None,
        };
        resolver.register_builtins();
        resolver
    }

    /// A resolver for one module of several, with the built-in functions
    /// defined.
    pub fn with_registry(sink: &'a mut DiagSink, registry: &'a mut ModuleRegistry, current_module: ModuleId) -> (r: Resolver<'a>)
        ensures
            r.symbols().len() == 6,
            forall|i: int| 0 <= i < 6 ==> (#[trigger] r.symbols()[i]).name@ == builtin_names()[i]
                && r.symbols()[i].kind == SymbolKind::Func,
            r.reported() == old(sink)@,
            *final(r.sink_ref()) == *final(sink),
            r.ready(),
            r.registry_infos() == Some(old(registry).infos()),
    {
        let mut resolver = Resolver {
            table: SymbolTable::new(),
            scopes: ScopeStack::default(),
            sink,
            module_spans: Vec::new(),
            phase: Phase::CollectModuleItems,
            registry: Some(registry),
            current_module: Some(current_module),
        };
        resolver.register_builtins();
        resolver
    }

    /// Defines one built-in function in the module scope.
    fn register_builtin(&mut self, name: &str)
        requires
            old(self).table@.len() < 6,
            old(self).spans_bound(),
        ensures
            final(self).table@ == old(self).table@.push(
                Symbol {
                    name: final(self).table@.last().name,
                    kind: SymbolKind::Func,
                    span: Span { file: FileId(0), lo: 0, hi: 0 },
                    is_mut: false,
                    is_public: false,
                },
            ),
            final(self).table@.last().name@ == name@,
            final(self).phase == old(self).phase,
            final(self).scopes.locals() == old(self).scopes.locals(),
            *final(self).sink == *old(self).sink,
            *final(final(self).sink) == *final(old(self).sink),
            final(self).spans_bound(),
            dom_grows(old(self).scopes.module(), final(self).scopes.module()),
            final(self).scopes.module().contains_key(name@),
            adds_at_most(old(self).scopes.module(), final(self).scopes.module(), name@),
            final(self).registry_infos() == old(self).registry_infos(),
    {
        let sym = Symbol {
            name: String::from_str(name),
            kind: SymbolKind::Func,
            span: Span::new(FileId(0), 0, 0),
            is_mut: false,
            is_public: false,
        };
        let id = self.table.insert(sym);
        // Built-ins never clash.
        let _ = self.scopes.define_module(String::from_str(name), id);
        self.module_spans.push((String::from_str(name), Span::new(FileId(0), 0, 0)));
        proof {
            assert forall|j: int| 0 <= j < self.module_spans@.len() implies self.scopes.module().contains_key(
                #[trigger] self.module_spans@[j].0@,
            ) by {
                if j < self.module_spans@.len() - 1 {
                    assert(self.module_spans@[j] == old(self).module_spans@[j]);
                }
            }
        }
    }

    /// Registers the built-in functions in the table and the module scope.
    fn register_builtins(&mut self)
        requires
            old(self).table@.len() == 0,
            old(self).module_spans@.len() == 0,
            old(self).scopes.module() == Map::<Seq<char>, SymbolId>::empty(),
        ensures
            final(self).table@.len() == 6,
            forall|i: int| 0 <= i < 6 ==> (#[trigger] final(self).table@[i]).name@ == builtin_names()[i]
                && final(self).table@[i].kind == SymbolKind::Func,
            final(self).phase == old(self).phase,
            final(self).scopes.locals() == old(self).scopes.locals(),
            *final(self).sink == *old(self).sink,
            *final(final(self).sink) == *final(old(self).sink),
            final(self).spans_bound(),
            final(self).builtins_bound(),
            forall|k: Seq<char>| #[trigger] final(self).scopes.module().contains_key(k) ==> old(self).scopes.module().contains_key(k)
                || builtin_names().contains(k),
            final(self).registry_infos() == old(self).registry_infos(),
    {
        proof {
            reveal_strlit("print");
            reveal_strlit("println");
            reveal_strlit("eprint");
            reveal_strlit("eprintln");
            reveal_strlit("read_file");
            reveal_strlit("write_file");
        }
        self.register_builtin("print");
        self.register_builtin("println");
        self.register_builtin("eprint");
        self.register_builtin("eprintln");
        self.register_builtin("read_file");
        self.register_builtin("write_file");
        proof {
            assert forall|k: Seq<char>| #[trigger] self.scopes.module().contains_key(k) implies old(self).scopes.module().contains_key(k)
                || builtin_names().contains(k) by {
                if !old(self).scopes.module().contains_key(k) {
                    assert(k == builtin_names()[0] || k == builtin_names()[1] || k == builtin_names()[2] || k == builtin_names()[3]
                        || k == builtin_names()[4] || k == builtin_names()[5]);
                }
            }
            assert(self.scopes.module().contains_key(builtin_names()[0]));
            assert(self.scopes.module().contains_key(builtin_names()[1]));
            assert(self.scopes.module().contains_key(builtin_names()[2]));
            assert(self.scopes.module().contains_key(builtin_names()[3]));
            assert(self.scopes.module().contains_key(builtin_names()[4]));
            assert(self.scopes.module().contains_key(builtin_names()[5]));
        }
    }

    /// Runs both passes over `module` and returns the filled symbol table.
    /// The first pass binds every item at module level, so a body may name
    /// an item declared after it: no name bound at module level (an item's
    /// or a built-in's) is ever reported undefined, unless the table ran
    /// out of ids.
    pub fn resolve(self, module: &Module) -> (t: SymbolTable)
        requires
            self.ready(),
        ensures
            t@.len() >= self.symbols().len(),
            forall|i: int| 0 <= i < self.symbols().len() ==> t@[i] == self.symbols()[i],
            extends(old(self.sink_ref())@, final(self.sink_ref())@),
            t@.len() < 0xffff_ffff ==> reports_sparing(
                old(self.sink_ref())@,
                final(self.sink_ref())@,
                module_level_names(module.items@),
            ),
            t@.len() < 0xffff_ffff ==> exists|md: Set<Seq<char>>|
                {
                    &&& module_level_names(module.items@).subset_of(md)
                    &&& md.subset_of(module_level_names(module.items@).union(used_names(module.items@)))
                    &&& reports_names(
                        old(self.sink_ref())@,
                        final(self.sink_ref())@,
                        items_reports(md, module.items@),
                    )
                },
            t@.len() < 0xffff_ffff ==> forall|i: int|
                0 <= i < module.items@.len() && (#[trigger] item_binding(module.items@[i])) is Some ==> exists|j: int|
                    0 <= j < t@.len() && t@[j].name@ == item_binding(module.items@[i])->0,
            self.registry_infos() matches Some(ms) ==> forall|k: int|
                0 <= k < module.items@.len() && unknown_use(ms, #[trigger] module.items@[k]) ==> reports_unknown_module(
                    old(self.sink_ref())@,
                    final(self.sink_ref())@,
                    module.items@[k]->Use_0.span,
                ),
    {
        let mut this = self;
        let ghost s0 = this.sink@;
        this.phase = Phase::CollectModuleItems;
        this.visit_module(module);
        let ghost s1 = this.sink@;
        let ghost table1 = this.table@;
        let ghost m1 = this.scopes.module();
        proof {
            assert(this.spans_bound());
        }
        // Fill the export table right after the first pass, so the next
        // module sees this one's exports in its second pass. Private
        // symbols go in too, for the visibility check.
        let current = this.current_module;
        match (&mut this.registry, current) {
            (Some(registry), Some(current_module)) => {
                match registry.get_module_mut(current_module) {
                    Some(info) => {
                        let syms = this.table.iter();
                        let mut i: usize = 0;
                        while i < syms.len()
                            decreases syms@.len() - i,
                        {
                            let sym = syms[i].1;
                            match sym.kind {
                                SymbolKind::Func | SymbolKind::Struct | SymbolKind::Union => {
                                    if info.exports.len() < 0xffff_fffe {
                                        info.exports.insert(sym.duplicate());
                                    }
                                },
                                _ => {},
                            }
                            i = i + 1;
                        }
                    },
                    None => {},
                }
            },
            _ => {},
        }
        this.phase = Phase::ResolveLocals;
        let ghost s2 = this.sink@;
        this.visit_module(module);
        proof {
            if let Some(ms) = self.registry_infos() {
                assert forall|k: int|
                    0 <= k < module.items@.len() && unknown_use(ms, #[trigger] module.items@[k]) implies reports_unknown_module(
                    s0,
                    this.sink@,
                    module.items@[k]->Use_0.span,
                ) by {
                    let sp = module.items@[k]->Use_0.span;
                    let x = choose|x: int|
                        s0.len() <= x < s1.len() && (#[trigger] s1[x]).code == 4006 && s1[x].loc == DiagLoc::At(sp);
                    assert(s2 == s1);
                    assert(this.sink@[x] == s1[x]);
                }
            }
        }
        proof {
            if this.table@.len() < 0xffff_ffff {
                let names = module_level_names(module.items@);
                assert forall|n: Seq<char>| #[trigger] names.contains(n) implies m1.contains_key(n) by {
                    if builtin_names().contains(n) {
                        let k = choose|k: int| 0 <= k < builtin_names().len() && builtin_names()[k] == n;
                        assert(m1.contains_key(builtin_names()[k]));
                    } else {
                        let i = choose|i: int|
                            0 <= i < module.items@.len() && #[trigger] item_binding(module.items@[i]) == Some(n);
                        assert(item_binding(module.items@[i]) matches Some(x) && x == n);
                    }
                }
                assert forall|i: int| s0.len() <= i < this.sink@.len() implies spares(#[trigger] this.sink@[i], names) by {
                    if i < s1.len() {
                        assert(this.sink@[i] == s1[i]);
                    } else {
                        assert(spares(this.sink@[i], m1.dom()));
                    }
                }
                let md = m1.dom();
                assert(names.subset_of(md));
                assert forall|i: int|
                    0 <= i < module.items@.len() && (#[trigger] item_binding(module.items@[i])) is Some implies exists|j: int|
                        0 <= j < this.table@.len() && this.table@[j].name@ == item_binding(module.items@[i])->0 by {
                    let n = item_binding(module.items@[i])->0;
                    assert(names.contains(n));
                    assert(m1.contains_key(n));
                    let j = m1[n].0 as int;
                    assert(table1[j].name@ == n);
                    assert(this.table@[j] == table1[j]);
                }
                assert forall|n: Seq<char>| #[trigger] md.contains(n) implies names.union(used_names(module.items@)).contains(n) by {
                    if !builtin_names().contains(n) {
                        let i = choose|i: int|
                            0 <= i < module.items@.len() && (#[trigger] item_binding(module.items@[i]) == Some(n)
                                || uses_name(module.items@[i], n));
                        if uses_name(module.items@[i], n) {
                            assert(used_names(module.items@).contains(n));
                        } else {
                            assert(names.contains(n));
                        }
                    }
                }
                lemma_reports_names_no_undefined(s0, s1);
                lemma_reports_names_trans(s0, s1, this.sink@, Seq::empty(), items_reports(md, module.items@));
                assert(Seq::<NameReport>::empty() + items_reports(md, module.items@) =~= items_reports(md, module.items@));
                assert(reports_names(s0, this.sink@, items_reports(md, module.items@)));
                assert(module_level_names(module.items@).subset_of(md));
            }
        }
        this.table
    }

    /// Defines a module-level symbol; reports a redefinition instead.
    fn define_module_symbol(&mut self, name: String, kind: SymbolKind, span: Span, is_public: bool) -> (r: Option<SymbolId>)
        requires
            old(self).spans_bound(),
        ensures
            final(self).phase == old(self).phase,
            *final(final(self).sink) == *final(old(self).sink),
            final(self).scopes.locals() == old(self).scopes.locals(),
            table_grows(old(self).table@, final(self).table@),
            final(self).spans_bound(),
            dom_grows(old(self).scopes.module(), final(self).scopes.module()),
            final(self).scopes.module().contains_key(name@) || final(self).table@.len() >= 0xffff_ffff,
            reports_no_undefined(old(self).sink@, final(self).sink@),
            adds_at_most(old(self).scopes.module(), final(self).scopes.module(), name@),
            final(self).registry_infos() == old(self).registry_infos(),
    {
        match find_span(&self.module_spans, name.as_str()) {
            Some(old_span) => {
                proof {
                    lemma_recorded_span_some(self.module_spans@, name@);
                }
                emit_redefinition_error(self.sink, name.as_str(), span, old_span);
                return None;
            },
            None => {},
        }
        if self.table.len() >= 0xffff_ffff {
            return None;
        }
        let sym = Symbol { name: name.clone(), kind, span, is_mut: false, is_public };
        let id = self.table.insert(sym);
        self.module_spans.push((name.clone(), span));
        let defined = self.scopes.define_module(name.clone(), id);
        proof {
            assert forall|j: int| 0 <= j < self.module_spans@.len() implies self.scopes.module().contains_key(
                #[trigger] self.module_spans@[j].0@,
            ) by {
                if j < self.module_spans@.len() - 1 {
                    assert(self.module_spans@[j] == old(self).module_spans@[j]);
                }
            }
        }
        match defined {
            Ok(()) => Some(id),
            Err(old_id) => {
                match self.table.get(old_id) {
                    Some(old_sym) => {
                        let old_span = old_sym.span;
                        emit_redefinition_error(self.sink, name.as_str(), span, old_span);
                    },
                    None => {},
                }
                None
            },
        }
    }

    /// Defines a symbol in the innermost local scope; reports a
    /// redefinition in that scope.
    fn define_local_symbol(&mut self, name: String, kind: SymbolKind, span: Span, is_mut: bool) -> (r: Option<SymbolId>)
        requires
            old(self).scopes.locals().len() > 0,
        ensures
            final(self).phase == old(self).phase,
            *final(final(self).sink) == *final(old(self).sink),
            final(self).scopes.locals().len() == old(self).scopes.locals().len(),
            table_grows(old(self).table@, final(self).table@),
            final(self).scopes.module() == old(self).scopes.module(),
            final(self).module_spans == old(self).module_spans,
            reports_no_undefined(old(self).sink@, final(self).sink@),
            reports_names(old(self).sink@, final(self).sink@, Seq::empty()),
            final(self).table@.len() < 0xffff_ffff ==> local_names(final(self).scopes.locals()) == bind_name(
                local_names(old(self).scopes.locals()),
                name@,
            ),
    {
        proof {
            lemma_reports_names_none(self.sink@);
        }
        if self.table.len() >= 0xffff_ffff {
            return None;
        }
        let sym = Symbol { name: name.clone(), kind, span, is_mut, is_public: false };
        let id = self.table.insert(sym);
        let ghost before = self.scopes.locals();
        let r = self.scopes.define_local(name.clone(), id);
        proof {
            assert(local_names(self.scopes.locals()) =~= bind_name(local_names(before), name@));
        }
        match r {
            Ok(()) => Some(id),
            Err(old_id) => {
                match self.table.get(old_id) {
                    Some(old_sym) => {
                        let old_span = old_sym.span;
                        let ghost s0 = self.sink@;
                        emit_redefinition_error(self.sink, name.as_str(), span, old_span);
                        proof {
                            assert(self.sink@ =~= s0.push(self.sink@.last()));
                            lemma_reports_names_other(s0, self.sink@.last());
                        }
                    },
                    None => {},
                }
                None
            },
        }
    }

    /// Looks a name up: local scopes, then the module scope.
    fn lookup(&self, name: &str) -> (r: Option<SymbolId>)
        ensures
            r == crate::frontend::resolve::scope::resolve_in(self.scopes.locals(), self.scopes.module(), name@),
    {
        proof {
            crate::frontend::resolve::scope::lemma_resolve_none(self.scopes.locals(), self.scopes.module(), name@);
        }
        match self.scopes.lookup(name) {
            Some(id) => Some(id),
            None => self.scopes.lookup_module(name),
        }
    }

    fn visit_module(&mut self, m: &Module)
        requires
            old(self).scopes.locals().len() == 0,
            old(self).spans_bound(),
        ensures
            final(self).phase == old(self).phase,
            *final(final(self).sink) == *final(old(self).sink),
            final(self).scopes.locals().len() == 0,
            table_grows(old(self).table@, final(self).table@),
            final(self).spans_bound(),
            old(self).phase == Phase::CollectModuleItems ==> {
                &&& dom_grows(old(self).scopes.module(), final(self).scopes.module())
                &&& reports_no_undefined(old(self).sink@, final(self).sink@)
                &&& forall|k: int|
                    0 <= k < m.items@.len() ==> (#[trigger] item_binding(m.items@[k]) matches Some(n) ==> (
                    final(self).scopes.module().contains_key(n) || final(self).table@.len() >= 0xffff_ffff))
                &&& forall|n: Seq<char>| #[trigger] final(self).scopes.module().contains_key(n) ==> old(self).scopes.module().contains_key(n)
                    || item_declares(m.items@, n)
            },
            old(self).phase == Phase::ResolveLocals ==> {
                &&& final(self).scopes.module() == old(self).scopes.module()
                &&& reports_sparing(old(self).sink@, final(self).sink@, old(self).scopes.module().dom())
                &&& final(self).table@.len() < 0xffff_ffff ==> reports_names(
                    old(self).sink@,
                    final(self).sink@,
                    items_reports(old(self).scopes.module().dom(), m.items@),
                )
            },
            old(self).phase == Phase::CollectModuleItems ==> final(self).registry_infos() == old(self).registry_infos(),
            old(self).phase == Phase::CollectModuleItems ==> (old(self).registry_infos() matches Some(ms) ==> forall|k: int|
                0 <= k < m.items@.len() && unknown_use(ms, #[trigger] m.items@[k]) ==> reports_unknown_module(
                    old(self).sink@,
                    final(self).sink@,
                    m.items@[k]->Use_0.span,
                )),
    {
        let mut i: usize = 0;
        proof {
            lemma_reports_names_none(self.sink@);
            assert(m.items@.take(0) =~= Seq::<Item>::empty());
        }
        while i < m.items.len()
            invariant
                self.phase == old(self).phase,
                *final(self.sink) == *final(old(self).sink),
                self.scopes.locals().len() == 0,
                table_grows(old(self).table@, self.table@),
                self.spans_bound(),
                old(self).phase == Phase::CollectModuleItems ==> {
                    &&& dom_grows(old(self).scopes.module(), self.scopes.module())
                    &&& reports_no_undefined(old(self).sink@, self.sink@)
                    &&& forall|k: int|
                        0 <= k < i ==> (#[trigger] item_binding(m.items@[k]) matches Some(n) ==> (
                        self.scopes.module().contains_key(n) || self.table@.len() >= 0xffff_ffff))
                    &&& forall|n: Seq<char>| #[trigger] self.scopes.module().contains_key(n) ==> old(self).scopes.module().contains_key(n)
                        || item_declares(m.items@, n)
                    &&& self.registry_infos() == old(self).registry_infos()
                    &&& old(self).registry_infos() matches Some(ms) ==> forall|k: int|
                        0 <= k < i && unknown_use(ms, #[trigger] m.items@[k]) ==> reports_unknown_module(
                            old(self).sink@,
                            self.sink@,
                            m.items@[k]->Use_0.span,
                        )
                },
                old(self).phase == Phase::ResolveLocals ==> {
                    &&& self.scopes.module() == old(self).scopes.module()
                    &&& reports_sparing(old(self).sink@, self.sink@, old(self).scopes.module().dom())
                    &&& self.table@.len() < 0xffff_ffff ==> reports_names(
                        old(self).sink@,
                        self.sink@,
                        items_reports(old(self).scopes.module().dom(), m.items@.take(i as int)),
                    )
                },
                i <= m.items@.len(),
            decreases m.items@.len() - i,
        {
            let ghost s1 = self.sink@;
            let ghost n1 = self.table@.len();
            let ghost before_module = self.scopes.module();
            let ghost before_len = self.table@.len();
            self.visit_item(&m.items[i]);
            proof {
                assert(m.items@[i as int] == m.items[i as int]);
                if old(self).phase == Phase::ResolveLocals && self.table@.len() < 0xffff_ffff {
                    assert(n1 < 0xffff_ffff);
                    let md = old(self).scopes.module().dom();
                    assert(m.items@.take(i + 1).drop_last() =~= m.items@.take(i as int));
                    assert(m.items@.take(i + 1).last() == m.items@[i as int]);
                    lemma_reports_names_trans(
                        old(self).sink@,
                        s1,
                        self.sink@,
                        items_reports(md, m.items@.take(i as int)),
                        item_reports(md, m.items@[i as int]),
                    );
                }
                if old(self).phase == Phase::CollectModuleItems {
                    if let Some(ms) = old(self).registry_infos() {
                        assert forall|k: int|
                            0 <= k < i + 1 && unknown_use(ms, #[trigger] m.items@[k]) implies reports_unknown_module(
                            old(self).sink@,
                            self.sink@,
                            m.items@[k]->Use_0.span,
                        ) by {
                            if k < i {
                                let sp = m.items@[k]->Use_0.span;
                                let x = choose|x: int|
                                    old(self).sink@.len() <= x < s1.len() && (#[trigger] s1[x]).code == 4006 && s1[x].loc
                                        == DiagLoc::At(sp);
                                assert(self.sink@[x] == s1[x]);
                            } else {
                                let sp = m.items@[k]->Use_0.span;
                                let x = choose|x: int|
                                    s1.len() <= x < self.sink@.len() && (#[trigger] self.sink@[x]).code == 4006
                                        && self.sink@[x].loc == DiagLoc::At(sp);
                                assert(old(self).sink@.len() <= s1.len());
                            }
                        }
                    }
                    assert forall|n: Seq<char>| #[trigger] self.scopes.module().contains_key(n) implies old(self).scopes.module().contains_key(n)
                        || item_declares(m.items@, n) by {
                        if !before_module.contains_key(n) {
                            assert(item_binding(m.items@[i as int]) == Some(n) || uses_name(m.items@[i as int], n));
                        }
                    }
                    assert forall|k: int|
                        0 <= k < i + 1 implies (#[trigger] item_binding(m.items@[k]) matches Some(n) ==> (
                        self.scopes.module().contains_key(n) || self.table@.len() >= 0xffff_ffff)) by {
                        if k < i {
                            if let Some(n) = item_binding(m.items@[k]) {
                                if before_module.contains_key(n) {
                                    assert(self.scopes.module().contains_key(n));
                                }
                            }
                        }
                    }
                }
            }
            i = i + 1;
        }
        proof {
            assert(m.items@.take(i as int) =~= m.items@);
        }
    }

    fn visit_item(&mut self, it: &Item)
        requires
            old(self).scopes.locals().len() == 0,
            old(self).spans_bound(),
        ensures
            final(self).phase == old(self).phase,
            *final(final(self).sink) == *final(old(self).sink),
            final(self).scopes.locals().len() == 0,
            table_grows(old(self).table@, final(self).table@),
            final(self).spans_bound(),
            old(self).phase == Phase::CollectModuleItems ==> {
                &&& dom_grows(old(self).scopes.module(), final(self).scopes.module())
                &&& reports_no_undefined(old(self).sink@, final(self).sink@)
                &&& item_binding(*it) matches Some(n) ==> (final(self).scopes.module().contains_key(n)
                    || final(self).table@.len() >= 0xffff_ffff)
                &&& forall|k: Seq<char>| #[trigger] final(self).scopes.module().contains_key(k) ==> old(self).scopes.module().contains_key(k)
                    || item_binding(*it) == Some(k) || uses_name(*it, k)
            },
            old(self).phase == Phase::ResolveLocals ==> {
                &&& final(self).scopes.module() == old(self).scopes.module()
                &&& reports_sparing(old(self).sink@, final(self).sink@, old(self).scopes.module().dom())
                &&& final(self).table@.len() < 0xffff_ffff ==> reports_names(
                    old(self).sink@,
                    final(self).sink@,
                    item_reports(old(self).scopes.module().dom(), *it),
                )
            },
            old(self).phase == Phase::CollectModuleItems ==> final(self).registry_infos() == old(self).registry_infos(),
            old(self).phase == Phase::CollectModuleItems ==> (old(self).registry_infos() matches Some(ms) && unknown_use(
                ms,
                *it,
            ) ==> reports_unknown_module(old(self).sink@, final(self).sink@, (*it)->Use_0.span)),
    {
        proof {
            lemma_reports_names_none(self.sink@);
        }
        if self.phase == Phase::CollectModuleItems {
            match it {
                Item::Func(f) => {
                    self.define_module_symbol(f.name.clone(), SymbolKind::Func, f.span, f.is_public);
                },
                Item::Struct(s) => {
                    // Fields are resolved by the type checker.
                    self.define_module_symbol(s.name.clone(), SymbolKind::Struct, s.span, s.is_public);
                },
                Item::Union(u) => {
                    // Variants are resolved by the type checker.
                    self.define_module_symbol(u.name.clone(), SymbolKind::Union, u.span, u.is_public);
                },
                Item::Use(use_path) => {
                    self.visit_use(&use_path.segments, use_path.span);
                },
            }
        } else {
            match it {
                Item::Func(f) => {
                    self.scopes.push_scope();
                    let mut i: usize = 0;
                    proof {
                        assert(f.params@.take(0) =~= Seq::<Param>::empty());
                        assert(param_names(f.params@.take(0)) =~= Set::<Seq<char>>::empty());
                        assert(local_names(self.scopes.locals()) =~= seq![param_names(f.params@.take(0))]);
                    }
                    while i < f.params.len()
                        invariant
                            i <= f.params@.len(),
                            reports_names(old(self).sink@, self.sink@, Seq::empty()),
                            self.table@.len() < 0xffff_ffff ==> local_names(self.scopes.locals()) == seq![
                                param_names(f.params@.take(i as int)),
                            ],
                            self.inv(),
                            self.phase == old(self).phase,
                            *final(self.sink) == *final(old(self).sink),
                            self.scopes.locals().len() == 1,
                            table_grows(old(self).table@, self.table@),
                            self.scopes.module() == old(self).scopes.module(),
                            self.module_spans == old(self).module_spans,
                            reports_sparing(old(self).sink@, self.sink@, old(self).scopes.module().dom()),
                        decreases f.params@.len() - i,
                    {
                        let p = &f.params[i];
                        let ghost s1 = self.sink@;
                        let ghost n1 = self.table@.len();
                        let ghost l1 = local_names(self.scopes.locals());
                        self.define_local_symbol(p.name.clone(), SymbolKind::Param, p.span, p.is_mut);
                        proof {
                            lemma_reports_names_trans(old(self).sink@, s1, self.sink@, Seq::empty(), Seq::empty());
                            assert(Seq::<NameReport>::empty() + Seq::<NameReport>::empty() =~= Seq::<NameReport>::empty());
                            if self.table@.len() < 0xffff_ffff {
                                assert(n1 < 0xffff_ffff);
                                lemma_param_names_push(f.params@, i as int);
                                assert(f.params@[i as int] == *p);
                                assert(bind_name(l1, p.name@) =~= seq![param_names(f.params@.take(i + 1))]);
                            }
                        }
                        i = i + 1;
                    }
                    proof {
                        assert(f.params@.take(i as int) =~= f.params@);
                    }
                    let ghost s2 = self.sink@;
                    let ghost n2 = self.table@.len();
                    self.visit_expr(&f.body);
                    proof {
                        if self.table@.len() < 0xffff_ffff {
                            assert(n2 < 0xffff_ffff);
                            let r = res_expr(seq![param_names(f.params@)], old(self).scopes.module().dom(), f.body);
                            lemma_reports_names_trans(old(self).sink@, s2, self.sink@, Seq::empty(), r.1);
                            assert(Seq::<NameReport>::empty() + r.1 =~= r.1);
                        }
                    }
                    self.scopes.pop_scope();
                },
                _ => {},
            }
        }
    }

    /// Binds a `use`d module's name in the module scope, or reports that
    /// no such module is registered. A single file ignores `use`.
    fn visit_use(&mut self, segments: &Vec<String>, span: Span)
        requires
            old(self).spans_bound(),
        ensures
            final(self).phase == old(self).phase,
            *final(final(self).sink) == *final(old(self).sink),
            final(self).scopes.locals() == old(self).scopes.locals(),
            table_grows(old(self).table@, final(self).table@),
            final(self).module_spans == old(self).module_spans,
            final(self).spans_bound(),
            dom_grows(old(self).scopes.module(), final(self).scopes.module()),
            reports_no_undefined(old(self).sink@, final(self).sink@),
            segments@.len() == 0 ==> final(self).scopes.module() == old(self).scopes.module(),
            segments@.len() > 0 ==> adds_at_most(old(self).scopes.module(), final(self).scopes.module(), segments@.last()@),
            segments@.len() == 0 || old(self).registry_infos() is None ==> {
                &&& final(self).sink@ == old(self).sink@
                &&& final(self).scopes.module() == old(self).scopes.module()
                &&& final(self).table@ == old(self).table@
            },
            segments@.len() > 0 ==> match old(self).registry_infos() {
                Some(ms) => match last_with_name(ms, segments@.last()@) {
                    Some(i) => old(self).table@.len() < 0xffff_ffff ==> {
                        &&& final(self).scopes.module().contains_key(segments@.last()@)
                        &&& final(self).table@ == old(self).table@.push(
                            Symbol {
                                name: segments@.last(),
                                kind: SymbolKind::Module(ModuleId(i as usize)),
                                span,
                                is_mut: false,
                                is_public: false,
                            },
                        )
                    },
                    None => {
                        &&& final(self).sink@.len() == old(self).sink@.len() + 1
                        &&& final(self).sink@.last().code == 4006
                        &&& final(self).sink@.last().loc == DiagLoc::At(span)
                        &&& final(self).scopes.module() == old(self).scopes.module()
                        &&& final(self).table@ == old(self).table@
                    },
                },
                None => true,
            },
            final(self).registry_infos() == old(self).registry_infos(),
    {
        if segments.len() == 0 {
            return;
        }
        let target_name = &segments[segments.len() - 1];
        let found = match &self.registry {
            Some(registry) => Some(registry.find_module_by_name(target_name.as_str())),
            None => None,
        };
        match found {
            Some(Some(target_id)) => {
                if self.table.len() >= 0xffff_ffff {
                    return;
                }
                let symbol = Symbol {
                    name: target_name.clone(),
                    kind: SymbolKind::Module(target_id),
                    span,
                    is_mut: false,
                    is_public: false,
                };
                let sym_id = self.table.insert(symbol);
                match self.scopes.define_module(target_name.clone(), sym_id) {
                    Ok(()) => {},
                    Err(old_id) => {
                        match self.table.get(old_id) {
                            Some(old_sym) => {
                                let old_span = old_sym.span;
                                emit_redefinition_error(self.sink, target_name.as_str(), span, old_span);
                            },
                            None => {},
                        }
                    },
                }
            },
            Some(None) => {
                emit_undefined_module(self.sink, target_name.as_str(), span);
            },
            None => {},
        }
    }

    fn visit_stmt(&mut self, s: &Stmt)
        requires
            old(self).inv(),
        ensures
            final(self).inv(),
            final(self).phase == old(self).phase,
            *final(final(self).sink) == *final(old(self).sink),
            final(self).scopes.locals().len() == old(self).scopes.locals().len(),
            table_grows(old(self).table@, final(self).table@),
            final(self).scopes.module() == old(self).scopes.module(),
            final(self).module_spans == old(self).module_spans,
            reports_sparing(old(self).sink@, final(self).sink@, old(self).scopes.module().dom()),
            old(self).phase == Phase::ResolveLocals ==> final(self).resolved_as(
                old(self),
                res_stmt(local_names(old(self).scopes.locals()), old(self).scopes.module().dom(), *s),
            ),
        decreases s,
    {
        if self.phase != Phase::ResolveLocals {
            return;
        }
        let ghost l0 = local_names(self.scopes.locals());
        let ghost m = self.scopes.module().dom();
        let ghost s0 = self.sink@;
        match s {
            Stmt::Let { name, init, span, is_mut, .. } => {
                // The right side first, so `x := x + 1` sees the outer `x`.
                self.visit_expr(init);
                let ghost s1 = self.sink@;
                let ghost n1 = self.table@.len();
                self.define_local_symbol(name.clone(), SymbolKind::Local, *span, *is_mut);
                proof {
                    if self.table@.len() < 0xffff_ffff {
                        assert(n1 < 0xffff_ffff);
                        let r = res_expr(l0, m, *init);
                        lemma_reports_names_trans(s0, s1, self.sink@, r.1, Seq::empty());
                        assert(r.1 + Seq::<NameReport>::empty() =~= r.1);
                    }
                }
            },
            Stmt::Assign { target, value, .. } => {
                self.visit_expr(target);
                let ghost s1 = self.sink@;
                let ghost n1 = self.table@.len();
                self.visit_expr(value);
                proof {
                    if self.table@.len() < 0xffff_ffff {
                        assert(n1 < 0xffff_ffff);
                        let r1 = res_expr(l0, m, *target);
                        let r2 = res_expr(r1.0, m, *value);
                        lemma_reports_names_trans(s0, s1, self.sink@, r1.1, r2.1);
                    }
                }
            },
            Stmt::Defer(e, _) => self.visit_expr(e),
            Stmt::Expr(e) => self.visit_expr(e),
        }
    }

    /// `module.symbol`: checks that the module exports the symbol and that
    /// it is public. Returns whether `base` named a module.
    fn visit_qualified(&mut self, base: &Expr, name: &String, span: Span) -> (q: bool)
        requires
            old(self).inv(),
        ensures
            final(self).inv(),
            final(self).phase == old(self).phase,
            *final(final(self).sink) == *final(old(self).sink),
            final(self).scopes.locals() == old(self).scopes.locals(),
            final(self).scopes.module() == old(self).scopes.module(),
            final(self).module_spans == old(self).module_spans,
            final(self).table == old(self).table,
            reports_no_undefined(old(self).sink@, final(self).sink@),
            reports_names(old(self).sink@, final(self).sink@, Seq::empty()),
            q ==> (*base matches Expr::Path(segs, _) && segs@.len() == 1 && crate::frontend::resolve::scope::resolve_in(
                old(self).scopes.locals(),
                old(self).scopes.module(),
                segs@[0]@,
            ) is Some),
    {
        proof {
            lemma_reports_names_none(self.sink@);
        }
        let module_name = match base {
            Expr::Path(segments, _) => {
                if segments.len() != 1 {
                    return false;
                }
                &segments[0]
            },
            _ => {
                return false;
            },
        };
        let sym_id = match self.lookup(module_name.as_str()) {
            Some(id) => id,
            None => {
                return false;
            },
        };
        let module_id = match self.table.get(sym_id) {
            Some(sym) => match sym.kind {
                SymbolKind::Module(m) => m,
                _ => {
                    return false;
                },
            },
            None => {
                return false;
            },
        };
        // 1: not exported, 2: private, 0: fine.
        let outcome: u8 = match &self.registry {
            Some(registry) => match registry.get_exports(module_id) {
                Some(exports) => match exports.lookup(name.as_str()) {
                    None => 1,
                    Some(found) => match exports.get(found) {
                        Some(sym) => if !sym.is_public {
                            2
                        } else {
                            0
                        },
                        None => 0,
                    },
                },
                None => 0,
            },
            None => 0,
        };
        let ghost s0 = self.sink@;
        if outcome == 1 {
            let head = concat3("模块 `", module_name.as_str(), "` 中未定义符号 `");
            let msg = concat3(head.as_str(), name.as_str(), "`");
            let d = Diagnostic::error(ErrorCode::UndefinedSymbol.as_u16(), msg, DiagLoc::At(span));
            proof {
                lemma_reports_names_other(s0, d);
            }
            self.sink.emit(d);
        } else if outcome == 2 {
            let head = concat3("符号 `", module_name.as_str(), "::");
            let msg = concat3(head.as_str(), name.as_str(), "` 是私有的");
            let d = Diagnostic::error(ErrorCode::PrivateSymbol.as_u16(), msg, DiagLoc::At(span));
            proof {
                lemma_reports_names_other(s0, d);
            }
            self.sink.emit(d);
        }
        true
    }

    #[verifier::loop_isolation(false)]
    fn visit_expr(&mut self, e: &Expr)
        requires
            old(self).inv(),
        ensures
            final(self).inv(),
            final(self).phase == old(self).phase,
            *final(final(self).sink) == *final(old(self).sink),
            final(self).scopes.locals().len() == old(self).scopes.locals().len(),
            table_grows(old(self).table@, final(self).table@),
            final(self).scopes.module() == old(self).scopes.module(),
            final(self).module_spans == old(self).module_spans,
            reports_sparing(old(self).sink@, final(self).sink@, old(self).scopes.module().dom()),
            old(self).phase == Phase::ResolveLocals ==> final(self).resolved_as(
                old(self),
                res_expr(local_names(old(self).scopes.locals()), old(self).scopes.module().dom(), *e),
            ),
        decreases e,
    {
        if self.phase != Phase::ResolveLocals {
            return;
        }
        let ghost l0 = local_names(self.scopes.locals());
        let ghost m = self.scopes.module().dom();
        let ghost s0 = self.sink@;
        proof {
            lemma_reports_names_none(s0);
        }
        match e {
            Expr::Path(segments, span) => {
                if segments.len() == 1 {
                    let name = &segments[0];
                    proof {
                        lemma_resolve_visible(self.scopes.locals(), self.scopes.module(), name@);
                    }
                    assert(segments@[0] == *name);
                    if self.lookup(name.as_str()).is_none() {
                        let msg = concat3("未定义的名字 `", name.as_str(), "`");
                        proof {
                            let m = self.scopes.module();
                            crate::frontend::resolve::scope::lemma_resolve_none(self.scopes.locals(), m, name@);
                            assert forall|n: Seq<char>| #[trigger] m.dom().contains(n) implies msg@ != undefined_name_msg(
                                n,
                            ) by {
                                if msg@ == undefined_name_msg(n) {
                                    lemma_undefined_msg_injective(n, name@);
                                }
                            }
                        }
                        let d = Diagnostic::error(ErrorCode::UndefinedName.as_u16(), msg, DiagLoc::At(*span));
                        proof {
                            lemma_reports_names_one(s0, d, NameReport { msg: crate::frontend::resolve::names::undefined_msg(name@), span: *span });
                        }
                        self.sink.emit(d);
                        proof {
                            assert(res_expr(l0, m, *e).1 =~= seq![NameReport { msg: crate::frontend::resolve::names::undefined_msg(name@), span: *span }]);
                        }
                    } else {
                        proof {
                            assert(res_expr(l0, m, *e).1 =~= Seq::<NameReport>::empty());
                        }
                    }
                } else {
                    // Paths of several segments are not part of Kore0.
                    let joined = join(segments, "::");
                    let msg = concat3("多段路径 `", joined.as_str(), "` 在 Kore0 中不支持");
                    proof {
                        reveal_strlit("多段路径 `");
                        reveal_strlit("未定义的名字 `");
                        assert forall|n: Seq<char>| #[trigger] self.scopes.module().dom().contains(n) implies msg@
                            != undefined_name_msg(n) by {
                            assert(msg@[0] != undefined_name_msg(n)[0]);
                        }
                    }
                    let d = Diagnostic::error(ErrorCode::UndefinedName.as_u16(), msg, DiagLoc::At(*span));
                    proof {
                        assert(d.msg@ == crate::frontend::resolve::names::multi_segment_msg(segments@));
                        lemma_reports_names_one(s0, d, NameReport { msg: crate::frontend::resolve::names::multi_segment_msg(segments@), span: *span });
                    }
                    self.sink.emit(d);
                    proof {
                        assert(res_expr(l0, m, *e).1 =~= seq![NameReport { msg: crate::frontend::resolve::names::multi_segment_msg(segments@), span: *span }]);
                    }
                }
            },
            Expr::Field { base, name, span } => {
                if self.visit_qualified(base, name, *span) {
                    proof {
                        if let Expr::Path(segs, sp) = &**base {
                            lemma_resolve_visible(old(self).scopes.locals(), old(self).scopes.module(), segs@[0]@);
                            assert(crate::frontend::resolve::names::path_reports(l0, m, segs@, *sp) =~= Seq::<
                                NameReport,
                            >::empty());
                            assert(res_expr(l0, m, **base) == (l0, Seq::<NameReport>::empty()));
                            assert(res_expr(l0, m, *e) == (l0, Seq::<NameReport>::empty()));
                            assert(local_names(self.scopes.locals()) == l0);
                            assert(reports_names(s0, self.sink@, Seq::empty()));
                        }
                    }
                    return;
                }
                let ghost s1 = self.sink@;
                self.visit_expr(base);
                proof {
                    if self.table@.len() < 0xffff_ffff {
                        let r = res_expr(l0, m, **base);
                        lemma_reports_names_trans(s0, s1, self.sink@, Seq::empty(), r.1);
                        assert(Seq::<NameReport>::empty() + r.1 =~= r.1);
                    }
                }
            },
            Expr::Block { stmts, .. } => {
                // A block opens a scope.
                self.scopes.push_scope();
                let ghost l1 = local_names(self.scopes.locals());
                proof {
                    assert(l1 =~= l0.push(Set::empty()));
                }
                let mut i: usize = 0;
                while i < stmts.len()
                    invariant
                        i <= stmts@.len(),
                        l1 == l0.push(Set::empty()),
                        self.inv(),
                        self.phase == old(self).phase,
                        *final(self.sink) == *final(old(self).sink),
                        self.scopes.locals().len() == old(self).scopes.locals().len() + 1,
                        table_grows(old(self).table@, self.table@),
                        self.scopes.module() == old(self).scopes.module(),
                        self.module_spans == old(self).module_spans,
                        reports_sparing(old(self).sink@, self.sink@, old(self).scopes.module().dom()),
                        self.table@.len() < 0xffff_ffff ==> {
                            &&& local_names(self.scopes.locals()) == res_stmts(l1, m, *e, i as int).0
                            &&& reports_names(s0, self.sink@, res_stmts(l1, m, *e, i as int).1)
                        },
                    decreases stmts@.len() - i,
                {
                    proof {
                        assert(decreases_to!(e => stmts@[i as int]));
                    }
                    let ghost s1 = self.sink@;
                    let ghost n1 = self.table@.len();
                    self.visit_stmt(&stmts[i]);
                    proof {
                        if self.table@.len() < 0xffff_ffff {
                            assert(n1 < 0xffff_ffff);
                            let r = res_stmts(l1, m, *e, i as int);
                            let x = res_stmt(r.0, m, stmts@[i as int]);
                            assert(res_stmts(l1, m, *e, i + 1) == (x.0, r.1 + x.1));
                            lemma_reports_names_trans(s0, s1, self.sink@, r.1, x.1);
                        }
                    }
                    i = i + 1;
                }
                let ghost before_pop = self.scopes.locals();
                self.scopes.pop_scope();
                proof {
                    assert(local_names(self.scopes.locals()) =~= local_names(before_pop).drop_last());
                }
            },
            Expr::Branch { scrutinee, arms, .. } => {
                match scrutinee {
                    Some(s) => self.visit_expr(s),
                    None => {},
                }
                let ghost r = match scrutinee {
                    Some(s) => res_expr(l0, m, **s),
                    None => (l0, Seq::<NameReport>::empty()),
                };
                let mut i: usize = 0;
                while i < arms.len()
                    invariant
                        i <= arms@.len(),
                        self.inv(),
                        self.phase == old(self).phase,
                        *final(self.sink) == *final(old(self).sink),
                        self.scopes.locals().len() == old(self).scopes.locals().len(),
                        table_grows(old(self).table@, self.table@),
                        self.scopes.module() == old(self).scopes.module(),
                        self.module_spans == old(self).module_spans,
                        reports_sparing(old(self).sink@, self.sink@, old(self).scopes.module().dom()),
                        self.table@.len() < 0xffff_ffff ==> {
                            &&& local_names(self.scopes.locals()) == res_arms(r.0, m, *e, i as int).0
                            &&& reports_names(s0, self.sink@, r.1 + res_arms(r.0, m, *e, i as int).1)
                        },
                    decreases arms@.len() - i,
                {
                    let ghost s1 = self.sink@;
                    let ghost n1 = self.table@.len();
                    let ghost l1 = local_names(self.scopes.locals());
                    self.visit_pattern(&arms[i].pattern);
                    proof {
                        assert(decreases_to!(e => arms@[i as int]));
                    }
                    let ghost s2 = self.sink@;
                    let ghost n2 = self.table@.len();
                    let ghost l2 = local_names(self.scopes.locals());
                    self.visit_expr(&arms[i].body);
                    proof {
                        if self.table@.len() < 0xffff_ffff {
                            assert(n2 < 0xffff_ffff);
                            assert(n1 < 0xffff_ffff);
                            let a = res_arms(r.0, m, *e, i as int);
                            let x = res_expr(pattern_names(a.0, arms@[i as int].pattern), m, arms@[i as int].body);
                            assert(res_arms(r.0, m, *e, i + 1) == (x.0, a.1 + x.1));
                            lemma_reports_names_trans(s0, s1, s2, r.1 + a.1, Seq::empty());
                            assert(r.1 + a.1 + Seq::<NameReport>::empty() =~= r.1 + a.1);
                            lemma_reports_names_trans(s0, s2, self.sink@, r.1 + a.1, x.1);
                            assert(r.1 + a.1 + x.1 =~= r.1 + (a.1 + x.1));
                        }
                    }
                    i = i + 1;
                }
            },
            Expr::Loop { subject, body, .. } => {
                match subject {
                    Some(s) => self.visit_expr(s),
                    None => {},
                }
                let ghost r = match subject {
                    Some(s) => res_expr(l0, m, **s),
                    None => (l0, Seq::<NameReport>::empty()),
                };
                let ghost s1 = self.sink@;
                let ghost n1 = self.table@.len();
                self.visit_expr(body);
                proof {
                    if self.table@.len() < 0xffff_ffff {
                        assert(n1 < 0xffff_ffff);
                        lemma_reports_names_trans(s0, s1, self.sink@, r.1, res_expr(r.0, m, **body).1);
                    }
                }
            },
            Expr::Call { callee, args, .. } => {
                self.visit_expr(callee);
                let ghost r = res_expr(l0, m, **callee);
                let mut i: usize = 0;
                while i < args.len()
                    invariant
                        i <= args@.len(),
                        self.inv(),
                        self.phase == old(self).phase,
                        *final(self.sink) == *final(old(self).sink),
                        self.scopes.locals().len() == old(self).scopes.locals().len(),
                        table_grows(old(self).table@, self.table@),
                        self.scopes.module() == old(self).scopes.module(),
                        self.module_spans == old(self).module_spans,
                        reports_sparing(old(self).sink@, self.sink@, old(self).scopes.module().dom()),
                        self.table@.len() < 0xffff_ffff ==> {
                            &&& local_names(self.scopes.locals()) == res_list(r.0, m, *e, i as int).0
                            &&& reports_names(s0, self.sink@, r.1 + res_list(r.0, m, *e, i as int).1)
                        },
                    decreases args@.len() - i,
                {
                    proof {
                        assert(decreases_to!(e => args@[i as int]));
                    }
                    let ghost s1 = self.sink@;
                    let ghost n1 = self.table@.len();
                    self.visit_expr(&args[i]);
                    proof {
                        if self.table@.len() < 0xffff_ffff {
                            assert(n1 < 0xffff_ffff);
                            let a = res_list(r.0, m, *e, i as int);
                            let x = res_expr(a.0, m, args@[i as int]);
                            assert(res_list(r.0, m, *e, i + 1) == (x.0, a.1 + x.1));
                            lemma_reports_names_trans(s0, s1, self.sink@, r.1 + a.1, x.1);
                            assert(r.1 + a.1 + x.1 =~= r.1 + (a.1 + x.1));
                        }
                    }
                    i = i + 1;
                }
            },
            Expr::Index { base, index, .. } => {
                self.visit_expr(base);
                let ghost s1 = self.sink@;
                let ghost n1 = self.table@.len();
                self.visit_expr(index);
                proof {
                    if self.table@.len() < 0xffff_ffff {
                        assert(n1 < 0xffff_ffff);
                        let r1 = res_expr(l0, m, **base);
                        lemma_reports_names_trans(s0, s1, self.sink@, r1.1, res_expr(r1.0, m, **index).1);
                    }
                }
            },
            Expr::Deref(inner, _) => self.visit_expr(inner),
            Expr::Propagate(inner, _) => self.visit_expr(inner),
            Expr::Jmp { target, .. } => match target {
                Some(t) => self.visit_expr(t),
                None => {},
            },
            Expr::Ret(v, _) => match v {
                Some(v) => self.visit_expr(v),
                None => {},
            },
            Expr::Unary { operand, .. } => self.visit_expr(operand),
            Expr::Binary { lhs, rhs, .. } => {
                self.visit_expr(lhs);
                let ghost s1 = self.sink@;
                let ghost n1 = self.table@.len();
                self.visit_expr(rhs);
                proof {
                    if self.table@.len() < 0xffff_ffff {
                        assert(n1 < 0xffff_ffff);
                        let r1 = res_expr(l0, m, **lhs);
                        lemma_reports_names_trans(s0, s1, self.sink@, r1.1, res_expr(r1.0, m, **rhs).1);
                    }
                }
            },
            Expr::StructLit { fields, .. } => {
                let mut i: usize = 0;
                while i < fields.len()
                    invariant
                        i <= fields@.len(),
                        self.inv(),
                        self.phase == old(self).phase,
                        *final(self.sink) == *final(old(self).sink),
                        self.scopes.locals().len() == old(self).scopes.locals().len(),
                        table_grows(old(self).table@, self.table@),
                        self.scopes.module() == old(self).scopes.module(),
                        self.module_spans == old(self).module_spans,
                        reports_sparing(old(self).sink@, self.sink@, old(self).scopes.module().dom()),
                        self.table@.len() < 0xffff_ffff ==> {
                            &&& local_names(self.scopes.locals()) == res_list(l0, m, *e, i as int).0
                            &&& reports_names(s0, self.sink@, res_list(l0, m, *e, i as int).1)
                        },
                    decreases fields@.len() - i,
                {
                    proof {
                        assert(decreases_to!(e => fields@[i as int]));
                    }
                    let ghost s1 = self.sink@;
                    let ghost n1 = self.table@.len();
                    self.visit_expr(&fields[i].1);
                    proof {
                        if self.table@.len() < 0xffff_ffff {
                            assert(n1 < 0xffff_ffff);
                            let a = res_list(l0, m, *e, i as int);
                            let x = res_expr(a.0, m, fields@[i as int].1);
                            assert(res_list(l0, m, *e, i + 1) == (x.0, a.1 + x.1));
                            lemma_reports_names_trans(s0, s1, self.sink@, a.1, x.1);
                        }
                    }
                    i = i + 1;
                }
            },
            Expr::ArrayLit { elements, .. } => {
                let mut i: usize = 0;
                while i < elements.len()
                    invariant
                        i <= elements@.len(),
                        self.inv(),
                        self.phase == old(self).phase,
                        *final(self.sink) == *final(old(self).sink),
                        self.scopes.locals().len() == old(self).scopes.locals().len(),
                        table_grows(old(self).table@, self.table@),
                        self.scopes.module() == old(self).scopes.module(),
                        self.module_spans == old(self).module_spans,
                        reports_sparing(old(self).sink@, self.sink@, old(self).scopes.module().dom()),
                        self.table@.len() < 0xffff_ffff ==> {
                            &&& local_names(self.scopes.locals()) == res_list(l0, m, *e, i as int).0
                            &&& reports_names(s0, self.sink@, res_list(l0, m, *e, i as int).1)
                        },
                    decreases elements@.len() - i,
                {
                    proof {
                        assert(decreases_to!(e => elements@[i as int]));
                    }
                    let ghost s1 = self.sink@;
                    let ghost n1 = self.table@.len();
                    self.visit_expr(&elements[i]);
                    proof {
                        if self.table@.len() < 0xffff_ffff {
                            assert(n1 < 0xffff_ffff);
                            let a = res_list(l0, m, *e, i as int);
                            let x = res_expr(a.0, m, elements@[i as int]);
                            assert(res_list(l0, m, *e, i + 1) == (x.0, a.1 + x.1));
                            lemma_reports_names_trans(s0, s1, self.sink@, a.1, x.1);
                        }
                    }
                    i = i + 1;
                }
            },
            Expr::VariantConstructor { payload, .. } => match payload {
                Some(p) => self.visit_expr(p),
                None => {},
            },
            _ => { },
        }
    }

    /// Names bound by a pattern go into the current scope; `_` binds
    /// nothing.
    fn visit_pattern(&mut self, p: &Pattern)
        requires
            old(self).inv(),
        ensures
            final(self).inv(),
            final(self).phase == old(self).phase,
            *final(final(self).sink) == *final(old(self).sink),
            final(self).scopes.locals().len() == old(self).scopes.locals().len(),
            table_grows(old(self).table@, final(self).table@),
            final(self).scopes.module() == old(self).scopes.module(),
            final(self).module_spans == old(self).module_spans,
            reports_sparing(old(self).sink@, final(self).sink@, old(self).scopes.module().dom()),
            reports_names(old(self).sink@, final(self).sink@, Seq::empty()),
            old(self).phase == Phase::ResolveLocals && final(self).table@.len() < 0xffff_ffff ==> local_names(
                final(self).scopes.locals(),
            ) == pattern_names(local_names(old(self).scopes.locals()), *p),
    {
        proof {
            lemma_reports_names_none(self.sink@);
            reveal_strlit("_");
        }
        if self.phase != Phase::ResolveLocals {
            return;
        }
        match p {
            Pattern::Variant { bindings, span, .. } => {
                // The variant's name is resolved by the type checker.
                let mut i: usize = 0;
                proof {
                    assert(bindings@.take(0) =~= Seq::<String>::empty());
                }
                while i < bindings.len()
                    invariant
                        i <= bindings@.len(),
                        reports_names(old(self).sink@, self.sink@, Seq::empty()),
                        self.table@.len() < 0xffff_ffff ==> local_names(self.scopes.locals()) == bind_all(
                            local_names(old(self).scopes.locals()),
                            bindings@.take(i as int),
                        ),
                        self.inv(),
                        self.phase == old(self).phase,
                        *final(self.sink) == *final(old(self).sink),
                        self.phase == Phase::ResolveLocals,
                        self.scopes.locals().len() == old(self).scopes.locals().len(),
                        table_grows(old(self).table@, self.table@),
                        self.scopes.module() == old(self).scopes.module(),
                        self.module_spans == old(self).module_spans,
                        reports_sparing(old(self).sink@, self.sink@, old(self).scopes.module().dom()),
                    decreases bindings@.len() - i,
                {
                    proof {
                        assert(bindings@.take(i + 1).drop_last() =~= bindings@.take(i as int));
                        assert(bindings@.take(i + 1).last() == bindings@[i as int]);
                    }
                    let ghost s0 = self.sink@;
                    if !str_eq(bindings[i].as_str(), "_") {
                        self.define_local_symbol(bindings[i].clone(), SymbolKind::Local, *span, false);
                        proof {
                            lemma_reports_names_trans(old(self).sink@, s0, self.sink@, Seq::empty(), Seq::empty());
                            assert(Seq::<NameReport>::empty() + Seq::<NameReport>::empty() =~= Seq::<NameReport>::empty());
                        }
                    }
                    i = i + 1;
                }
                proof {
                    assert(bindings@.take(i as int) =~= bindings@);
                }
            },
            Pattern::Bind(name, span) => {
                if !str_eq(name.as_str(), "_") {
                    self.define_local_symbol(name.clone(), SymbolKind::Local, *span, false);
                }
            },
            _ => {},
        }
    }
}

} // verus!
