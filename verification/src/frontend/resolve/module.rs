//! The module registry and the dependencies between modules.
//!
//! It registers modules (file path to `ModuleId`), records which module
//! uses which, detects dependency cycles by depth-first search, and orders
//! modules for compilation by Kahn's algorithm.

use crate::diag::{DiagLoc, DiagSink, Diagnostic, Severity, Span, SubDiag};
use crate::frontend::ast::Module;
use crate::frontend::resolve::symbols::SymbolTable;
use crate::text::{concat2, concat3, str_eq};
use vstd::prelude::*;

verus! {

/// Identifies a registered module: the order of registration.
#[derive(Debug, Clone, Copy, PartialEq, Eq, Hash, Structural)]
pub struct ModuleId(pub usize);

/// One `use` record.
#[derive(Debug, Clone)]
pub struct Import {
    /// The imported module's name (`c` in `use a.b.c`).
    pub imported_name: String,
    /// Every segment of the `use` path.
    pub segments: Vec<String>,
    pub span: Span,
}

/// What the registry knows of one module.
#[derive(Debug)]
pub struct ModuleInfo {
    pub id: ModuleId,
    /// The module's name: its file name without extension.
    pub name: String,
    /// Its file path.
    pub path: String,
    /// Its syntax tree.
    pub ast: Module,
    pub imports: Vec<Import>,
    /// Its exported symbols.
    pub exports: SymbolTable,
}

/// Whether `from` uses `to` according to the recorded edges.
pub open spec fn has_edge(edges: Seq<(ModuleId, ModuleId)>, from: ModuleId, to: ModuleId) -> bool {
    exists|e: int| 0 <= e < edges.len() && #[trigger] edges[e] == (from, to)
}

/// `c` lists a dependency cycle backwards: each module is used by the one
/// after it, and the first uses the last.
pub open spec fn is_cycle(edges: Seq<(ModuleId, ModuleId)>, c: Seq<ModuleId>) -> bool {
    &&& c.len() > 0
    &&& has_edge(edges, c[0], c[c.len() - 1])
    &&& forall|i: int| 0 <= i < c.len() - 1 ==> has_edge(edges, c[i + 1], #[trigger] c[i])
}

/// The dependencies that the imports `imps` of module `id` give, in
/// order: one on the module holding each imported name, where one does.
pub open spec fn import_edges_of(ms: Seq<ModuleInfo>, id: ModuleId, imps: Seq<Import>) -> Seq<(ModuleId, ModuleId)>
    decreases imps.len(),
{
    if imps.len() == 0 {
        Seq::empty()
    } else {
        import_edges_of(ms, id, imps.drop_last()) + match last_with_name(ms, imps.last().imported_name@) {
            Some(j) => seq![(id, ModuleId(j as usize))],
            None => Seq::empty(),
        }
    }
}

/// The dependencies that the imports of module `id` give.
pub open spec fn import_edges(ms: Seq<ModuleInfo>, id: ModuleId) -> Seq<(ModuleId, ModuleId)> {
    if id.0 < ms.len() {
        import_edges_of(ms, id, ms[id.0 as int].imports@)
    } else {
        Seq::empty()
    }
}

/// All loaded modules and their dependencies.
#[derive(Debug)]
pub struct ModuleRegistry {
    /// Indexed by `ModuleId`.
    modules: Vec<ModuleInfo>,
    /// `(from, to)`: `from` uses `to`, in the order they were recorded.
    edges: Vec<(ModuleId, ModuleId)>,
}

/// The index of the first module registered with `path`.
pub open spec fn first_with_path(ms: Seq<ModuleInfo>, path: Seq<char>) -> Option<int>
    decreases ms.len(),
{
    if ms.len() == 0 {
        None
    } else {
        match first_with_path(ms.drop_last(), path) {
            Some(i) => Some(i),
            None => if ms.last().path@ == path {
                Some(ms.len() - 1)
            } else {
                None
            },
        }
    }
}

/// The index of the last module registered with `name`: a later module of
/// the same name takes the name over.
pub open spec fn last_with_name(ms: Seq<ModuleInfo>, name: Seq<char>) -> Option<int>
    decreases ms.len(),
{
    if ms.len() == 0 {
        None
    } else if ms.last().name@ == name {
        Some(ms.len() - 1)
    } else {
        last_with_name(ms.drop_last(), name)
    }
}

proof fn lemma_first_with_path_bound(ms: Seq<ModuleInfo>, path: Seq<char>)
    ensures
        first_with_path(ms, path) matches Some(i) ==> 0 <= i < ms.len(),
    decreases ms.len(),
{
    if ms.len() > 0 {
        lemma_first_with_path_bound(ms.drop_last(), path);
    }
}

proof fn lemma_last_with_name_bound(ms: Seq<ModuleInfo>, name: Seq<char>)
    ensures
        last_with_name(ms, name) matches Some(i) ==> 0 <= i < ms.len(),
    decreases ms.len(),
{
    if ms.len() > 0 {
        lemma_last_with_name_bound(ms.drop_last(), name);
    }
}

impl ModuleRegistry {
    /// The registered modules, indexed by id.
    pub closed spec fn infos(&self) -> Seq<ModuleInfo> {
        self.modules@
    }

    /// The recorded dependencies, in order.
    pub closed spec fn edges(&self) -> Seq<(ModuleId, ModuleId)> {
        self.edges@
    }

    /// Whether `id` names a registered module.
    pub open spec fn registered(&self, id: ModuleId) -> bool {
        id.0 < self.infos().len()
    }

    pub fn new() -> (r: ModuleRegistry)
        ensures
            r.infos() == Seq::<ModuleInfo>::empty(),
            r.edges() == Seq::<(ModuleId, ModuleId)>::empty(),
    {
        ModuleRegistry { modules: Vec::new(), edges: Vec::new() }
    }

    /// Registers a module and returns its id. A path registered before
    /// keeps the id it has, and nothing changes.
    pub fn register_module(&mut self, path: String, name: String, ast: Module, imports: Vec<Import>) -> (id: ModuleId)
        requires
            old(self).infos().len() < usize::MAX,
        ensures
            final(self).edges() == old(self).edges(),
            first_with_path(final(self).infos(), path@) == Some(id.0 as int),
            match first_with_path(old(self).infos(), path@) {
                Some(i) => id.0 == i && final(self).infos() == old(self).infos(),
                None => {
                    &&& id.0 == old(self).infos().len()
                    &&& final(self).infos().len() == old(self).infos().len() + 1
                    &&& final(self).infos().drop_last() == old(self).infos()
                    &&& final(self).infos().last().id == id
                    &&& final(self).infos().last().name == name
                    &&& final(self).infos().last().path == path
                    &&& final(self).infos().last().ast == ast
                    &&& final(self).infos().last().imports == imports
                    &&& final(self).infos().last().exports@.len() == 0
                },
            },
    {
        proof {
            lemma_first_with_path_bound(self.modules@, path@);
        }
        match self.find_module_by_path(&path) {
            Some(id) => {
                return id;
            },
            None => {},
        }
        let id = ModuleId(self.modules.len());
        let ghost p = path@;
        let info = ModuleInfo { id, name, path, ast, imports, exports: SymbolTable::new() };
        self.modules.push(info);
        proof {
            assert(self.modules@.drop_last() =~= old(self).modules@);
            assert(self.modules@.last().path@ == p);
        }
        id
    }

    /// The module that currently holds `name`.
    pub fn find_module_by_name(&self, name: &str) -> (r: Option<ModuleId>)
        ensures
            r == (match last_with_name(self.infos(), name@) {
                Some(i) => Some(ModuleId(i as usize)),
                None => None,
            }),
    {
        let mut i = self.modules.len();
        proof {
            assert(self.modules@.take(i as int) =~= self.modules@);
        }
        while i > 0
            invariant
                i <= self.modules@.len(),
                last_with_name(self.modules@, name@) == last_with_name(
                    self.modules@.take(i as int),
                    name@,
                ),
            decreases i,
        {
            proof {
                assert(self.modules@.take(i as int).drop_last() =~= self.modules@.take(i - 1));
            }
            if str_eq(self.modules[i - 1].name.as_str(), name) {
                return Some(ModuleId(i - 1));
            }
            i = i - 1;
        }
        None
    }

    /// The module registered with `path`.
    pub fn find_module_by_path(&self, path: &String) -> (r: Option<ModuleId>)
        ensures
            r == (match first_with_path(self.infos(), path@) {
                Some(i) => Some(ModuleId(i as usize)),
                None => None,
            }),
    {
        let mut i: usize = 0;
        while i < self.modules.len()
            invariant
                i <= self.modules@.len(),
                first_with_path(self.modules@.take(i as int), path@) is None,
            decreases self.modules@.len() - i,
        {
            proof {
                assert(self.modules@.take(i + 1).drop_last() =~= self.modules@.take(i as int));
            }
            if str_eq(self.modules[i].path.as_str(), path.as_str()) {
                proof {
                    lemma_first_with_path_prefix(self.modules@, path@, i + 1);
                }
                return Some(ModuleId(i));
            }
            i = i + 1;
        }
        proof {
            assert(self.modules@.take(i as int) =~= self.modules@);
        }
        None
    }

    /// The information of a registered module.
    pub fn get_module(&self, id: ModuleId) -> (r: Option<&ModuleInfo>)
        ensures
            r == (if self.registered(id) {
                Some(&self.infos()[id.0 as int])
            } else {
                None
            }),
    {
        if id.0 < self.modules.len() {
            Some(&self.modules[id.0])
        } else {
            None
        }
    }

    /// The information of a registered module, to change it.
    pub fn get_module_mut(&mut self, id: ModuleId) -> (r: Option<&mut ModuleInfo>)
        ensures
            final(self).edges() == old(self).edges(),
            match r {
                Some(m) => {
                    &&& old(self).registered(id)
                    &&& *m == old(self).infos()[id.0 as int]
                    &&& final(self).infos() == old(self).infos().update(id.0 as int, *final(m))
                },
                None => !old(self).registered(id) && final(self).infos() == old(self).infos(),
            },
    {
        if id.0 < self.modules.len() {
            Some(&mut self.modules[id.0])
        } else {
            None
        }
    }

    /// Records that `from_module` uses `to_module`.
    pub fn add_dependency(&mut self, from_module: ModuleId, to_module: ModuleId)
        ensures
            final(self).infos() == old(self).infos(),
            final(self).edges() == old(self).edges().push((from_module, to_module)),
    {
        self.edges.push((from_module, to_module));
    }

    /// Records, for each import of module `id` in order, a dependency on
    /// the module that holds the imported name, where one does; imports of
    /// names no module holds add nothing.
    pub fn link_imports(&mut self, id: ModuleId)
        ensures
            final(self).infos() == old(self).infos(),
            final(self).edges() == old(self).edges() + import_edges(old(self).infos(), id),
    {
        if id.0 >= self.modules.len() {
            proof {
                assert(old(self).edges() + Seq::<(ModuleId, ModuleId)>::empty() =~= old(self).edges());
            }
            return;
        }
        let mut names: Vec<String> = Vec::new();
        let ghost imps = self.modules@[id.0 as int].imports@;
        let n = self.modules[id.0].imports.len();
        let mut k: usize = 0;
        while k < n
            invariant
                n == imps.len(),
                imps == self.modules@[id.0 as int].imports@,
                id.0 < self.modules@.len(),
                k <= n,
                names@.len() == k,
                forall|j: int| 0 <= j < k ==> (#[trigger] names@[j])@ == imps[j].imported_name@,
            decreases n - k,
        {
            names.push(self.modules[id.0].imports[k].imported_name.clone());
            k = k + 1;
        }
        let mut i: usize = 0;
        proof {
            assert(imps.take(0) =~= Seq::<Import>::empty());
            assert(old(self).edges() + Seq::<(ModuleId, ModuleId)>::empty() =~= old(self).edges());
        }
        while i < names.len()
            invariant
                names@.len() == imps.len(),
                forall|j: int| 0 <= j < names@.len() ==> (#[trigger] names@[j])@ == imps[j].imported_name@,
                imps == old(self).infos()[id.0 as int].imports@,
                id.0 < old(self).infos().len(),
                i <= names@.len(),
                self.infos() == old(self).infos(),
                self.edges() == old(self).edges() + import_edges_of(old(self).infos(), id, imps.take(i as int)),
            decreases names@.len() - i,
        {
            proof {
                assert(imps.take(i + 1).drop_last() =~= imps.take(i as int));
                assert(imps.take(i + 1).last() == imps[i as int]);
            }
            let ghost before = self.edges();
            match self.find_module_by_name(names[i].as_str()) {
                Some(dep) => {
                    self.add_dependency(id, dep);
                    proof {
                        assert(before.push((id, dep)) =~= old(self).edges() + import_edges_of(
                            old(self).infos(),
                            id,
                            imps.take(i + 1),
                        ));
                    }
                },
                None => {
                    proof {
                        assert(before =~= old(self).edges() + import_edges_of(old(self).infos(), id, imps.take(i + 1)));
                    }
                },
            }
            i = i + 1;
        }
        proof {
            assert(imps.take(i as int) =~= imps);
        }
    }

    /// The exported symbols of a registered module.
    pub fn get_exports(&self, id: ModuleId) -> (r: Option<&SymbolTable>)
        ensures
            r == (if self.registered(id) {
                Some(&self.infos()[id.0 as int].exports)
            } else {
                None
            }),
    {
        if id.0 < self.modules.len() {
            Some(&self.modules[id.0].exports)
        } else {
            None
        }
    }

    /// Every registered id, in registration order.
    pub fn all_module_ids(&self) -> (v: Vec<ModuleId>)
        ensures
            v@.len() == self.infos().len(),
            forall|i: int| 0 <= i < v@.len() ==> v@[i] == ModuleId(i as usize),
    {
        let mut v: Vec<ModuleId> = Vec::new();
        let mut i: usize = 0;
        while i < self.modules.len()
            invariant
                i <= self.modules@.len(),
                v@.len() == i,
                forall|j: int| 0 <= j < i ==> v@[j] == ModuleId(j as usize),
            decreases self.modules@.len() - i,
        {
            v.push(ModuleId(i));
            i = i + 1;
        }
        v
    }

    /// Every registered id, in registration order.
    pub fn all_modules(&self) -> (v: Vec<ModuleId>)
        ensures
            v@.len() == self.infos().len(),
            forall|i: int| 0 <= i < v@.len() ==> v@[i] == ModuleId(i as usize),
    {
        self.all_module_ids()
    }

    /// The number of registered modules.
    pub fn len(&self) -> (n: usize)
        ensures
            n == self.infos().len(),
    {
        self.modules.len()
    }

    pub fn is_empty(&self) -> (b: bool)
        ensures
            b == (self.infos().len() == 0),
    {
        self.modules.len() == 0
    }
}

/// `b` starts with `a`.
pub open spec fn extends(a: Seq<ModuleId>, b: Seq<ModuleId>) -> bool {
    a.len() <= b.len() && forall|j: int| 0 <= j < a.len() ==> #[trigger] b[j] == a[j]
}

/// Each module of `c`, but the first, is used by the one after it.
pub open spec fn used_by_next(edges: Seq<(ModuleId, ModuleId)>, c: Seq<ModuleId>) -> bool {
    forall|i: int| 0 <= i < c.len() - 1 ==> has_edge(edges, c[i + 1], #[trigger] c[i])
}

/// `visited` lists finished modules, each after every module it uses.
pub open spec fn finished_in_order(edges: Seq<(ModuleId, ModuleId)>, visited: Seq<ModuleId>) -> bool {
    forall|ix: int, e: int|
        #![trigger edges[e], visited[ix]]
        0 <= ix < visited.len() && 0 <= e < edges.len() && edges[e].0 == visited[ix] ==> exists|
            iy: int,
        |
            0 <= iy < ix && #[trigger] visited[iy] == edges[e].1
}

/// How many entries of `univ` are neither in `a` nor in `b`.
pub open spec fn count_open(univ: Seq<ModuleId>, a: Seq<ModuleId>, b: Seq<ModuleId>) -> nat
    decreases univ.len(),
{
    if univ.len() == 0 {
        0
    } else {
        count_open(univ.drop_last(), a, b) + if a.contains(univ.last()) || b.contains(
            univ.last(),
        ) {
            0nat
        } else {
            1nat
        }
    }
}

proof fn lemma_count_open_shrinks(
    univ: Seq<ModuleId>,
    a1: Seq<ModuleId>,
    b1: Seq<ModuleId>,
    a2: Seq<ModuleId>,
    b2: Seq<ModuleId>,
    u: ModuleId,
)
    requires
        forall|x: ModuleId| a1.contains(x) || b1.contains(x) ==> a2.contains(x) || b2.contains(x),
    ensures
        count_open(univ, a2, b2) <= count_open(univ, a1, b1),
        univ.contains(u) && (a2.contains(u) || b2.contains(u)) && !(a1.contains(u) || b1.contains(
            u,
        )) ==> count_open(univ, a2, b2) < count_open(univ, a1, b1),
    decreases univ.len(),
{
    if univ.len() > 0 {
        let init = univ.drop_last();
        lemma_count_open_shrinks(init, a1, b1, a2, b2, u);
        if univ.contains(u) && univ.last() != u {
            let k = choose|k: int| 0 <= k < univ.len() && univ[k] == u;
            assert(init[k] == u);
        }
    }
}

/// No finished module lies on a dependency cycle.
proof fn lemma_cycle_not_finished(
    edges: Seq<(ModuleId, ModuleId)>,
    visited: Seq<ModuleId>,
    c: Seq<ModuleId>,
    p: int,
)
    requires
        finished_in_order(edges, visited),
        is_cycle(edges, c),
        0 <= p < visited.len(),
    ensures
        forall|j: int| 0 <= j < c.len() ==> visited[p] != #[trigger] c[j],
    decreases p,
{
    assert forall|j: int| 0 <= j < c.len() implies visited[p] != #[trigger] c[j] by {
        if visited[p] == c[j] {
            let next = if j == 0 {
                c.len() - 1
            } else {
                j - 1
            };
            if j > 0 {
                assert(has_edge(edges, c[j], c[j - 1]));
            }
            assert(has_edge(edges, c[j], c[next]));
            let e = choose|e: int| 0 <= e < edges.len() && #[trigger] edges[e] == (c[j], c[next]);
            assert(edges[e].0 == visited[p]);
            let iy = choose|iy: int| 0 <= iy < p && #[trigger] visited[iy] == edges[e].1;
            lemma_cycle_not_finished(edges, visited, c, iy);
            assert(visited[iy] != c[next]);
        }
    }
}

/// Whether `v` holds `x`.
fn holds(v: &Vec<ModuleId>, x: ModuleId) -> (b: bool)
    ensures
        b == v@.contains(x),
{
    let mut i: usize = 0;
    while i < v.len()
        invariant
            i <= v@.len(),
            forall|j: int| 0 <= j < i ==> v@[j] != x,
        decreases v@.len() - i,
    {
        if v[i] == x {
            return true;
        }
        i = i + 1;
    }
    false
}

impl ModuleRegistry {
    /// Every module that the search may meet: the registered ones and both
    /// ends of every dependency.
    pub closed spec fn universe(&self) -> Seq<ModuleId> {
        Seq::new(self.modules@.len(), |i: int| ModuleId(i as usize)) + self.edges@.map_values(
            |e: (ModuleId, ModuleId)| e.1,
        )
    }

    proof fn lemma_universe(&self)
        ensures
            forall|m: ModuleId| m.0 < self.infos().len() ==> #[trigger] self.universe().contains(m),
            forall|e: int| 0 <= e < self.edges().len() ==> self.universe().contains(#[trigger] self.edges()[e].1),
    {
        let n = self.modules@.len();
        assert forall|m: ModuleId| m.0 < n implies #[trigger] self.universe().contains(m) by {
            assert(self.universe()[m.0 as int] == m);
        }
        assert forall|e: int| 0 <= e < self.edges@.len() implies self.universe().contains(#[trigger] self.edges()[e].1) by {
            assert(self.universe()[n + e] == self.edges@[e].1);
        }
    }

    /// Depth-first search from `u`. `visiting` holds the modules on the
    /// current search path, `visited` those already finished.
    fn dfs_cycle_check(
        &self,
        u: ModuleId,
        visiting: &mut Vec<ModuleId>,
        visited: &mut Vec<ModuleId>,
        Ghost(univ): Ghost<Seq<ModuleId>>,
    ) -> (r: Result<(), (Vec<ModuleId>, bool)>)
        requires
            univ == self.universe(),
            univ.contains(u),
            finished_in_order(self.edges(), old(visited)@),
        ensures
            extends(old(visited)@, final(visited)@),
            finished_in_order(self.edges(), final(visited)@),
            r is Ok ==> final(visiting)@ == old(visiting)@ && final(visited)@.contains(u),
            r matches Err((c, closed)) ==> c@.len() > 0 && (closed ==> is_cycle(self.edges(), c@)) && (!closed ==> (
            old(visiting)@.contains(c@[0]) && c@.last() == u && used_by_next(self.edges(), c@))),
        decreases count_open(univ, old(visiting)@, old(visited)@),
    {
        if holds(visiting, u) {
            return Err((vec![u], false));
        }
        if holds(visited, u) {
            return Ok(());
        }
        visiting.push(u);
        proof {
            self.lemma_universe();
        }
        let mut e: usize = 0;
        while e < self.edges.len()
            invariant
                univ == self.universe(),
                univ.contains(u),
                !old(visiting)@.contains(u),
                !old(visited)@.contains(u),
                visiting@ == old(visiting)@.push(u),
                extends(old(visited)@, visited@),
                finished_in_order(self.edges(), visited@),
                e <= self.edges@.len(),
                forall|k: int|
                    0 <= k < e && (#[trigger] self.edges@[k]).0 == u ==> visited@.contains(
                        self.edges@[k].1,
                    ),
                forall|ed: int| 0 <= ed < self.edges().len() ==> univ.contains(#[trigger] self.edges()[ed].1),
            decreases self.edges@.len() - e,
        {
            let (from, to) = self.edges[e];
            if from == u {
                proof {
                    assert(univ.contains(self.edges()[e as int].1));
                    assert forall|x: ModuleId|
                        old(visiting)@.contains(x) || old(visited)@.contains(x) implies visiting@.contains(x)
                        || visited@.contains(x) by {
                        if old(visiting)@.contains(x) {
                            let k = choose|k: int| 0 <= k < old(visiting)@.len() && old(visiting)@[k] == x;
                            assert(visiting@[k] == x);
                        } else {
                            let k = choose|k: int| 0 <= k < old(visited)@.len() && old(visited)@[k] == x;
                            assert(visited@[k] == x);
                        }
                    }
                    assert(visiting@[visiting@.len() - 1] == u);
                    lemma_count_open_shrinks(univ, old(visiting)@, old(visited)@, visiting@, visited@, u);
                }
                let ghost before = visited@;
                let ghost vis_before = visiting@;
                match self.dfs_cycle_check(to, visiting, visited, Ghost(univ)) {
                    Err((mut cycle, closed)) => {
                        proof {
                            assert(has_edge(self.edges(), u, to)) by {
                                assert(self.edges()[e as int] == (u, to));
                            }
                        }
                        // A closed cycle goes up unchanged.
                        if closed {
                            return Err((cycle, true));
                        }
                        if cycle[0] == u {
                            return Err((cycle, true));
                        }
                        let ghost c0 = cycle@;
                        cycle.push(u);
                        proof {
                            assert(old(visiting)@.contains(c0[0])) by {
                                let k = choose|k: int| 0 <= k < vis_before.len() && vis_before[k] == c0[0];
                                assert(k < old(visiting)@.len());
                                assert(old(visiting)@[k] == c0[0]);
                            }
                            assert forall|i: int| 0 <= i < cycle@.len() - 1 implies has_edge(
                                self.edges(),
                                cycle@[i + 1],
                                #[trigger] cycle@[i],
                            ) by {
                                if i < c0.len() - 1 {
                                    assert(cycle@[i] == c0[i]);
                                    assert(cycle@[i + 1] == c0[i + 1]);
                                }
                            }
                        }
                        return Err((cycle, false));
                    },
                    Ok(()) => {
                        proof {
                            assert forall|k: int|
                                0 <= k < e + 1 && (#[trigger] self.edges@[k]).0 == u implies visited@.contains(
                                self.edges@[k].1,
                            ) by {
                                if k < e {
                                    let j = choose|j: int| 0 <= j < before.len() && before[j] == self.edges@[k].1;
                                    assert(visited@[j] == before[j]);
                                }
                            }
                            assert(extends(old(visited)@, visited@)) by {
                                assert forall|j: int| 0 <= j < old(visited)@.len() implies old(visited)@[j] == visited@[j] by {
                                    assert(before[j] == old(visited)@[j]);
                                }
                            }
                        }
                    },
                }
            }
            e = e + 1;
        }
        let ghost before = visited@;
        visiting.pop();
        visited.push(u);
        proof {
            assert(visiting@ =~= old(visiting)@);
            assert(visited@[visited@.len() - 1] == u);
            assert(extends(old(visited)@, visited@)) by {
                assert forall|j: int| 0 <= j < old(visited)@.len() implies old(visited)@[j] == visited@[j] by {
                    assert(before[j] == old(visited)@[j]);
                }
            }
            assert forall|ix: int, ed: int|
                #![trigger self.edges()[ed], visited@[ix]]
                0 <= ix < visited@.len() && 0 <= ed < self.edges().len() && self.edges()[ed].0 == visited@[ix] implies exists|
                    iy: int,
                |
                    0 <= iy < ix && #[trigger] visited@[iy] == self.edges()[ed].1 by {
                if ix < before.len() {
                    assert(visited@[ix] == before[ix]);
                    let iy = choose|iy: int| 0 <= iy < ix && #[trigger] before[iy] == self.edges()[ed].1;
                    assert(visited@[iy] == before[iy]);
                } else {
                    assert(self.edges@[ed].0 == u);
                    let iy = choose|iy: int| 0 <= iy < before.len() && before[iy] == self.edges()[ed].1;
                    assert(visited@[iy] == before[iy]);
                }
            }
        }
        Ok(())
    }

    /// Looks for a dependency cycle by depth-first search. `Err` carries the
    /// modules of one cycle, written backwards: each module used by the
    /// next, the first using the last. `Ok` means no registered module lies
    /// on any cycle.
    pub fn check_cycles(&self) -> (r: Result<(), Vec<ModuleId>>)
        ensures
            r matches Err(c) ==> is_cycle(self.edges(), c@),
            r is Ok ==> forall|c: Seq<ModuleId>, j: int|
                is_cycle(self.edges(), c) && 0 <= j < c.len() ==> !self.registered(#[trigger] c[j]),
    {
        let ghost univ = self.universe();
        proof {
            self.lemma_universe();
        }
        let mut visiting: Vec<ModuleId> = Vec::new();
        let mut visited: Vec<ModuleId> = Vec::new();
        let mut i: usize = 0;
        while i < self.modules.len()
            invariant
                univ == self.universe(),
                i <= self.modules@.len(),
                visiting@ == Seq::<ModuleId>::empty(),
                finished_in_order(self.edges(), visited@),
                forall|m: ModuleId| m.0 < i ==> #[trigger] visited@.contains(m),
                forall|m: ModuleId| m.0 < self.infos().len() ==> #[trigger] univ.contains(m),
            decreases self.modules@.len() - i,
        {
            let ghost before = visited@;
            if !holds(&visited, ModuleId(i)) {
                match self.dfs_cycle_check(ModuleId(i), &mut visiting, &mut visited, Ghost(univ)) {
                    Err((c, closed)) => {
                        proof {
                            assert(closed);
                        }
                        return Err(c);
                    },
                    Ok(()) => {},
                }
            }
            proof {
                assert forall|m: ModuleId| m.0 < i + 1 implies #[trigger] visited@.contains(m) by {
                    if m.0 < i {
                        assert(before.contains(m));
                        let k = choose|k: int| 0 <= k < before.len() && before[k] == m;
                        assert(extends(before, visited@));
                        assert(visited@[k] == before[k]);
                    }
                }
            }
            i = i + 1;
        }
        proof {
            assert forall|c: Seq<ModuleId>, j: int|
                is_cycle(self.edges(), c) && 0 <= j < c.len() implies !self.registered(#[trigger] c[j]) by {
                if self.registered(c[j]) {
                    assert(visited@.contains(c[j]));
                    let p = choose|p: int| 0 <= p < visited@.len() && visited@[p] == c[j];
                    lemma_cycle_not_finished(self.edges(), visited@, c, p);
                }
            }
        }
        Ok(())
    }
}

/// How many edges into `t` still wait on their source: sources in `done`
/// are finished, and so are the edges of `u` before index `j`.
pub open spec fn pending(edges: Seq<(ModuleId, ModuleId)>, t: ModuleId, done: Seq<ModuleId>, u: ModuleId, j: int) -> nat
    decreases edges.len(),
{
    if edges.len() == 0 {
        0
    } else {
        let e = edges.last();
        pending(edges.drop_last(), t, done, u, j) + if e.1 == t && !done.contains(e.0) && !(e.0 == u
            && edges.len() - 1 < j) {
            1nat
        } else {
            0nat
        }
    }
}

proof fn lemma_pending_step(edges: Seq<(ModuleId, ModuleId)>, t: ModuleId, done: Seq<ModuleId>, u: ModuleId, j: int)
    requires
        0 <= j < edges.len(),
    ensures
        pending(edges, t, done, u, j) == pending(edges, t, done, u, j + 1) + if edges[j].0 == u
            && edges[j].1 == t && !done.contains(u) {
            1nat
        } else {
            0nat
        },
    decreases edges.len(),
{
    if j < edges.len() - 1 {
        lemma_pending_step(edges.drop_last(), t, done, u, j);
    } else {
        lemma_pending_all(edges.drop_last(), t, done, u, j);
        lemma_pending_all(edges.drop_last(), t, done, u, j + 1);
    }
}

/// Edges at or past the end are not affected by `j`.
proof fn lemma_pending_all(edges: Seq<(ModuleId, ModuleId)>, t: ModuleId, done: Seq<ModuleId>, u: ModuleId, j: int)
    requires
        edges.len() <= j,
    ensures
        pending(edges, t, done, u, j) == pending(edges, t, done, u, edges.len() as int),
    decreases edges.len(),
{
    if edges.len() > 0 {
        lemma_pending_all(edges.drop_last(), t, done, u, j);
        lemma_pending_all(edges.drop_last(), t, done, u, edges.len() as int);
        lemma_pending_all(edges.drop_last(), t, done, u, edges.len() - 1);
    }
}

/// Finishing every edge of `u` is finishing `u`.
proof fn lemma_pending_finish(edges: Seq<(ModuleId, ModuleId)>, t: ModuleId, done: Seq<ModuleId>, u: ModuleId, w: ModuleId)
    ensures
        pending(edges, t, done, u, edges.len() as int) == pending(edges, t, done.push(u), w, 0),
    decreases edges.len(),
{
    if edges.len() > 0 {
        lemma_pending_finish(edges.drop_last(), t, done, u, w);
        lemma_pending_all(edges.drop_last(), t, done, u, edges.len() as int);
        let e = edges.last();
        assert(done.push(u).contains(e.0) == (done.contains(e.0) || e.0 == u)) by {
            if done.push(u).contains(e.0) {
                let k = choose|k: int| 0 <= k < done.push(u).len() && done.push(u)[k] == e.0;
                if k < done.len() {
                    assert(done[k] == e.0);
                }
            }
            if done.contains(e.0) {
                let k = choose|k: int| 0 <= k < done.len() && done[k] == e.0;
                assert(done.push(u)[k] == e.0);
            }
            assert(done.push(u)[done.len() as int] == u);
        }
    }
}

/// Before any edge of `u` is finished, which `u` it is does not matter.
proof fn lemma_pending_start(edges: Seq<(ModuleId, ModuleId)>, t: ModuleId, done: Seq<ModuleId>, u1: ModuleId, u2: ModuleId)
    ensures
        pending(edges, t, done, u1, 0) == pending(edges, t, done, u2, 0),
    decreases edges.len(),
{
    if edges.len() > 0 {
        lemma_pending_start(edges.drop_last(), t, done, u1, u2);
    }
}

/// Something pending into `t` is an edge from an unfinished source.
proof fn lemma_pending_positive(edges: Seq<(ModuleId, ModuleId)>, t: ModuleId, done: Seq<ModuleId>, u: ModuleId)
    requires
        pending(edges, t, done, u, 0) > 0,
    ensures
        exists|e: int| 0 <= e < edges.len() && (#[trigger] edges[e]).1 == t && !done.contains(edges[e].0),
    decreases edges.len(),
{
    if edges.len() > 0 {
        let e = edges.last();
        if e.1 == t && !done.contains(e.0) {
            assert(edges[edges.len() - 1] == e);
        } else {
            lemma_pending_positive(edges.drop_last(), t, done, u);
            let k = choose|k: int|
                0 <= k < edges.drop_last().len() && (#[trigger] edges.drop_last()[k]).1 == t && !done.contains(
                    edges.drop_last()[k].0,
                );
            assert(edges[k] == edges.drop_last()[k]);
        }
    }
}

/// `x` is used by a module of `nodes` that satisfies `stuck`.
spec fn stuck_user(
    edges: Seq<(ModuleId, ModuleId)>,
    nodes: Seq<ModuleId>,
    stuck: spec_fn(ModuleId) -> bool,
    x: ModuleId,
) -> bool {
    exists|y: ModuleId| nodes.contains(y) && stuck(y) && has_edge(edges, y, x)
}

/// Each module of `nodes` that satisfies `stuck` is used by another such.
spec fn all_stuck_used(edges: Seq<(ModuleId, ModuleId)>, nodes: Seq<ModuleId>, stuck: spec_fn(ModuleId) -> bool) -> bool {
    forall|x: ModuleId| nodes.contains(x) && stuck(x) ==> #[trigger] stuck_user(edges, nodes, stuck, x)
}

/// Steps back from `x0` to a user, again and again, staying among the
/// modules of `nodes` that satisfy `stuck`.
spec fn walk(
    edges: Seq<(ModuleId, ModuleId)>,
    nodes: Seq<ModuleId>,
    stuck: spec_fn(ModuleId) -> bool,
    x0: ModuleId,
    k: nat,
) -> ModuleId
    decreases k,
{
    if k == 0 {
        x0
    } else {
        let x = walk(edges, nodes, stuck, x0, (k - 1) as nat);
        choose|y: ModuleId| nodes.contains(y) && stuck(y) && has_edge(edges, y, x)
    }
}

proof fn lemma_walk(
    edges: Seq<(ModuleId, ModuleId)>,
    nodes: Seq<ModuleId>,
    stuck: spec_fn(ModuleId) -> bool,
    x0: ModuleId,
    k: nat,
)
    requires
        nodes.contains(x0),
        stuck(x0),
        all_stuck_used(edges, nodes, stuck),
    ensures
        nodes.contains(walk(edges, nodes, stuck, x0, k)),
        stuck(walk(edges, nodes, stuck, x0, k)),
        k > 0 ==> has_edge(edges, walk(edges, nodes, stuck, x0, k), walk(edges, nodes, stuck, x0, (k - 1) as nat)),
    decreases k,
{
    if k > 0 {
        lemma_walk(edges, nodes, stuck, x0, (k - 1) as nat);
        let x = walk(edges, nodes, stuck, x0, (k - 1) as nat);
        assert(stuck_user(edges, nodes, stuck, x));
    }
}

/// A walk longer than `nodes` visits some module twice.
proof fn lemma_walk_repeats(
    edges: Seq<(ModuleId, ModuleId)>,
    nodes: Seq<ModuleId>,
    stuck: spec_fn(ModuleId) -> bool,
    x0: ModuleId,
) -> (r: (int, int))
    requires
        nodes.contains(x0),
        stuck(x0),
        all_stuck_used(edges, nodes, stuck),
    ensures
        0 <= r.0 < r.1 <= nodes.len(),
        walk(edges, nodes, stuck, x0, r.0 as nat) == walk(edges, nodes, stuck, x0, r.1 as nat),
{
    let n = nodes.len();
    let w = Seq::new(n + 1, |k: int| walk(edges, nodes, stuck, x0, k as nat));
    assert forall|k: int| 0 <= k < w.len() implies nodes.contains(#[trigger] w[k]) by {
        lemma_walk(edges, nodes, stuck, x0, k as nat);
    }
    assert(w.to_set().subset_of(nodes.to_set()));
    nodes.lemma_cardinality_of_set();
    vstd::set_lib::lemma_len_subset(w.to_set(), nodes.to_set());
    if w.no_duplicates() {
        w.unique_seq_to_set();
        assert(false);
    }
    let (a0, b0) = choose|a: int, b: int| 0 <= a < w.len() && 0 <= b < w.len() && a != b && w[a] == w[b];
    assert(w[a0] == w[b0]);
    if a0 < b0 {
        (a0, b0)
    } else {
        (b0, a0)
    }
}

/// Among finitely many modules, if each one that is `stuck` is used by
/// another that is `stuck`, the uses go round a cycle.
proof fn lemma_stuck_has_cycle(
    edges: Seq<(ModuleId, ModuleId)>,
    nodes: Seq<ModuleId>,
    stuck: spec_fn(ModuleId) -> bool,
    x0: ModuleId,
) -> (c: Seq<ModuleId>)
    requires
        nodes.contains(x0),
        stuck(x0),
        all_stuck_used(edges, nodes, stuck),
    ensures
        is_cycle(edges, c),
{
    let (a, b) = lemma_walk_repeats(edges, nodes, stuck, x0);
    let c = Seq::new((b - a) as nat, |i: int| walk(edges, nodes, stuck, x0, (a + i) as nat));
    lemma_walk(edges, nodes, stuck, x0, b as nat);
    assert(has_edge(edges, c[0], c[c.len() - 1]));
    assert forall|i: int| 0 <= i < c.len() - 1 implies has_edge(edges, c[i + 1], #[trigger] c[i]) by {
        lemma_walk(edges, nodes, stuck, x0, (a + i + 1) as nat);
    }
    c
}

/// With nothing pending, every edge into `t` has a finished source.
proof fn lemma_pending_zero(edges: Seq<(ModuleId, ModuleId)>, t: ModuleId, done: Seq<ModuleId>, u: ModuleId, j: int)
    requires
        pending(edges, t, done, u, j) == 0,
    ensures
        forall|e: int|
            0 <= e < edges.len() && (#[trigger] edges[e]).1 == t ==> done.contains(edges[e].0) || (
            edges[e].0 == u && e < j),
    decreases edges.len(),
{
    if edges.len() > 0 {
        lemma_pending_zero(edges.drop_last(), t, done, u, j);
        assert forall|e: int|
            0 <= e < edges.len() && (#[trigger] edges[e]).1 == t implies done.contains(edges[e].0) || (
            edges[e].0 == u && e < j) by {
            if e < edges.len() - 1 {
                assert(edges.drop_last()[e] == edges[e]);
            }
        }
    }
}

/// With no source finished, what is pending is every edge into `t`.
proof fn lemma_pending_prefix(edges: Seq<(ModuleId, ModuleId)>, t: ModuleId, u: ModuleId, e: int)
    requires
        0 <= e < edges.len(),
    ensures
        pending(edges.take(e + 1), t, Seq::empty(), u, 0) == pending(edges.take(e), t, Seq::empty(), u, 0)
            + if edges[e].1 == t {
            1nat
        } else {
            0nat
        },
{
    assert(edges.take(e + 1).drop_last() =~= edges.take(e));
    assert(!Seq::<ModuleId>::empty().contains(edges[e].0));
}

/// How many entries of `deg` are not zero.
pub open spec fn count_nonzero(deg: Seq<usize>) -> nat
    decreases deg.len(),
{
    if deg.len() == 0 {
        0
    } else {
        count_nonzero(deg.drop_last()) + if deg.last() != 0 {
            1nat
        } else {
            0nat
        }
    }
}

proof fn lemma_count_nonzero_update(deg: Seq<usize>, k: int, v: usize)
    requires
        0 <= k < deg.len(),
    ensures
        count_nonzero(deg.update(k, v)) + (if deg[k] != 0 {
            1int
        } else {
            0int
        }) == count_nonzero(deg) + (if v != 0 {
            1int
        } else {
            0int
        }),
    decreases deg.len(),
{
    if k < deg.len() - 1 {
        assert(deg.update(k, v).drop_last() =~= deg.drop_last().update(k, v));
        lemma_count_nonzero_update(deg.drop_last(), k, v);
    } else {
        assert(deg.update(k, v).drop_last() =~= deg.drop_last());
    }
}

/// The index in `nodes` of `t`: registered ids stand at their own index,
/// others after them.
fn node_index(nodes: &Vec<ModuleId>, n: usize, t: ModuleId) -> (k: usize)
    requires
        n <= nodes@.len(),
        forall|i: int| 0 <= i < n ==> (#[trigger] nodes@[i]).0 == i,
        forall|i: int| n <= i < nodes@.len() ==> (#[trigger] nodes@[i]).0 >= n,
        nodes@.contains(t),
    ensures
        k < nodes@.len(),
        nodes@[k as int] == t,
{
    if t.0 < n {
        proof {
            assert(nodes@[t.0 as int].0 == t.0);
        }
        return t.0;
    }
    let mut i = n;
    while i < nodes.len()
        invariant
            n <= i <= nodes@.len(),
            nodes@.contains(t),
            forall|j: int| 0 <= j < i ==> nodes@[j] != t,
            forall|j: int| 0 <= j < n ==> (#[trigger] nodes@[j]).0 == j,
            t.0 >= n,
        decreases nodes@.len() - i,
    {
        if nodes[i] == t {
            return i;
        }
        i = i + 1;
    }
    proof {
        let k = choose|k: int| 0 <= k < nodes@.len() && nodes@[k] == t;
        assert(nodes@[k] != t);
    }
    0
}

impl ModuleRegistry {
    /// Every dependency joins two registered modules.
    pub open spec fn edges_registered(&self) -> bool {
        forall|e: int|
            0 <= e < self.edges().len() ==> self.registered((#[trigger] self.edges()[e]).0)
                && self.registered(self.edges()[e].1)
    }

    /// Orders the modules for compilation by Kahn's algorithm: a module
    /// comes after every module it uses. `Err` when some module could not
    /// be placed, as happens on a cycle.
    pub fn topological_sort(&self) -> (r: Result<Vec<ModuleId>, ()>)
        ensures
            r matches Ok(s) ==> {
                &&& s@.len() == self.infos().len()
                &&& s@.no_duplicates()
                &&& forall|i: int, j: int, e: int|
                    0 <= i < s@.len() && 0 <= j < s@.len() && 0 <= e < self.edges().len()
                        && #[trigger] self.edges()[e] == (#[trigger] s@[j], #[trigger] s@[i]) ==> i < j
                &&& self.edges_registered() ==> forall|i: int|
                    0 <= i < s@.len() ==> self.registered(#[trigger] s@[i])
            },
            self.edges_registered() && (forall|c: Seq<ModuleId>, j: int|
                is_cycle(self.edges(), c) && 0 <= j < c.len() ==> !self.registered(#[trigger] c[j])) ==> r is Ok,
    {
        let n = self.modules.len();
        // The nodes: registered modules first, then modules that are only
        // named as a dependency.
        let mut nodes: Vec<ModuleId> = Vec::new();
        let mut i: usize = 0;
        while i < n
            invariant
                n == self.modules@.len(),
                i <= n,
                nodes@.len() == i,
                forall|j: int| 0 <= j < i ==> (#[trigger] nodes@[j]).0 == j,
            decreases n - i,
        {
            nodes.push(ModuleId(i));
            i = i + 1;
        }
        let mut e: usize = 0;
        while e < self.edges.len()
            invariant
                n == self.modules@.len(),
                n <= nodes@.len(),
                e <= self.edges@.len(),
                forall|j: int| 0 <= j < n ==> (#[trigger] nodes@[j]).0 == j,
                forall|j: int| n <= j < nodes@.len() ==> (#[trigger] nodes@[j]).0 >= n,
                nodes@.no_duplicates(),
                forall|k: int| 0 <= k < e ==> nodes@.contains((#[trigger] self.edges@[k]).1),
                forall|j: int|
                    n <= j < nodes@.len() ==> exists|k: int| 0 <= k < e && (#[trigger] self.edges@[k]).1 == #[trigger] nodes@[j],
                nodes@.len() <= n + e,
            decreases self.edges@.len() - e,
        {
            let t = self.edges[e].1;
            if t.0 >= n && !holds(&nodes, t) {
                let ghost before = nodes@;
                nodes.push(t);
                proof {
                    assert forall|k: int| 0 <= k < e implies nodes@.contains((#[trigger] self.edges@[k]).1) by {
                        let j = choose|j: int| 0 <= j < before.len() && before[j] == self.edges@[k].1;
                        assert(nodes@[j] == before[j]);
                    }
                    assert(nodes@[nodes@.len() - 1] == t);
                    assert forall|j: int|
                        n <= j < nodes@.len() implies exists|k: int| 0 <= k < e + 1 && (#[trigger] self.edges@[k]).1 == #[trigger] nodes@[j] by {
                        if j < before.len() {
                            assert(nodes@[j] == before[j]);
                        } else {
                            assert(self.edges@[e as int].1 == nodes@[j]);
                        }
                    }
                }
            } else if t.0 < n {
                proof {
                    assert(nodes@[t.0 as int] == t);
                }
            }
            e = e + 1;
        }
        let ghost nv = nodes@;
        assert forall|j: int|
            n <= j < nv.len() implies exists|k: int| 0 <= k < self.edges@.len() && (#[trigger] self.edges@[k]).1 == #[trigger] nv[j] by {
            let k = choose|k: int| 0 <= k < e && (#[trigger] self.edges@[k]).1 == #[trigger] nodes@[j];
            assert(self.edges@[k].1 == nv[j]);
        }
        // In-degree of every node: the edges that point at it.
        let mut deg: Vec<usize> = Vec::new();
        let mut k: usize = 0;
        while k < nodes.len()
            invariant
                deg@.len() == k,
                k <= nodes@.len(),
                forall|j: int| 0 <= j < k ==> #[trigger] deg@[j] == 0,
            decreases nodes@.len() - k,
        {
            deg.push(0);
            k = k + 1;
        }
        let mut e: usize = 0;
        while e < self.edges.len()
            invariant
                nodes@ == nv,
                n == self.modules@.len(),
                n <= nodes@.len(),
                forall|j: int| 0 <= j < n ==> (#[trigger] nodes@[j]).0 == j,
                forall|j: int| n <= j < nodes@.len() ==> (#[trigger] nodes@[j]).0 >= n,
                nodes@.no_duplicates(),
                forall|k: int| 0 <= k < self.edges@.len() ==> nodes@.contains((#[trigger] self.edges@[k]).1),
                e <= self.edges@.len(),
                deg@.len() == nodes@.len(),
                forall|j: int|
                    0 <= j < deg@.len() ==> #[trigger] deg@[j] == pending(
                        self.edges@.take(e as int),
                        nodes@[j],
                        Seq::empty(),
                        nodes@[j],
                        0,
                    ),
                forall|j: int| 0 <= j < deg@.len() ==> #[trigger] deg@[j] <= e,
            decreases self.edges@.len() - e,
        {
            let t = self.edges[e].1;
            let kt = node_index(&nodes, n, t);
            proof {
                assert forall|j: int| 0 <= j < deg@.len() implies pending(
                    self.edges@.take(e + 1),
                    nodes@[j],
                    Seq::empty(),
                    nodes@[j],
                    0,
                ) == pending(self.edges@.take(e as int), nodes@[j], Seq::empty(), nodes@[j], 0) + if j
                    == kt {
                    1nat
                } else {
                    0nat
                } by {
                    lemma_pending_prefix(self.edges@, nodes@[j], nodes@[j], e as int);
                    if j != kt {
                        assert(nodes@[j] != nodes@[kt as int]);
                    }
                }
            }
            let d = deg[kt];
            deg.set(kt, d + 1);
            e = e + 1;
        }
        proof {
            assert(self.edges@.take(self.edges@.len() as int) =~= self.edges@);
        }
        // Start from the modules nobody uses.
        let mut queue: Vec<ModuleId> = Vec::new();
        let mut k: usize = 0;
        while k < nodes.len()
            invariant
                nodes@ == nv,
                k <= nodes@.len(),
                deg@.len() == nodes@.len(),
                nodes@.no_duplicates(),
                queue@.no_duplicates(),
                forall|j: int| 0 <= j < queue@.len() ==> nodes@.contains(#[trigger] queue@[j]),
                forall|j: int| 0 <= j < nodes@.len() ==> (queue@.contains(#[trigger] nodes@[j]) <==> (j < k && deg@[j] == 0)),
            decreases nodes@.len() - k,
        {
            if deg[k] == 0 {
                let ghost before = queue@;
                queue.push(nodes[k]);
                proof {
                    assert forall|j: int| 0 <= j < nodes@.len() implies (queue@.contains(#[trigger] nodes@[j]) <==> (j < k + 1 && deg@[j] == 0)) by {
                        if queue@.contains(nodes@[j]) && j != k {
                            let q = choose|q: int| 0 <= q < queue@.len() && queue@[q] == nodes@[j];
                            if q == before.len() {
                                assert(nodes@[j] == nodes@[k as int]);
                            } else {
                                assert(before[q] == nodes@[j]);
                            }
                        }
                        if j < k + 1 && deg@[j] == 0 && j != k {
                            let q = choose|q: int| 0 <= q < before.len() && before[q] == nodes@[j];
                            assert(queue@[q] == before[q]);
                        }
                        if j == k {
                            assert(queue@[before.len() as int] == nodes@[j]);
                        }
                    }
                    assert forall|j: int| 0 <= j < queue@.len() implies nodes@.contains(#[trigger] queue@[j]) by {
                        if j < before.len() {
                            assert(queue@[j] == before[j]);
                        } else {
                            assert(nodes@[k as int] == queue@[j]);
                        }
                    }
                    assert(!before.contains(nodes@[k as int]));
                }
            } else {
                proof {
                    assert forall|j: int| 0 <= j < nodes@.len() implies (queue@.contains(#[trigger] nodes@[j]) <==> (j < k + 1 && deg@[j] == 0)) by {
                        if j == k && queue@.contains(nodes@[j]) {
                        }
                    }
                }
            }
            k = k + 1;
        }
        // Take modules off the front; a module whose users are all placed
        // joins the back.
        let mut head: usize = 0;
        proof {
            assert(queue@.take(0) =~= Seq::<ModuleId>::empty());
            assert forall|p: int, e: int|
                #![trigger queue@[p], self.edges@[e]]
                0 <= p < queue@.len() && 0 <= e < self.edges@.len() && self.edges@[e].1 == queue@[p]
                    implies exists|q: int| 0 <= q < p && #[trigger] queue@[q] == self.edges@[e].0 by {
                let k = choose|k: int| 0 <= k < nodes@.len() && nodes@[k] == queue@[p];
                assert(queue@.contains(nodes@[k]));
                lemma_pending_zero(self.edges@, nodes@[k], Seq::empty(), nodes@[k], 0);
                assert(!Seq::<ModuleId>::empty().contains(self.edges@[e].0));
            }
        }
        while head < queue.len()
            invariant
                nodes@ == nv,
                n == self.modules@.len(),
                n <= nodes@.len(),
                forall|j: int| 0 <= j < n ==> (#[trigger] nodes@[j]).0 == j,
                forall|j: int| n <= j < nodes@.len() ==> (#[trigger] nodes@[j]).0 >= n,
                nodes@.no_duplicates(),
                forall|k: int| 0 <= k < self.edges@.len() ==> nodes@.contains((#[trigger] self.edges@[k]).1),
                deg@.len() == nodes@.len(),
                head <= queue@.len(),
                queue@.no_duplicates(),
                forall|j: int| 0 <= j < queue@.len() ==> nodes@.contains(#[trigger] queue@[j]),
                forall|j: int| 0 <= j < nodes@.len() ==> (queue@.contains(#[trigger] nodes@[j]) <==> deg@[j] == 0),
                forall|j: int|
                    0 <= j < deg@.len() ==> #[trigger] deg@[j] == pending(
                        self.edges@,
                        nodes@[j],
                        queue@.take(head as int),
                        nodes@[j],
                        0,
                    ),
                forall|p: int, e: int|
                    #![trigger queue@[p], self.edges@[e]]
                    0 <= p < queue@.len() && 0 <= e < self.edges@.len() && self.edges@[e].1 == queue@[p]
                        ==> exists|q: int| 0 <= q < p && #[trigger] queue@[q] == self.edges@[e].0,
            decreases 2 * count_nonzero(deg@) + queue@.len() - head,
        {
            let u = queue[head];
            let ghost done = queue@.take(head as int);
            head = head + 1;
            let ghost q0 = queue@;
            let ghost cz0 = count_nonzero(deg@);
            proof {
                assert(!done.contains(u)) by {
                    if done.contains(u) {
                        let q = choose|q: int| 0 <= q < done.len() && done[q] == u;
                        assert(queue@[q] == queue@[head - 1]);
                    }
                }
            }
            proof {
                assert forall|i: int| 0 <= i < deg@.len() implies #[trigger] deg@[i] == pending(self.edges@, nodes@[i], done, u, 0) by {
                    lemma_pending_start(self.edges@, nodes@[i], done, u, nodes@[i]);
                }
            }
            let mut j: usize = 0;
            while j < self.edges.len()
                invariant
                    nodes@ == nv,
                    n == self.modules@.len(),
                    n <= nodes@.len(),
                    forall|i: int| 0 <= i < n ==> (#[trigger] nodes@[i]).0 == i,
                    forall|i: int| n <= i < nodes@.len() ==> (#[trigger] nodes@[i]).0 >= n,
                    nodes@.no_duplicates(),
                    forall|k: int| 0 <= k < self.edges@.len() ==> nodes@.contains((#[trigger] self.edges@[k]).1),
                    deg@.len() == nodes@.len(),
                    0 < head <= q0.len() <= queue@.len(),
                    forall|i: int| 0 <= i < q0.len() ==> queue@[i] == q0[i],
                    done == q0.take(head - 1),
                    u == q0[head - 1],
                    !done.contains(u),
                    queue@.no_duplicates(),
                    forall|i: int| 0 <= i < queue@.len() ==> nodes@.contains(#[trigger] queue@[i]),
                    forall|i: int| 0 <= i < nodes@.len() ==> (queue@.contains(#[trigger] nodes@[i]) <==> deg@[i] == 0),
                    j <= self.edges@.len(),
                    forall|i: int|
                        0 <= i < deg@.len() ==> #[trigger] deg@[i] == pending(self.edges@, nodes@[i], done, u, j as int),
                    forall|p: int, e: int|
                        #![trigger queue@[p], self.edges@[e]]
                        0 <= p < queue@.len() && 0 <= e < self.edges@.len() && self.edges@[e].1 == queue@[p]
                            ==> exists|q: int| 0 <= q < p && #[trigger] queue@[q] == self.edges@[e].0,
                    2 * count_nonzero(deg@) + queue@.len() <= 2 * cz0 + q0.len(),
                decreases self.edges@.len() - j,
            {
                let (from, to) = self.edges[j];
                proof {
                    assert forall|i: int| 0 <= i < deg@.len() implies pending(self.edges@, nodes@[i], done, u, j as int) == pending(self.edges@, nodes@[i], done, u, j + 1) + if from == u && to == nodes@[i] {
                        1nat
                    } else {
                        0nat
                    } by {
                        lemma_pending_step(self.edges@, nodes@[i], done, u, j as int);
                    }
                }
                if from == u {
                    let kt = node_index(&nodes, n, to);
                    let d = deg[kt];
                    let ghost deg0 = deg@;
                    proof {
                        assert forall|i: int| 0 <= i < deg@.len() && i != kt implies to != nodes@[i] by {
                            assert(nodes@[i] != nodes@[kt as int]);
                        }
                        lemma_count_nonzero_update(deg@, kt as int, (d - 1) as usize);
                    }
                    deg.set(kt, d - 1);
                    if d == 1 {
                        let ghost before = queue@;
                        proof {
                            assert(!queue@.contains(to));
                        }
                        queue.push(to);
                        proof {
                            lemma_pending_zero(self.edges@, to, done, u, j + 1);
                            assert forall|i: int| 0 <= i < queue@.len() implies nodes@.contains(#[trigger] queue@[i]) by {
                                if i < before.len() {
                                    assert(queue@[i] == before[i]);
                                } else {
                                    assert(nodes@[kt as int] == queue@[i]);
                                }
                            }
                            assert forall|i: int| 0 <= i < nodes@.len() implies (queue@.contains(#[trigger] nodes@[i]) <==> deg@[i] == 0) by {
                                if queue@.contains(nodes@[i]) && i != kt {
                                    let q = choose|q: int| 0 <= q < queue@.len() && queue@[q] == nodes@[i];
                                    if q == before.len() {
                                        assert(nodes@[i] == nodes@[kt as int]);
                                    } else {
                                        assert(before[q] == nodes@[i]);
                                    }
                                }
                                if deg@[i] == 0 && i != kt {
                                    assert(deg0[i] == 0);
                                    let q = choose|q: int| 0 <= q < before.len() && before[q] == nodes@[i];
                                    assert(queue@[q] == before[q]);
                                }
                                if i == kt {
                                    assert(queue@[before.len() as int] == nodes@[i]);
                                }
                            }
                            assert forall|p: int, e: int|
                                #![trigger queue@[p], self.edges@[e]]
                                0 <= p < queue@.len() && 0 <= e < self.edges@.len() && self.edges@[e].1 == queue@[p]
                                    implies exists|q: int| 0 <= q < p && #[trigger] queue@[q] == self.edges@[e].0 by {
                                if p < before.len() {
                                    assert(queue@[p] == before[p]);
                                    let q = choose|q: int| 0 <= q < p && #[trigger] before[q] == self.edges@[e].0;
                                    assert(queue@[q] == before[q]);
                                } else {
                                    assert(self.edges@[e].1 == to);
                                    if done.contains(self.edges@[e].0) {
                                        let q = choose|q: int| 0 <= q < done.len() && done[q] == self.edges@[e].0;
                                        assert(queue@[q] == q0[q]);
                                    } else {
                                        assert(self.edges@[e].0 == u);
                                        assert(queue@[head - 1] == u);
                                    }
                                }
                            }
                            assert forall|i: int| 0 <= i < q0.len() implies queue@[i] == q0[i] by {
                                assert(queue@[i] == before[i]);
                            }
                        }
                    } else {
                        proof {
                            assert forall|i: int| 0 <= i < nodes@.len() implies (queue@.contains(#[trigger] nodes@[i]) <==> deg@[i] == 0) by {
                                if i != kt {
                                    assert(deg@[i] == deg0[i]);
                                }
                            }
                        }
                    }
                }
                j = j + 1;
            }
            proof {
                assert forall|i: int| 0 <= i < deg@.len() implies #[trigger] deg@[i] == pending(
                    self.edges@,
                    nodes@[i],
                    queue@.take(head as int),
                    nodes@[i],
                    0,
                ) by {
                    lemma_pending_finish(self.edges@, nodes@[i], done, u, nodes@[i]);
                    assert(queue@.take(head as int) =~= done.push(u));
                }
            }
        }
        if queue.len() == n {
            // Used modules first.
            let mut sorted: Vec<ModuleId> = Vec::new();
            let mut i = queue.len();
            while i > 0
                invariant
                    i <= queue@.len(),
                    sorted@.len() == queue@.len() - i,
                    forall|j: int| 0 <= j < sorted@.len() ==> #[trigger] sorted@[j] == queue@[queue@.len() - 1 - j],
                decreases i,
            {
                i = i - 1;
                sorted.push(queue[i]);
            }
            proof {
                let m = queue@.len();
                assert forall|a: int, b: int| 0 <= a < sorted@.len() && 0 <= b < sorted@.len() && a != b implies sorted@[a] != sorted@[b] by {
                    assert(sorted@[a] == queue@[m - 1 - a]);
                    assert(sorted@[b] == queue@[m - 1 - b]);
                }
                assert forall|i: int, j: int, e: int|
                    0 <= i < sorted@.len() && 0 <= j < sorted@.len() && 0 <= e < self.edges().len()
                        && #[trigger] self.edges()[e] == (#[trigger] sorted@[j], #[trigger] sorted@[i]) implies i < j by {
                    let pi = m - 1 - i;
                    let pj = m - 1 - j;
                    assert(sorted@[i] == queue@[pi]);
                    assert(sorted@[j] == queue@[pj]);
                    assert(self.edges@[e].1 == queue@[pi]);
                    let q = choose|q: int| 0 <= q < pi && #[trigger] queue@[q] == self.edges@[e].0;
                    assert(queue@[q] == queue@[pj]);
                }
                if self.edges_registered() {
                    assert forall|i: int| 0 <= i < sorted@.len() implies self.registered(#[trigger] sorted@[i]) by {
                        assert(sorted@[i] == queue@[m - 1 - i]);
                        assert(nodes@.contains(queue@[m - 1 - i]));
                        let k = choose|k: int| 0 <= k < nodes@.len() && nodes@[k] == queue@[m - 1 - i];
                        if k >= n {
                            assert(nodes@[k].0 >= n);
                            let ed = choose|ed: int| 0 <= ed < self.edges@.len() && (#[trigger] self.edges@[ed]).1 == nv[k];
                            assert(self.registered(self.edges()[ed].1));
                        }
                    }
                }
            }
            Ok(sorted)
        } else {
            proof {
                if self.edges_registered() && (forall|c: Seq<ModuleId>, j: int|
                    is_cycle(self.edges(), c) && 0 <= j < c.len() ==> !self.registered(#[trigger] c[j])) {
                    assert(queue@.take(head as int) =~= queue@);
                    self.lemma_stuck_modules_cycle(nodes@, queue@, deg@, n as nat);
                }
            }
            Err(())
        }
    }

    /// When Kahn's algorithm stops short on a registry whose edges join
    /// registered modules, the modules left over hold a cycle.
    proof fn lemma_stuck_modules_cycle(&self, nodes: Seq<ModuleId>, queue: Seq<ModuleId>, deg: Seq<usize>, n: nat)
        requires
            self.edges_registered(),
            n == self.modules@.len(),
            n <= nodes.len(),
            forall|j: int| 0 <= j < n ==> (#[trigger] nodes[j]).0 == j,
            forall|j: int| n <= j < nodes.len() ==> (#[trigger] nodes[j]).0 >= n,
            forall|j: int|
                n <= j < nodes.len() ==> exists|k: int|
                    0 <= k < self.edges@.len() && (#[trigger] self.edges@[k]).1 == #[trigger] nodes[j],
            nodes.no_duplicates(),
            queue.no_duplicates(),
            queue.len() != n,
            forall|j: int| 0 <= j < queue.len() ==> nodes.contains(#[trigger] queue[j]),
            deg.len() == nodes.len(),
            forall|j: int| 0 <= j < nodes.len() ==> (queue.contains(#[trigger] nodes[j]) <==> deg[j] == 0),
            forall|j: int|
                0 <= j < deg.len() ==> #[trigger] deg[j] == pending(self.edges@, nodes[j], queue, nodes[j], 0),
        ensures
            exists|c: Seq<ModuleId>, j: int| is_cycle(self.edges(), c) && 0 <= j < c.len() && self.registered(#[trigger] c[j]),
    {
        // Every node is registered: a node past the registered ones would be
        // the target of an edge, which joins registered modules.
        if nodes.len() > n {
            let k = choose|k: int| 0 <= k < self.edges@.len() && (#[trigger] self.edges@[k]).1 == nodes[n as int];
            assert(self.registered(self.edges()[k].1));
            assert(false);
        }
        // Some node is still waiting.
        if forall|j: int| 0 <= j < nodes.len() ==> queue.contains(#[trigger] nodes[j]) {
            assert(nodes.to_set().subset_of(queue.to_set())) by {
                assert forall|x: ModuleId| nodes.to_set().contains(x) implies queue.to_set().contains(x) by {
                    let j = choose|j: int| 0 <= j < nodes.len() && nodes[j] == x;
                    assert(queue.contains(nodes[j]));
                }
            }
            assert(queue.to_set().subset_of(nodes.to_set())) by {
                assert forall|x: ModuleId| queue.to_set().contains(x) implies nodes.to_set().contains(x) by {
                    let j = choose|j: int| 0 <= j < queue.len() && queue[j] == x;
                    assert(nodes.contains(queue[j]));
                }
            }
            nodes.unique_seq_to_set();
            queue.unique_seq_to_set();
            queue.lemma_cardinality_of_set();
            vstd::set_lib::lemma_len_subset(nodes.to_set(), queue.to_set());
            vstd::set_lib::lemma_len_subset(queue.to_set(), nodes.to_set());
            assert(false);
        }
        let j0 = choose|j: int| 0 <= j < nodes.len() && !queue.contains(#[trigger] nodes[j]);
        let stuck = |x: ModuleId| !queue.contains(x);
        assert forall|x: ModuleId| nodes.contains(x) && stuck(x) implies #[trigger] stuck_user(self.edges@, nodes, stuck, x) by {
            let j = choose|j: int| 0 <= j < nodes.len() && nodes[j] == x;
            assert(!queue.contains(nodes[j]));
            assert(deg[j] != 0);
            lemma_pending_positive(self.edges@, x, queue, x);
            let e = choose|e: int| 0 <= e < self.edges@.len() && (#[trigger] self.edges@[e]).1 == x && !queue.contains(self.edges@[e].0);
            let y = self.edges@[e].0;
            assert(self.registered(self.edges()[e].0));
            assert(nodes[y.0 as int] == y);
            assert(nodes.contains(y));
            assert(has_edge(self.edges@, y, x));
        }
        assert(all_stuck_used(self.edges@, nodes, stuck));
        let c = lemma_stuck_has_cycle(self.edges@, nodes, stuck, nodes[j0]);
        let e = choose|e: int| 0 <= e < self.edges@.len() && #[trigger] self.edges@[e] == (c[0], c[c.len() - 1]);
        assert(self.registered(self.edges()[e].0));
        assert(self.registered(c[0]));
    }
}

proof fn lemma_first_with_path_prefix(ms: Seq<ModuleInfo>, path: Seq<char>, k: int)
    requires
        0 < k <= ms.len(),
        first_with_path(ms.take(k), path) is Some,
    ensures
        first_with_path(ms, path) == first_with_path(ms.take(k), path),
    decreases ms.len(),
{
    if k < ms.len() {
        assert(ms.drop_last().take(k) =~= ms.take(k));
        lemma_first_with_path_prefix(ms.drop_last(), path, k);
    } else {
        assert(ms.take(k) =~= ms);
    }
}

impl Default for ModuleRegistry {
    fn default() -> (r: ModuleRegistry)
        ensures
            r.infos() == Seq::<ModuleInfo>::empty(),
            r.edges() == Seq::<(ModuleId, ModuleId)>::empty(),
    {
        ModuleRegistry::new()
    }
}

/// Reports E4006: a module that is not defined.
pub fn emit_undefined_module(sink: &mut DiagSink, module_name: &str, span: Span)
    ensures
        final(sink)@.drop_last() == old(sink)@,
        final(sink)@.len() == old(sink)@.len() + 1,
        final(sink)@.last().code == 4006,
        final(sink)@.last().severity == Severity::Error,
        final(sink)@.last().msg@ == "未定义的模块 `"@ + module_name@ + "`"@,
        final(sink)@.last().loc == DiagLoc::At(span),
        final(sink)@.last().children@.len() == 0,
{
    sink.emit(Diagnostic::error(4006, concat3("未定义的模块 `", module_name, "`"), DiagLoc::At(span)));
    proof {
        assert(sink@.drop_last() =~= old(sink)@);
    }
}

/// Reports E4007: a symbol that a module does not define.
pub fn emit_undefined_symbol(sink: &mut DiagSink, symbol_name: &str, module_name: &str, span: Span)
    ensures
        final(sink)@.drop_last() == old(sink)@,
        final(sink)@.len() == old(sink)@.len() + 1,
        final(sink)@.last().code == 4007,
        final(sink)@.last().severity == Severity::Error,
        final(sink)@.last().msg@ == "模块 `"@ + module_name@ + "` 中未定义符号 `"@ + symbol_name@
            + "`"@,
        final(sink)@.last().loc == DiagLoc::At(span),
        final(sink)@.last().children@.len() == 0,
{
    let head = concat3("模块 `", module_name, "` 中未定义符号 `");
    let msg = concat3(head.as_str(), symbol_name, "`");
    sink.emit(Diagnostic::error(4007, msg, DiagLoc::At(span)));
    proof {
        assert(sink@.drop_last() =~= old(sink)@);
    }
}

/// Reports E4008: a private symbol used from another module, with a hint.
pub fn emit_private_symbol(sink: &mut DiagSink, symbol_name: &str, module_name: &str, span: Span)
    ensures
        final(sink)@.drop_last() == old(sink)@,
        final(sink)@.len() == old(sink)@.len() + 1,
        final(sink)@.last().code == 4008,
        final(sink)@.last().severity == Severity::Error,
        final(sink)@.last().msg@ == "符号 `"@ + symbol_name@ + "` 在模块 `"@ + module_name@
            + "` 中是私有的"@,
        final(sink)@.last().loc == DiagLoc::At(span),
        final(sink)@.last().children@.len() == 1,
        final(sink)@.last().children@[0].severity == Severity::Help,
        final(sink)@.last().children@[0].msg@ == "提示：使用 `pub` 关键字使符号可导出"@,
{
    let head = concat3("符号 `", symbol_name, "` 在模块 `");
    let msg = concat3(head.as_str(), module_name, "` 中是私有的");
    sink.emit(
        Diagnostic::error(4008, msg, DiagLoc::At(span)).child(
            SubDiag::new(Severity::Help, "提示：使用 `pub` 关键字使符号可导出"),
        ),
    );
    proof {
        assert(sink@.drop_last() =~= old(sink)@);
    }
}

/// The names of the registered modules of `cycle`, joined by ` → `;
/// ids that name no module are left out.
pub open spec fn cycle_names(cycle: Seq<ModuleId>, ms: Seq<ModuleInfo>) -> Seq<char>
    decreases cycle.len(),
{
    if cycle.len() == 0 {
        Seq::empty()
    } else {
        let rest = cycle_names(cycle.drop_last(), ms);
        let id = cycle.last();
        if id.0 < ms.len() {
            if !has_registered(cycle.drop_last(), ms) {
                ms[id.0 as int].name@
            } else {
                rest + " → "@ + ms[id.0 as int].name@
            }
        } else {
            rest
        }
    }
}

/// Whether any id of `ids` names a registered module.
pub open spec fn has_registered(ids: Seq<ModuleId>, ms: Seq<ModuleInfo>) -> bool {
    exists|i: int| 0 <= i < ids.len() && (#[trigger] ids[i]).0 < ms.len()
}

/// Reports E4009: a dependency cycle, naming its modules.
pub fn emit_circular_dependency(sink: &mut DiagSink, cycle: &[ModuleId], registry: &ModuleRegistry)
    ensures
        final(sink)@.drop_last() == old(sink)@,
        final(sink)@.len() == old(sink)@.len() + 1,
        final(sink)@.last().code == 4009,
        final(sink)@.last().severity == Severity::Error,
        final(sink)@.last().msg@ == "检测到循环依赖: "@ + cycle_names(cycle@, registry.infos()),
        final(sink)@.last().loc == DiagLoc::Unlocated,
        final(sink)@.last().children@.len() == 1,
        final(sink)@.last().children@[0].severity == Severity::Help,
        final(sink)@.last().children@[0].msg@ == "提示：重新组织模块结构以消除循环引用"@,
{
    let mut names = String::new();
    let mut any = false;
    let mut i: usize = 0;
    while i < cycle.len()
        invariant
            i <= cycle@.len(),
            names@ == cycle_names(cycle@.take(i as int), registry.infos()),
            any == has_registered(cycle@.take(i as int), registry.infos()),
            !any ==> names@.len() == 0,
        decreases cycle@.len() - i,
    {
        let ghost prev = cycle@.take(i as int);
        proof {
            assert(cycle@.take(i + 1).drop_last() =~= prev);
            assert(cycle@.take(i + 1).last() == cycle@[i as int]);
        }
        match registry.get_module(cycle[i]) {
            Some(m) => {
                if any {
                    names.append(" → ");
                }
                names.append(m.name.as_str());
                proof {
                    assert(has_registered(cycle@.take(i + 1), registry.infos())) by {
                        assert(cycle@.take(i + 1)[i as int] == cycle@[i as int]);
                    }
                }
                any = true;
            },
            None => {
                proof {
                    if has_registered(cycle@.take(i + 1), registry.infos()) {
                        let j = choose|j: int|
                            0 <= j < i + 1 && (#[trigger] cycle@.take(i + 1)[j]).0
                                < registry.infos().len();
                        assert(prev[j] == cycle@.take(i + 1)[j]);
                    }
                    if has_registered(prev, registry.infos()) {
                        let j = choose|j: int| 0 <= j < i && (#[trigger] prev[j]).0 < registry.infos().len();
                        assert(prev[j] == cycle@.take(i + 1)[j]);
                    }
                }
            },
        }
        i = i + 1;
    }
    proof {
        assert(cycle@.take(i as int) =~= cycle@);
    }
    let msg = concat2("检测到循环依赖: ", names.as_str());
    sink.emit(
        Diagnostic::error(4009, msg, DiagLoc::Unlocated).child(
            SubDiag::new(Severity::Help, "提示：重新组织模块结构以消除循环引用"),
        ),
    );
    proof {
        assert(sink@.drop_last() =~= old(sink)@);
    }
}

} // verus!
