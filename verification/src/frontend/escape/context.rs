//! The context of the escape check: the ownership state and scope depth of
//! every binding.

use crate::diag::Span;
use crate::text::string_eq_str;
use vstd::prelude::*;

verus! {

/// The ownership state of a binding.
#[derive(Debug, Clone, Copy, PartialEq, Eq, Structural)]
pub enum OwnershipState {
    /// Usable.
    Live,
    /// Moved away; where it first moved, for the diagnostic.
    Moved(Span),
}

/// The kind of a binding.
#[derive(Debug, Clone, Copy, PartialEq, Eq, Structural)]
pub enum BindingKind {
    /// An `own ^T` binding: assigning it moves it.
    Own,
    /// A `^T` borrow: it must not escape.
    Borrow,
    /// Any other binding, not checked.
    Plain,
}

/// Everything known of one binding.
#[derive(Debug, Clone, Copy, PartialEq, Eq, Structural)]
pub struct BindingInfo {
    pub kind: BindingKind,
    pub state: OwnershipState,
    /// The scope depth it was defined at (0: the parameters).
    pub depth: usize,
}

impl BindingInfo {
    pub fn own(depth: usize) -> (b: BindingInfo)
        ensures
            b == (BindingInfo { kind: BindingKind::Own, state: OwnershipState::Live, depth }),
    {
        BindingInfo { kind: BindingKind::Own, state: OwnershipState::Live, depth }
    }

    pub fn borrow(depth: usize) -> (b: BindingInfo)
        ensures
            b == (BindingInfo { kind: BindingKind::Borrow, state: OwnershipState::Live, depth }),
    {
        BindingInfo { kind: BindingKind::Borrow, state: OwnershipState::Live, depth }
    }

    pub fn plain(depth: usize) -> (b: BindingInfo)
        ensures
            b == (BindingInfo { kind: BindingKind::Plain, state: OwnershipState::Live, depth }),
    {
        BindingInfo { kind: BindingKind::Plain, state: OwnershipState::Live, depth }
    }

    pub fn is_moved(&self) -> (b: bool)
        ensures
            b == (self.state is Moved),
    {
        match self.state {
            OwnershipState::Moved(_) => true,
            OwnershipState::Live => false,
        }
    }
}

/// The index of the latest binding of `name` in one scope.
pub open spec fn latest_in(scope: Seq<(String, BindingInfo)>, name: Seq<char>) -> Option<int>
    decreases scope.len(),
{
    if scope.len() == 0 {
        None
    } else if scope.last().0@ == name {
        Some(scope.len() - 1)
    } else {
        latest_in(scope.drop_last(), name)
    }
}

/// Where the binding `name` refers to lives: the innermost scope that binds
/// it, and the latest binding there.
pub open spec fn locate(scopes: Seq<Seq<(String, BindingInfo)>>, name: Seq<char>) -> Option<(int, int)>
    decreases scopes.len(),
{
    if scopes.len() == 0 {
        None
    } else {
        match latest_in(scopes.last(), name) {
            Some(j) => Some((scopes.len() - 1, j)),
            None => locate(scopes.drop_last(), name),
        }
    }
}

pub proof fn lemma_latest_in(scope: Seq<(String, BindingInfo)>, name: Seq<char>)
    ensures
        latest_in(scope, name) matches Some(j) ==> 0 <= j < scope.len() && scope[j].0@ == name,
    decreases scope.len(),
{
    if scope.len() > 0 {
        lemma_latest_in(scope.drop_last(), name);
    }
}

pub proof fn lemma_locate(scopes: Seq<Seq<(String, BindingInfo)>>, name: Seq<char>)
    ensures
        locate(scopes, name) matches Some((i, j)) ==> 0 <= i < scopes.len() && 0 <= j < scopes[i].len()
            && scopes[i][j].0@ == name,
    decreases scopes.len(),
{
    if scopes.len() > 0 {
        lemma_latest_in(scopes.last(), name);
        lemma_locate(scopes.drop_last(), name);
    }
}

/// The binding a name refers to.
pub open spec fn binding_of(scopes: Seq<Seq<(String, BindingInfo)>>, name: Seq<char>) -> Option<BindingInfo> {
    match locate(scopes, name) {
        Some((i, j)) => Some(scopes[i][j].1),
        None => None,
    }
}

/// The `own` bindings of one scope with their states, in order.
pub open spec fn own_states_in(scope: Seq<(String, BindingInfo)>) -> Seq<(Seq<char>, OwnershipState)>
    decreases scope.len(),
{
    if scope.len() == 0 {
        Seq::empty()
    } else {
        own_states_in(scope.drop_last()) + if scope.last().1.kind == BindingKind::Own {
            seq![(scope.last().0@, scope.last().1.state)]
        } else {
            Seq::empty()
        }
    }
}

/// The `own` bindings of every scope with their states, outermost first.
pub open spec fn own_states(scopes: Seq<Seq<(String, BindingInfo)>>) -> Seq<(Seq<char>, OwnershipState)>
    decreases scopes.len(),
{
    if scopes.len() == 0 {
        Seq::empty()
    } else {
        own_states(scopes.drop_last()) + own_states_in(scopes.last())
    }
}

/// `scopes` with the state of the binding at `(i, j)` replaced.
pub open spec fn with_state(scopes: Seq<Seq<(String, BindingInfo)>>, i: int, j: int, st: OwnershipState) -> Seq<Seq<(String, BindingInfo)>> {
    scopes.update(i, scopes[i].update(j, (scopes[i][j].0, BindingInfo { state: st, ..scopes[i][j].1 })))
}

/// A snapshot with its names as character sequences.
pub open spec fn snap_view(snap: Seq<(String, OwnershipState)>) -> Seq<(Seq<char>, OwnershipState)> {
    snap.map_values(|p: (String, OwnershipState)| (p.0@, p.1))
}

/// The stack of scopes, each a list of bindings.
pub struct EscapeContext {
    scopes: Vec<Vec<(String, BindingInfo)>>,
}

impl Default for EscapeContext {
    fn default() -> (c: EscapeContext)
        ensures
            c.scopes_view() == seq![Seq::<(String, BindingInfo)>::empty()],
    {
        EscapeContext::new()
    }
}

impl EscapeContext {
    /// The scopes, outermost first; each lists its bindings in order.
    pub closed spec fn scopes_view(&self) -> Seq<Seq<(String, BindingInfo)>> {
        self.scopes@.map_values(|v: Vec<(String, BindingInfo)>| v@)
    }

    pub fn new() -> (c: EscapeContext)
        ensures
            c.scopes_view() == seq![Seq::<(String, BindingInfo)>::empty()],
    {
        let c = EscapeContext { scopes: vec![Vec::new()] };
        proof {
            assert(c.scopes_view() =~= seq![Seq::<(String, BindingInfo)>::empty()]);
        }
        c
    }

    /// The current scope depth, counted from 0.
    pub fn depth(&self) -> (d: usize)
        ensures
            d == if self.scopes_view().len() > 0 {
                self.scopes_view().len() - 1
            } else {
                0
            },
    {
        if self.scopes.len() > 0 {
            self.scopes.len() - 1
        } else {
            0
        }
    }

    /// Enters a new scope.
    pub fn push_scope(&mut self)
        ensures
            final(self).scopes_view() == old(self).scopes_view().push(Seq::empty()),
    {
        self.scopes.push(Vec::new());
        proof {
            assert(self.scopes_view() =~= old(self).scopes_view().push(Seq::empty()));
        }
    }

    /// Leaves the innermost scope; the outermost one stays.
    pub fn pop_scope(&mut self)
        ensures
            final(self).scopes_view() == if old(self).scopes_view().len() > 1 {
                old(self).scopes_view().drop_last()
            } else {
                old(self).scopes_view()
            },
    {
        if self.scopes.len() > 1 {
            self.scopes.pop();
            proof {
                assert(self.scopes_view() =~= old(self).scopes_view().drop_last());
            }
        }
    }

    /// Adds a binding to the innermost scope.
    pub fn define(&mut self, name: String, info: BindingInfo)
        ensures
            old(self).scopes_view().len() > 0 ==> final(self).scopes_view() == old(self).scopes_view().update(
                old(self).scopes_view().len() - 1,
                old(self).scopes_view().last().push((name, info)),
            ),
            old(self).scopes_view().len() == 0 ==> final(self).scopes_view() == old(self).scopes_view(),
    {
        let n = self.scopes.len();
        if n == 0 {
            return;
        }
        let mut scope = self.scopes.pop().unwrap();
        scope.push((name, info));
        self.scopes.push(scope);
        proof {
            assert(self.scopes_view() =~= old(self).scopes_view().update(
                n - 1,
                old(self).scopes_view().last().push((name, info)),
            ));
        }
    }

    /// Where the binding `name` refers to lives.
    #[verifier::loop_isolation(false)]
    fn locate_exec(&self, name: &str) -> (r: Option<(usize, usize)>)
        ensures
            r matches Some((i, j)) ==> locate(self.scopes_view(), name@) == Some((i as int, j as int)),
            r is None ==> locate(self.scopes_view(), name@) is None,
            r matches Some((i, j)) ==> i < self.scopes_view().len() && j < self.scopes_view()[i as int].len(),
    {
        proof {
            lemma_locate(self.scopes_view(), name@);
        }
        let mut i = self.scopes.len();
        proof {
            assert(self.scopes_view().take(i as int) =~= self.scopes_view());
        }
        while i > 0
            invariant
                i <= self.scopes@.len(),
                locate(self.scopes_view(), name@) == locate(self.scopes_view().take(i as int), name@),
            decreases i,
        {
            let ghost pre = self.scopes_view().take(i as int);
            proof {
                assert(pre.drop_last() =~= self.scopes_view().take(i - 1));
                assert(pre.last() == self.scopes@[i - 1]@);
            }
            let scope = &self.scopes[i - 1];
            let mut j = scope.len();
            proof {
                assert(scope@.take(j as int) =~= scope@);
            }
            while j > 0
                invariant
                    0 < i <= self.scopes@.len(),
                    scope@ == self.scopes_view()[i - 1],
                    j <= scope@.len(),
                    latest_in(scope@, name@) == latest_in(scope@.take(j as int), name@),
                decreases j,
            {
                proof {
                    assert(scope@.take(j as int).drop_last() =~= scope@.take(j - 1));
                }
                if string_eq_str(&scope[j - 1].0, name) {
                    return Some((i - 1, j - 1));
                }
                j = j - 1;
            }
            i = i - 1;
        }
        None
    }

    /// The binding `name` refers to: innermost scope first, latest first.
    pub fn lookup(&self, name: &str) -> (r: Option<&BindingInfo>)
        ensures
            r is Some == binding_of(self.scopes_view(), name@) is Some,
            r matches Some(b) ==> binding_of(self.scopes_view(), name@) == Some(*b),
    {
        match self.locate_exec(name) {
            Some((i, j)) => {
                proof {
                    lemma_locate(self.scopes_view(), name@);
                    assert(self.scopes_view()[i as int] == self.scopes@[i as int]@);
                }
                Some(&self.scopes[i][j].1)
            },
            None => None,
        }
    }

    /// The binding `name` refers to, to change it.
    pub fn lookup_mut(&mut self, name: &str) -> (r: Option<&mut BindingInfo>)
        ensures
            match r {
                Some(b) => locate(old(self).scopes_view(), name@) matches Some((i, j)) && *b
                    == old(self).scopes_view()[i][j].1 && final(self).scopes_view() == old(self).scopes_view().update(
                    i,
                    old(self).scopes_view()[i].update(j, (old(self).scopes_view()[i][j].0, *final(b))),
                ),
                None => locate(old(self).scopes_view(), name@) is None && final(self).scopes_view() == old(
                    self,
                ).scopes_view(),
            },
    {
        match self.locate_exec(name) {
            Some((i, j)) => {
                proof {
                    lemma_locate(self.scopes_view(), name@);
                    assert(self.scopes_view()[i as int] == self.scopes@[i as int]@);
                }
                Some(&mut self.scopes[i][j].1)
            },
            None => None,
        }
    }

    /// Sets the state of the binding `name` refers to, if there is one.
    fn set_state(&mut self, name: &str, st: OwnershipState)
        ensures
            final(self).scopes_view() == (match locate(old(self).scopes_view(), name@) {
                Some((i, j)) => with_state(old(self).scopes_view(), i, j, st),
                None => old(self).scopes_view(),
            }),
    {
        match self.locate_exec(name) {
            Some((i, j)) => {
                proof {
                    lemma_locate(self.scopes_view(), name@);
                    assert(self.scopes_view()[i as int] == self.scopes@[i as int]@);
                }
                let mut scope = self.scopes.remove(i);
                let ghost sc0 = scope@;
                let (n, info) = scope.remove(j);
                scope.insert(j, (n, BindingInfo { state: st, ..info }));
                proof {
                    assert(scope@ =~= sc0.update(j as int, (n, BindingInfo { state: st, ..info })));
                }
                let ghost sc1 = scope@;
                self.scopes.insert(i, scope);
                proof {
                    assert(self.scopes@[i as int]@ == sc1);
                    assert forall|k: int| 0 <= k < self.scopes@.len() && k != i implies self.scopes@[k] == old(self).scopes@[k] by {
                        if k < i {
                        } else {
                        }
                    }
                    assert(self.scopes_view()[i as int] =~= old(self).scopes_view()[i as int].update(
                        j as int,
                        (n, BindingInfo { state: st, ..info }),
                    ));
                    assert(self.scopes_view() =~= with_state(old(self).scopes_view(), i as int, j as int, st));
                }
            },
            None => {},
        }
    }

    /// Marks the binding `name` refers to as moved at `move_site`, if it is
    /// an `own` binding.
    pub fn mark_moved(&mut self, name: &str, move_site: Span)
        ensures
            final(self).scopes_view() == (match locate(old(self).scopes_view(), name@) {
                Some((i, j)) => if old(self).scopes_view()[i][j].1.kind == BindingKind::Own {
                    with_state(old(self).scopes_view(), i, j, OwnershipState::Moved(move_site))
                } else {
                    old(self).scopes_view()
                },
                None => old(self).scopes_view(),
            }),
    {
        match self.lookup(name) {
            Some(info) => {
                if info.kind == BindingKind::Own {
                    self.set_state(name, OwnershipState::Moved(move_site));
                }
            },
            None => {},
        }
    }

    /// The states of every `own` binding, outermost scope first, to restore
    /// before each arm of a branch.
    pub fn snapshot_moves(&self) -> (snap: Vec<(String, OwnershipState)>)
        ensures
            snap_view(snap@) == own_states(self.scopes_view()),
    {
        let mut snap: Vec<(String, OwnershipState)> = Vec::new();
        let mut i: usize = 0;
        while i < self.scopes.len()
            invariant
                i <= self.scopes@.len(),
                snap@.map_values(|p: (String, OwnershipState)| (p.0@, p.1)) == own_states(
                    self.scopes_view().take(i as int),
                ),
            decreases self.scopes@.len() - i,
        {
            let scope = &self.scopes[i];
            let ghost base = snap@.map_values(|p: (String, OwnershipState)| (p.0@, p.1));
            let mut j: usize = 0;
            while j < scope.len()
                invariant
                    j <= scope@.len(),
                    snap@.map_values(|p: (String, OwnershipState)| (p.0@, p.1)) == base + own_states_in(
                        scope@.take(j as int),
                    ),
                decreases scope@.len() - j,
            {
                proof {
                    assert(scope@.take(j + 1).drop_last() =~= scope@.take(j as int));
                }
                if scope[j].1.kind == BindingKind::Own {
                    let ghost before = snap@;
                    snap.push((scope[j].0.clone(), scope[j].1.state));
                    proof {
                        assert(snap@.map_values(|p: (String, OwnershipState)| (p.0@, p.1)) =~= before.map_values(
                            |p: (String, OwnershipState)| (p.0@, p.1),
                        ).push((scope@[j as int].0@, scope@[j as int].1.state)));
                    }
                } else {
                    proof {
                        assert(own_states_in(scope@.take(j + 1)) =~= own_states_in(scope@.take(j as int)));
                    }
                }
                proof {
                    assert(base + own_states_in(scope@.take(j + 1)) =~= snap@.map_values(
                        |p: (String, OwnershipState)| (p.0@, p.1),
                    ));
                }
                j = j + 1;
            }
            proof {
                assert(scope@.take(j as int) =~= scope@);
                assert(self.scopes_view().take(i + 1).drop_last() =~= self.scopes_view().take(i as int));
                assert(self.scopes_view().take(i + 1).last() == scope@);
            }
            i = i + 1;
        }
        proof {
            assert(self.scopes_view().take(i as int) =~= self.scopes_view());
        }
        snap
    }

    /// Sets each named binding back to its recorded state, in the order of
    /// the snapshot.
    pub fn restore_snapshot(&mut self, snap: &[(String, OwnershipState)])
        ensures
            final(self).scopes_view() == restored(old(self).scopes_view(), snap_view(snap@)),
    {
        let mut k: usize = 0;
        while k < snap.len()
            invariant
                k <= snap@.len(),
                self.scopes_view() == restored(old(self).scopes_view(), snap_view(snap@.take(k as int))),
            decreases snap@.len() - k,
        {
            proof {
                assert(snap_view(snap@.take(k + 1)).drop_last() =~= snap_view(snap@.take(k as int)));
                assert(snap_view(snap@.take(k + 1)).last() == (snap@[k as int].0@, snap@[k as int].1));
            }
            self.set_state(snap[k].0.as_str(), snap[k].1);
            k = k + 1;
        }
        proof {
            assert(snap@.take(k as int) =~= snap@);
        }
    }
}

/// `scopes` after setting each binding named in `snap` to its recorded
/// state, in order.
pub open spec fn restored(scopes: Seq<Seq<(String, BindingInfo)>>, snap: Seq<(Seq<char>, OwnershipState)>) -> Seq<Seq<(String, BindingInfo)>>
    decreases snap.len(),
{
    if snap.len() == 0 {
        scopes
    } else {
        let before = restored(scopes, snap.drop_last());
        match locate(before, snap.last().0) {
            Some((i, j)) => with_state(before, i, j, snap.last().1),
            None => before,
        }
    }
}

/// After marking an `own` binding moved, the name refers to a moved
/// binding.
pub proof fn law_mark_moved_then_moved(scopes: Seq<Seq<(String, BindingInfo)>>, name: Seq<char>, site: Span)
    requires
        binding_of(scopes, name) matches Some(b) && b.kind == BindingKind::Own,
    ensures
        ({
            let (i, j) = locate(scopes, name)->0;
            binding_of(with_state(scopes, i, j, OwnershipState::Moved(site)), name) == Some(
                BindingInfo { state: OwnershipState::Moved(site), ..scopes[i][j].1 },
            )
        }),
{
    lemma_locate(scopes, name);
    let (i, j) = locate(scopes, name)->0;
    lemma_locate_update(scopes, name, i, j, OwnershipState::Moved(site));
}

/// Changing a binding's state does not change where names refer to.
pub proof fn lemma_locate_update(scopes: Seq<Seq<(String, BindingInfo)>>, name: Seq<char>, i: int, j: int, st: OwnershipState)
    requires
        0 <= i < scopes.len(),
        0 <= j < scopes[i].len(),
    ensures
        locate(with_state(scopes, i, j, st), name) == locate(scopes, name),
    decreases scopes.len(),
{
    let s2 = with_state(scopes, i, j, st);
    assert forall|k: int| 0 <= k < scopes.len() implies latest_in(#[trigger] s2[k], name) == latest_in(scopes[k], name) by {
        lemma_latest_in_update(scopes[k], s2[k], name);
    }
    lemma_locate_same_names(scopes, s2, name);
}

proof fn lemma_latest_in_update(a: Seq<(String, BindingInfo)>, b: Seq<(String, BindingInfo)>, name: Seq<char>)
    requires
        a.len() == b.len(),
        forall|k: int| 0 <= k < a.len() ==> (#[trigger] a[k]).0 == b[k].0,
    ensures
        latest_in(b, name) == latest_in(a, name),
    decreases a.len(),
{
    if a.len() > 0 {
        lemma_latest_in_update(a.drop_last(), b.drop_last(), name);
    }
}

proof fn lemma_locate_same_names(a: Seq<Seq<(String, BindingInfo)>>, b: Seq<Seq<(String, BindingInfo)>>, name: Seq<char>)
    requires
        a.len() == b.len(),
        forall|k: int| 0 <= k < a.len() ==> latest_in(#[trigger] b[k], name) == latest_in(a[k], name),
        forall|k: int| 0 <= k < a.len() ==> (#[trigger] b[k]).len() == a[k].len(),
    ensures
        locate(b, name) == locate(a, name),
    decreases a.len(),
{
    if a.len() > 0 {
        assert(b.last() == b[b.len() - 1]);
        lemma_locate_same_names(a.drop_last(), b.drop_last(), name);
    }
}

/// No binding in `scopes` is `own` or a borrow.
pub open spec fn all_plain(scopes: Seq<Seq<(String, BindingInfo)>>) -> bool {
    forall|i: int, j: int|
        0 <= i < scopes.len() && 0 <= j < scopes[i].len() ==> (#[trigger] scopes[i][j]).1.kind == BindingKind::Plain
}

/// In scopes without `own` or borrowed bindings, a name refers to a plain
/// binding or to none.
pub proof fn lemma_all_plain_binding(scopes: Seq<Seq<(String, BindingInfo)>>, name: Seq<char>)
    requires
        all_plain(scopes),
    ensures
        binding_of(scopes, name) matches Some(b) ==> b.kind == BindingKind::Plain,
{
    lemma_locate(scopes, name);
}

/// Changing a binding's state keeps every binding plain.
pub proof fn lemma_all_plain_with_state(scopes: Seq<Seq<(String, BindingInfo)>>, i: int, j: int, st: OwnershipState)
    requires
        all_plain(scopes),
        0 <= i < scopes.len(),
        0 <= j < scopes[i].len(),
    ensures
        all_plain(with_state(scopes, i, j, st)),
{
    let s2 = with_state(scopes, i, j, st);
    assert forall|a: int, b: int| 0 <= a < s2.len() && 0 <= b < s2[a].len() implies (#[trigger] s2[a][b]).1.kind
        == BindingKind::Plain by {
        if a == i && b == j {
        } else {
            assert(s2[a][b] == scopes[a][b]);
        }
    }
}

/// Restoring states from a snapshot keeps every binding plain.
pub proof fn lemma_all_plain_restored(scopes: Seq<Seq<(String, BindingInfo)>>, snap: Seq<(Seq<char>, OwnershipState)>)
    requires
        all_plain(scopes),
    ensures
        all_plain(restored(scopes, snap)),
    decreases snap.len(),
{
    if snap.len() > 0 {
        lemma_all_plain_restored(scopes, snap.drop_last());
        let before = restored(scopes, snap.drop_last());
        lemma_locate(before, snap.last().0);
        match locate(before, snap.last().0) {
            Some((i, j)) => lemma_all_plain_with_state(before, i, j, snap.last().1),
            None => {},
        }
    }
}

/// Opening a scope keeps every binding plain.
pub proof fn lemma_all_plain_push(scopes: Seq<Seq<(String, BindingInfo)>>)
    requires
        all_plain(scopes),
    ensures
        all_plain(scopes.push(Seq::empty())),
{
    let p = scopes.push(Seq::<(String, BindingInfo)>::empty());
    assert forall|a: int, b: int| 0 <= a < p.len() && 0 <= b < p[a].len() implies (#[trigger] p[a][b]).1.kind
        == BindingKind::Plain by {
        assert(a < scopes.len());
        assert(p[a] == scopes[a]);
    }
}

/// Closing a scope keeps every binding plain.
pub proof fn lemma_all_plain_pop(scopes: Seq<Seq<(String, BindingInfo)>>)
    requires
        all_plain(scopes),
        scopes.len() > 0,
    ensures
        all_plain(scopes.drop_last()),
{
    let d = scopes.drop_last();
    assert forall|a: int, b: int| 0 <= a < d.len() && 0 <= b < d[a].len() implies (#[trigger] d[a][b]).1.kind
        == BindingKind::Plain by {
        assert(d[a] == scopes[a]);
    }
}

/// Adding a plain binding to the innermost scope keeps every binding plain.
pub proof fn lemma_all_plain_define(scopes: Seq<Seq<(String, BindingInfo)>>, name: String, info: BindingInfo)
    requires
        all_plain(scopes),
        scopes.len() > 0,
        info.kind == BindingKind::Plain,
    ensures
        all_plain(scopes.update(scopes.len() - 1, scopes.last().push((name, info)))),
{
    let u = scopes.update(scopes.len() - 1, scopes.last().push((name, info)));
    assert forall|a: int, b: int| 0 <= a < u.len() && 0 <= b < u[a].len() implies (#[trigger] u[a][b]).1.kind
        == BindingKind::Plain by {
        if a == scopes.len() - 1 {
            if b < scopes.last().len() {
                assert(u[a][b] == scopes[a][b]);
            }
        } else {
            assert(u[a] == scopes[a]);
        }
    }
}

} // verus!
