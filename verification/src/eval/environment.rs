//! Lexically nested environments: an arena of scopes.
//!
//! A scope maps names to values and may have a parent scope. Scopes live in
//! one growing arena, and a scope names its parent by index; an index is
//! always smaller than the index of the scope holding it, so lookup walks a
//! strictly falling chain. A function value captures a scope by holding its
//! index: later bindings in that scope stay visible through the capture, as
//! closure semantics asks.

use vstd::prelude::*;
use crate::eval::object::{Object, ObjView, obj_wf};

verus! {

broadcast use vstd::std_specs::vec::group_vec_axioms, vstd::seq::group_seq_axioms;

/// One scope: its bindings, in the order they were made, and its parent.
#[derive(Debug)]
pub struct Scope {
    /// The bindings; each name occurs at most once.
    pub bindings: Vec<(String, Object)>,
    /// The enclosing scope's index in the arena, if any; always smaller than
    /// this scope's own index.
    pub parent: Option<usize>,
}

/// Mathematical image of a scope: a map from names to value views, and the
/// parent index.
pub struct ScopeView {
    pub map: Map<Seq<char>, ObjView>,
    pub parent: Option<int>,
}

/// The map a sequence of bindings denotes; a later binding of a name wins.
pub open spec fn bindings_map(bs: Seq<(String, Object)>) -> Map<Seq<char>, ObjView>
    decreases bs.len(),
{
    if bs.len() == 0 {
        Map::empty()
    } else {
        bindings_map(bs.drop_last()).insert(bs.last().0@, bs.last().1@)
    }
}

/// Whether each name occurs at most once among the bindings.
pub open spec fn unique_keys(bs: Seq<(String, Object)>) -> bool {
    forall|j: int, k: int| 0 <= j < k < bs.len() ==> bs[j].0@ != bs[k].0@
}

impl View for Scope {
    type V = ScopeView;

    open spec fn view(&self) -> ScopeView {
        ScopeView {
            map: bindings_map(self.bindings@),
            parent: match self.parent {
                Some(p) => Some(p as int),
                None => None,
            },
        }
    }
}

/// The environment: an arena of scopes and the index of the innermost one.
#[derive(Debug)]
pub struct Environment {
    /// All scopes; the arena only ever grows.
    pub scopes: Vec<Scope>,
    /// The innermost scope, where new bindings land.
    pub current: usize,
}

/// The view of the whole arena.
pub open spec fn store_view(env: Environment) -> Seq<ScopeView> {
    Seq::new(
        env.scopes@.len(),
        |i: int|
            if 0 <= i < env.scopes@.len() {
                env.scopes@[i]@
            } else {
                ScopeView { map: Map::empty(), parent: None }
            },
    )
}

/// Well-formedness of an arena view: every parent index points strictly
/// downward, and every stored value's captured scopes lie inside the arena.
pub open spec fn store_wf(st: Seq<ScopeView>) -> bool {
    &&& forall|i: int|
        0 <= i < st.len() ==> match #[trigger] st[i].parent {
            Some(p) => 0 <= p < i,
            None => true,
        }
    &&& forall|i: int, k: Seq<char>|
        0 <= i < st.len() && #[trigger] st[i].map.dom().contains(k) ==> obj_wf(
            st[i].map[k],
            st.len() as int,
        )
}

/// Name lookup from scope `idx` outward along the parent chain; the first
/// binding found wins.
pub open spec fn s_lookup(st: Seq<ScopeView>, idx: int, key: Seq<char>) -> Option<ObjView>
    decreases idx,
{
    if 0 <= idx < st.len() {
        if st[idx].map.dom().contains(key) {
            Some(st[idx].map[key])
        } else {
            match st[idx].parent {
                Some(p) => if 0 <= p < idx {
                    s_lookup(st, p, key)
                } else {
                    None
                },
                None => None,
            }
        }
    } else {
        None
    }
}

/// An option of values matches an option of views when both are absent or
/// both present with the matching view.
pub open spec fn opt_obj_matches(r: Option<Object>, s: Option<ObjView>) -> bool {
    match r {
        Some(o) => s == Some(o@),
        None => s is None,
    }
}

/// A value well formed for an arena stays well formed when the arena grows.
pub proof fn lemma_obj_wf_mono(v: ObjView, n: int, m: int)
    requires
        obj_wf(v, n),
        n <= m,
    ensures
        obj_wf(v, m),
    decreases v,
{
    match v {
        ObjView::Return(b) => {
            lemma_obj_wf_mono(*b, n, m);
        },
        _ => {},
    }
}

/// With unique keys, the bindings map holds exactly the bound names, each at
/// its bound value.
proof fn lemma_bindings_map_index(bs: Seq<(String, Object)>, j: int)
    requires
        unique_keys(bs),
        0 <= j < bs.len(),
    ensures
        bindings_map(bs).dom().contains(bs[j].0@),
        bindings_map(bs)[bs[j].0@] == bs[j].1@,
    decreases bs.len(),
{
    if j == bs.len() - 1 {
    } else {
        assert(bs.drop_last()[j] == bs[j]);
        lemma_bindings_map_index(bs.drop_last(), j);
    }
}

/// A name bound by none of the bindings is not in the map.
proof fn lemma_bindings_map_absent(bs: Seq<(String, Object)>, key: Seq<char>)
    requires
        forall|j: int| 0 <= j < bs.len() ==> bs[j].0@ != key,
    ensures
        !bindings_map(bs).dom().contains(key),
    decreases bs.len(),
{
    if bs.len() > 0 {
        assert(forall|j: int| 0 <= j < bs.len() - 1 ==> bs.drop_last()[j].0@ != key);
        lemma_bindings_map_absent(bs.drop_last(), key);
    }
}

/// Replacing the binding of a name in place rewrites exactly that name's
/// entry in the map.
proof fn lemma_bindings_map_update(bs: Seq<(String, Object)>, j: int, p: (String, Object))
    requires
        unique_keys(bs),
        0 <= j < bs.len(),
        p.0@ == bs[j].0@,
    ensures
        bindings_map(bs.update(j, p)) == bindings_map(bs).insert(p.0@, p.1@),
    decreases bs.len(),
{
    let updated = bs.update(j, p);
    if j == bs.len() - 1 {
        assert(updated.drop_last() =~= bs.drop_last());
        assert(bindings_map(updated) =~= bindings_map(bs).insert(p.0@, p.1@));
    } else {
        assert(updated.drop_last() =~= bs.drop_last().update(j, p));
        lemma_bindings_map_update(bs.drop_last(), j, p);
        assert(bs.last().0@ != p.0@);
        assert(bindings_map(updated) == bindings_map(bs.drop_last().update(j, p)).insert(
            bs.last().0@,
            bs.last().1@,
        ));
        assert(bindings_map(bs.drop_last()).insert(p.0@, p.1@).insert(bs.last().0@, bs.last().1@)
            =~= bindings_map(bs.drop_last()).insert(bs.last().0@, bs.last().1@).insert(
            p.0@,
            p.1@,
        ));
    }
}

impl Environment {
    /// The arena is well formed and the innermost scope lies inside it.
    pub open spec fn wf(self) -> bool {
        &&& self.current < self.scopes@.len()
        &&& store_wf(store_view(self))
        &&& forall|i: int| 0 <= i < self.scopes@.len() ==> unique_keys(#[trigger] self.scopes@[i].bindings@)
    }

    /// The arena's view.
    pub open spec fn store(self) -> Seq<ScopeView> {
        store_view(self)
    }

    /// The innermost scope's index.
    pub open spec fn cur(self) -> int {
        self.current as int
    }

    /// A root environment: one empty scope with no parent.
    pub fn new() -> (r: Environment)
        ensures
            r.wf(),
            r.store() =~= seq![ScopeView { map: Map::empty(), parent: None }],
            r.cur() == 0,
    {
        let mut scopes: Vec<Scope> = Vec::new();
        scopes.push(Scope { bindings: Vec::new(), parent: None });
        let r = Environment { scopes, current: 0 };
        proof {
            assert(r.scopes@[0].bindings@.len() == 0);
            assert(r.scopes@[0]@.map =~= Map::<Seq<char>, ObjView>::empty());
            assert(r.store() =~= seq![ScopeView { map: Map::empty(), parent: None }]);
        }
        r
    }

    /// An environment extended with a fresh empty scope enclosed in the given
    /// one's innermost scope; the fresh scope becomes innermost.
    pub fn new_enclosed(outer: Environment) -> (r: Environment)
        requires
            outer.wf(),
        ensures
            r.wf(),
            r.store() =~= outer.store().push(
                ScopeView { map: Map::empty(), parent: Some(outer.cur()) },
            ),
            r.cur() == outer.store().len(),
    {
        let mut env = outer;
        let parent = env.current;
        let idx = env.scopes.len();
        env.scopes.push(Scope { bindings: Vec::new(), parent: Some(parent) });
        env.current = idx;
        proof {
            assert(env.scopes@[idx as int].bindings@.len() == 0);
            assert(env.scopes@[idx as int]@.map =~= Map::<Seq<char>, ObjView>::empty());
            let st2 = env.store();
            let st1 = store_view(outer);
            assert(st2 =~= st1.push(ScopeView { map: Map::empty(), parent: Some(outer.cur()) }));
            assert forall|i: int, k: Seq<char>|
                0 <= i < st2.len() && #[trigger] st2[i].map.dom().contains(k) implies obj_wf(
                st2[i].map[k],
                st2.len() as int,
            ) by {
                assert(i < st1.len());
                assert(st2[i] == st1[i]);
                assert(st1[i].map.dom().contains(k));
                assert(obj_wf(st1[i].map[k], st1.len() as int));
                lemma_obj_wf_mono(st1[i].map[k], st1.len() as int, st2.len() as int);
            }
            assert(store_wf(st2));
        }
        env
    }

    /// Adds a fresh empty scope enclosed in scope `parent` without leaving
    /// the innermost scope, and hands back the new scope's index.
    pub fn push_scope(&mut self, parent: usize) -> (idx: usize)
        requires
            old(self).wf(),
            parent < old(self).store().len(),
        ensures
            final(self).wf(),
            final(self).cur() == old(self).cur(),
            idx == old(self).store().len(),
            final(self).store() =~= old(self).store().push(
                ScopeView { map: Map::empty(), parent: Some(parent as int) },
            ),
    {
        let idx = self.scopes.len();
        self.scopes.push(Scope { bindings: Vec::new(), parent: Some(parent) });
        proof {
            assert(self.scopes@[idx as int].bindings@.len() == 0);
            assert(self.scopes@[idx as int]@.map =~= Map::<Seq<char>, ObjView>::empty());
            let st2 = self.store();
            let st1 = old(self).store();
            assert(st2 =~= st1.push(ScopeView { map: Map::empty(), parent: Some(parent as int) }));
            assert forall|i: int, k: Seq<char>|
                0 <= i < st2.len() && #[trigger] st2[i].map.dom().contains(k) implies obj_wf(
                st2[i].map[k],
                st2.len() as int,
            ) by {
                assert(i < st1.len());
                assert(st2[i] == st1[i]);
                assert(st1[i].map.dom().contains(k));
                assert(obj_wf(st1[i].map[k], st1.len() as int));
                lemma_obj_wf_mono(st1[i].map[k], st1.len() as int, st2.len() as int);
            }
            assert(store_wf(st2));
        }
        idx
    }

    /// Makes scope `idx` the innermost one; bindings land there from now on.
    pub fn enter_scope(&mut self, idx: usize)
        requires
            old(self).wf(),
            idx < old(self).store().len(),
        ensures
            final(self).wf(),
            final(self).store() == old(self).store(),
            final(self).cur() == idx as int,
    {
        self.current = idx;
        proof {
            assert(self.store() =~= old(self).store());
        }
    }

    /// Looks a name up from the innermost scope outward and hands back a copy
    /// of the first value found, exactly as `s_lookup` answers.
    pub fn get(&mut self, key: &str) -> (r: Option<Object>)
        requires
            old(self).wf(),
        ensures
            *final(self) == *old(self),
            opt_obj_matches(r, s_lookup(old(self).store(), old(self).cur(), key@)),
            r matches Some(o) ==> obj_wf(o@, old(self).store().len() as int),
    {
        let ghost st = self.store();
        let mut idx = self.current;
        loop
            invariant
                self == old(self),
                self.wf(),
                st == self.store(),
                idx < self.scopes@.len(),
                s_lookup(st, idx as int, key@) == s_lookup(st, old(self).cur(), key@),
            ensures
                self == old(self),
                ({
                    let sc = self.scopes@[idx as int];
                    &&& idx < self.scopes@.len()
                    &&& s_lookup(st, idx as int, key@) == s_lookup(st, old(self).cur(), key@)
                    &&& (exists|j: int|
                        0 <= j < sc.bindings@.len() && sc.bindings@[j].0@ == key@) ==> s_lookup(
                        st,
                        old(self).cur(),
                        key@,
                    ) == s_lookup(st, idx as int, key@)
                }),
            decreases idx,
        {
            let sc = &self.scopes[idx];
            let n = sc.bindings.len();
            let mut j: usize = 0;
            let mut found: bool = false;
            while j < n && !found
                invariant
                    self == old(self),
                    self.wf(),
                    st == self.store(),
                    idx < self.scopes@.len(),
                    sc == self.scopes@[idx as int],
                    n == sc.bindings@.len(),
                    j <= n,
                    !found ==> forall|k: int| 0 <= k < j ==> sc.bindings@[k].0@ != key@,
                    found ==> j < n && sc.bindings@[j as int].0@ == key@,
                decreases n - j + (if found {
                    0int
                } else {
                    1int
                }),
            {
                if crate::text::str_eq(sc.bindings[j].0.as_str(), key) {
                    found = true;
                } else {
                    j = j + 1;
                }
            }
            if found {
                let value = &self.scopes[idx].bindings[j].1;
                proof {
                    lemma_bindings_map_index(self.scopes@[idx as int].bindings@, j as int);
                    assert(st[idx as int].map.dom().contains(key@));
                    assert(st[idx as int].map[key@] == value@);
                }
                return Some(crate::eval::object::clone_object(value));
            }
            proof {
                lemma_bindings_map_absent(self.scopes@[idx as int].bindings@, key@);
                assert(!st[idx as int].map.dom().contains(key@));
            }
            match self.scopes[idx].parent {
                Some(p) => {
                    proof {
                        assert(st[idx as int].parent == Some(p as int));
                    }
                    idx = p;
                },
                None => {
                    return None;
                },
            }
        }
    }

    /// Binds `key` to `val` in the innermost scope, replacing an existing
    /// binding of the same name in place, and hands back the replaced value
    /// if there was one. Only the innermost scope's map changes: it gains
    /// `key` at `val`.
    #[verifier::rlimit(60)]
    pub fn set(&mut self, key: String, val: Object) -> (r: Option<Object>)
        requires
            old(self).wf(),
            obj_wf(val@, old(self).store().len() as int),
        ensures
            final(self).wf(),
            final(self).cur() == old(self).cur(),
            final(self).store() =~= old(self).store().update(
                old(self).cur(),
                ScopeView {
                    map: old(self).store()[old(self).cur()].map.insert(key@, val@),
                    parent: old(self).store()[old(self).cur()].parent,
                },
            ),
            opt_obj_matches(
                r,
                if old(self).store()[old(self).cur()].map.dom().contains(key@) {
                    Some(old(self).store()[old(self).cur()].map[key@])
                } else {
                    None
                },
            ),
    {
        let ghost st = self.store();
        let cur = self.current;
        let n = self.scopes[cur].bindings.len();
        let mut j: usize = 0;
        let mut found: bool = false;
        while j < n && !found
            invariant
                self == old(self),
                self.wf(),
                st == self.store(),
                cur == self.current,
                n == self.scopes@[cur as int].bindings@.len(),
                j <= n,
                !found ==> forall|k: int|
                    0 <= k < j ==> self.scopes@[cur as int].bindings@[k].0@ != key@,
                found ==> j < n && self.scopes@[cur as int].bindings@[j as int].0@ == key@,
            decreases n - j + (if found {
                0int
            } else {
                1int
            }),
        {
            if crate::text::str_eq(self.scopes[cur].bindings[j].0.as_str(), key.as_str()) {
                found = true;
            } else {
                j = j + 1;
            }
        }
        if found {
            let ghost oldbs = self.scopes@[cur as int].bindings@;
            let ghost gkey = key@;
            let ghost gval = val@;
            let mut pair = (key, val);
            core::mem::swap(&mut self.scopes[cur].bindings[j], &mut pair);
            proof {
                lemma_bindings_map_index(oldbs, j as int);
                lemma_bindings_map_update(
                    oldbs,
                    j as int,
                    self.scopes@[cur as int].bindings@[j as int],
                );
                let st2 = self.store();
                let st1 = old(self).store();
                let c = old(self).cur();
                assert(self.scopes@[cur as int].bindings@ =~= oldbs.update(
                    j as int,
                    self.scopes@[cur as int].bindings@[j as int],
                ));
                assert(st2 =~= st1.update(
                    c,
                    ScopeView { map: st1[c].map.insert(gkey, gval), parent: st1[c].parent },
                ));
                assert forall|i: int, k: Seq<char>|
                    0 <= i < st2.len() && #[trigger] st2[i].map.dom().contains(k) implies obj_wf(
                    st2[i].map[k],
                    st2.len() as int,
                ) by {
                    if i == c && k == gkey {
                    } else {
                        assert(st1[i].map.dom().contains(k));
                        assert(st2[i].map[k] == st1[i].map[k]);
                    }
                }
                assert(store_wf(st2));
                assert forall|i: int|
                    0 <= i < self.scopes@.len() implies unique_keys(
                    #[trigger] self.scopes@[i].bindings@,
                ) by {
                    if i == cur as int {
                        let bs = self.scopes@[i].bindings@;
                        assert forall|a: int, b: int| 0 <= a < b < bs.len() implies bs[a].0@
                            != bs[b].0@ by {
                            assert(oldbs[a].0@ != oldbs[b].0@);
                        }
                    }
                }
            }
            Some(pair.1)
        } else {
            proof {
                lemma_bindings_map_absent(self.scopes@[cur as int].bindings@, key@);
            }
            let ghost oldbs = self.scopes@[cur as int].bindings@;
            let ghost gkey = key@;
            let ghost gval = val@;
            self.scopes[cur].bindings.push((key, val));
            proof {
                let bs2 = self.scopes@[cur as int].bindings@;
                assert(bs2.drop_last() =~= oldbs);
                assert(bindings_map(bs2) == bindings_map(oldbs).insert(gkey, gval));
                let st2 = self.store();
                let st1 = old(self).store();
                let c = old(self).cur();
                assert(st2 =~= st1.update(
                    c,
                    ScopeView { map: st1[c].map.insert(gkey, gval), parent: st1[c].parent },
                ));
                assert forall|i: int, k: Seq<char>|
                    0 <= i < st2.len() && #[trigger] st2[i].map.dom().contains(k) implies obj_wf(
                    st2[i].map[k],
                    st2.len() as int,
                ) by {
                    if i == c && k == gkey {
                    } else {
                        assert(st1[i].map.dom().contains(k));
                        assert(st2[i].map[k] == st1[i].map[k]);
                    }
                }
                assert(store_wf(st2));
                assert forall|i: int|
                    0 <= i < self.scopes@.len() implies unique_keys(
                    #[trigger] self.scopes@[i].bindings@,
                ) by {
                    if i == cur as int {
                        let bs = self.scopes@[i].bindings@;
                        assert forall|a: int, b: int| 0 <= a < b < bs.len() implies bs[a].0@
                            != bs[b].0@ by {
                            if b == bs.len() - 1 {
                                assert(bs[a] == oldbs[a]);
                                assert(oldbs[a].0@ != gkey);
                            } else {
                                assert(bs[a] == oldbs[a] && bs[b] == oldbs[b]);
                                assert(oldbs[a].0@ != oldbs[b].0@);
                            }
                        }
                    }
                }
            }
            None
        }
    }
}

} // verus!
