//! The connection registry: the authoritative in-memory table of live
//! connections, keyed by identity. It is the single source of truth for who
//! is connected, in what role, and for which category a consumer registered.
//!
//! The registry is a sequential data structure; callers that share it across
//! workers guard it with one lock, so every operation below happens atomically
//! with respect to the others.

use vstd::prelude::*;

verus! {

/// Role of a live connection. A freshly accepted connection is presumed to be
/// a producer until it announces otherwise; announcing makes it a consumer of
/// exactly one category.
#[derive(Clone, Copy, PartialEq, Eq, Structural, Debug)]
pub enum Role {
    Unclassified,
    Producer,
    Consumer,
}

/// Abstract value of one registry entry: the role and, for a consumer, the
/// announced category (empty for every other role).
#[verifier::ext_equal]
pub ghost struct ConnView {
    pub role: Role,
    pub category: Seq<char>,
}

/// One concrete registry entry.
pub struct Entry {
    pub id: u128,
    pub role: Role,
    pub category: String,
}

pub open spec fn entry_view(e: Entry) -> ConnView {
    ConnView { role: e.role, category: e.category@ }
}

/// The abstract contents of a sequence of entries, as a map from identity to
/// connection state. Later entries shadow earlier ones; under `distinct_ids`
/// there is nothing to shadow.
pub open spec fn map_of(s: Seq<Entry>) -> Map<u128, ConnView>
    decreases s.len(),
{
    if s.len() == 0 {
        Map::empty()
    } else {
        map_of(s.drop_last()).insert(s.last().id, entry_view(s.last()))
    }
}

pub open spec fn distinct_ids(s: Seq<Entry>) -> bool {
    forall|i: int, j: int| 0 <= i < j < s.len() ==> s[i].id != s[j].id
}

/// The consumers of one category: every identity the registry holds in role
/// `Consumer` whose announced category matches.
pub open spec fn consumers_for(m: Map<u128, ConnView>, category: Seq<char>) -> Set<u128> {
    m.dom().filter(|id: u128| m[id].role == Role::Consumer && m[id].category == category)
}

/// Rejection reasons for registry mutations.
#[derive(Clone, Copy, PartialEq, Eq, Structural, Debug)]
pub enum RegistryError {
    /// `register` was asked to insert an identity that is already live.
    IdentityInUse,
}

proof fn lemma_map_of_props(s: Seq<Entry>)
    requires
        distinct_ids(s),
    ensures
        forall|id: u128|
            map_of(s).contains_key(id) <==> (exists|i: int| 0 <= i < s.len() && s[i].id == id),
        forall|i: int|
            0 <= i < s.len() ==> map_of(s).contains_key(s[i].id) && map_of(s)[s[i].id]
                == entry_view(s[i]),
    decreases s.len(),
{
    if s.len() > 0 {
        let pre = s.drop_last();
        assert(distinct_ids(pre));
        lemma_map_of_props(pre);
        assert forall|i: int| 0 <= i < s.len() implies map_of(s).contains_key(s[i].id)
            && map_of(s)[s[i].id] == entry_view(s[i]) by {
            if i < s.len() - 1 {
                assert(pre[i] == s[i]);
                assert(s[i].id != s.last().id);
            }
        }
        assert forall|id: u128| map_of(s).contains_key(id) implies (exists|i: int|
            0 <= i < s.len() && s[i].id == id) by {
            if id != s.last().id {
                let i = choose|i: int| 0 <= i < pre.len() && pre[i].id == id;
                assert(s[i].id == id);
            } else {
                assert(s[s.len() - 1].id == id);
            }
        }
        assert forall|id: u128| (exists|i: int| 0 <= i < s.len() && s[i].id == id)
            implies map_of(s).contains_key(id) by {}
    }
}

proof fn lemma_map_of_push(s: Seq<Entry>, e: Entry)
    ensures
        map_of(s.push(e)) == map_of(s).insert(e.id, entry_view(e)),
{
    assert(s.push(e).drop_last() =~= s);
    assert(s.push(e).last() == e);
}

proof fn lemma_map_of_remove(s: Seq<Entry>, i: int)
    requires
        distinct_ids(s),
        0 <= i < s.len(),
    ensures
        map_of(s.remove(i)) =~= map_of(s).remove(s[i].id),
        distinct_ids(s.remove(i)),
    decreases s.len(),
{
    lemma_map_of_props(s);
    lemma_map_of_props(s.remove(i));
    assert(distinct_ids(s.remove(i))) by {
        assert forall|p: int, q: int| 0 <= p < q < s.remove(i).len() implies s.remove(i)[p].id
            != s.remove(i)[q].id by {
            assert(s.remove(i)[p] == if p < i { s[p] } else { s[p + 1] });
            assert(s.remove(i)[q] == if q < i { s[q] } else { s[q + 1] });
        }
    }
    assert forall|id: u128| #![auto] map_of(s.remove(i)).contains_key(id) implies map_of(s).remove(
        s[i].id,
    ).contains_key(id) && map_of(s.remove(i))[id] == map_of(s).remove(s[i].id)[id] by {
        let p = choose|p: int| 0 <= p < s.remove(i).len() && s.remove(i)[p].id == id;
        let q: int = if p < i { p } else { p + 1 };
        assert(s[q] == s.remove(i)[p]);
        assert(s[q].id == id);
        assert(id != s[i].id);
        assert(map_of(s.remove(i))[id] == entry_view(s.remove(i)[p]));
        assert(map_of(s)[id] == entry_view(s[q]));
    }
    assert forall|id: u128| #![auto] map_of(s).remove(s[i].id).contains_key(id)
        implies map_of(s.remove(i)).contains_key(id) by {
        let q = choose|q: int| 0 <= q < s.len() && s[q].id == id;
        assert(q != i);
        let p: int = if q < i { q } else { q - 1 };
        assert(s.remove(i)[p] == s[q]);
    }
}

/// Law: a connection the registry holds as a consumer of a category is part
/// of every consumer snapshot for that category. In particular, once
/// `reclassify(id, category)` has returned on a live identity — which
/// leaves the registry at `m.insert(id, ...)` — a `find_consumers(category)`
/// call from anywhere includes that identity.
pub proof fn lemma_reclassified_consumer_is_found(m: Map<u128, ConnView>, id: u128, category: Seq<char>)
    ensures
        consumers_for(
            m.insert(id, ConnView { role: Role::Consumer, category }),
            category,
        ).contains(id),
{
    let m2 = m.insert(id, ConnView { role: Role::Consumer, category });
    assert(m2.dom().contains(id));
}

/// Law: a departed identity is found by nobody. Teardown leaves the
/// registry at `m.remove(id)`, and no consumer snapshot of any category
/// taken afterwards contains the identity.
pub proof fn lemma_departed_identity_is_not_found(m: Map<u128, ConnView>, id: u128)
    ensures
        forall|category: Seq<char>| !(#[trigger] consumers_for(m.remove(id), category)).contains(
            id,
        ),
{
    assert forall|category: Seq<char>| !(#[trigger] consumers_for(m.remove(id), category)).contains(
        id,
    ) by {
        assert(!m.remove(id).dom().contains(id));
    }
}

/// The connection registry.
pub struct Registry {
    entries: Vec<Entry>,
}

impl View for Registry {
    type V = Map<u128, ConnView>;

    closed spec fn view(&self) -> Map<u128, ConnView> {
        map_of(self.entries@)
    }
}

impl Registry {
    /// Internal invariant: one entry per identity.
    pub closed spec fn wf(&self) -> bool {
        distinct_ids(self.entries@)
    }

    /// An empty registry: nobody is connected.
    pub fn new() -> (r: Registry)
        ensures
            r.wf(),
            r@ == Map::<u128, ConnView>::empty(),
    {
        Registry { entries: Vec::new() }
    }

    fn find_index(&self, id: u128) -> (r: Option<usize>)
        ensures
            match r {
                Some(i) => i < self.entries@.len() && self.entries@[i as int].id == id,
                None => forall|i: int| 0 <= i < self.entries@.len() ==> self.entries@[i].id != id,
            },
    {
        let n = self.entries.len();
        let mut j: usize = 0;
        while j < n
            invariant
                j <= n,
                n == self.entries@.len(),
                forall|i: int| 0 <= i < j ==> self.entries@[i].id != id,
            decreases n - j,
        {
            if self.entries[j].id == id {
                return Some(j);
            }
            j += 1;
        }
        None
    }

    /// Whether an identity is currently live.
    pub fn contains(&self, id: u128) -> (r: bool)
        requires
            self.wf(),
        ensures
            r == self@.contains_key(id),
    {
        proof {
            lemma_map_of_props(self.entries@);
        }
        self.find_index(id).is_some()
    }

    /// Insert a freshly accepted connection in role `Producer` with an empty
    /// category. Fails, changing nothing, exactly when the identity is
    /// already live.
    pub fn register(&mut self, id: u128) -> (r: Result<(), RegistryError>)
        requires
            old(self).wf(),
        ensures
            final(self).wf(),
            match r {
                Ok(()) => !old(self)@.contains_key(id) && final(self)@ == old(self)@.insert(
                    id,
                    ConnView { role: Role::Producer, category: Seq::<char>::empty() },
                ),
                Err(RegistryError::IdentityInUse) => old(self)@.contains_key(id)
                    && final(self)@ == old(self)@,
            },
    {
        proof {
            lemma_map_of_props(self.entries@);
        }
        match self.find_index(id) {
            Some(_) => Err(RegistryError::IdentityInUse),
            None => {
                let e = Entry { id, role: Role::Producer, category: String::new() };
                proof {
                    lemma_map_of_push(self.entries@, e);
                }
                self.entries.push(e);
                Ok(())
            },
        }
    }

    /// Remove an identity. Idempotent: removing an identity that is not live
    /// changes nothing and is not an error.
    pub fn unregister(&mut self, id: u128)
        requires
            old(self).wf(),
        ensures
            final(self).wf(),
            final(self)@ == old(self)@.remove(id),
            !final(self)@.contains_key(id),
    {
        proof {
            lemma_map_of_props(self.entries@);
        }
        match self.find_index(id) {
            Some(i) => {
                proof {
                    lemma_map_of_remove(self.entries@, i as int);
                }
                self.entries.remove(i);
                proof {
                    lemma_map_of_props(self.entries@);
                }
            },
            None => {
                proof {
                    assert(self@.remove(id) =~= self@);
                }
            },
        }
    }

    /// Transition an identity to role `Consumer` with the announced category.
    /// If the identity is no longer live (the connection already closed) this
    /// is a no-op.
    pub fn reclassify(&mut self, id: u128, category: String)
        requires
            old(self).wf(),
        ensures
            final(self).wf(),
            old(self)@.contains_key(id) ==> final(self)@ == old(self)@.insert(
                id,
                ConnView { role: Role::Consumer, category: category@ },
            ),
            !old(self)@.contains_key(id) ==> final(self)@ == old(self)@,
    {
        proof {
            lemma_map_of_props(self.entries@);
        }
        match self.find_index(id) {
            Some(i) => {
                proof {
                    lemma_map_of_remove(self.entries@, i as int);
                }
                self.entries.remove(i);
                let e = Entry { id, role: Role::Consumer, category };
                proof {
                    lemma_map_of_push(self.entries@, e);
                }
                self.entries.push(e);
                proof {
                    assert(self@ =~= old(self)@.insert(
                        id,
                        ConnView { role: Role::Consumer, category: e.category@ },
                    ));
                }
            },
            None => {},
        }
    }

    /// Snapshot of every live identity, of whatever role: each exactly once.
    pub fn identities(&self) -> (r: Vec<u128>)
        requires
            self.wf(),
        ensures
            forall|id: u128| r@.contains(id) <==> self@.contains_key(id),
            forall|k1: int, k2: int| 0 <= k1 < k2 < r@.len() ==> r@[k1] != r@[k2],
    {
        proof {
            lemma_map_of_props(self.entries@);
        }
        let n = self.entries.len();
        let mut r: Vec<u128> = Vec::new();
        let mut j: usize = 0;
        while j < n
            invariant
                j <= n,
                n == self.entries@.len(),
                self.wf(),
                forall|id: u128|
                    r@.contains(id) <==> (exists|i: int|
                        0 <= i < j && #[trigger] self.entries@[i].id == id),
                forall|k1: int, k2: int| 0 <= k1 < k2 < r@.len() ==> r@[k1] != r@[k2],
            decreases n - j,
        {
            let ghost r_old = r@;
            r.push(self.entries[j].id);
            proof {
                assert forall|id: u128| r@.contains(id) implies (exists|i: int|
                    0 <= i < j + 1 && #[trigger] self.entries@[i].id == id) by {
                    let k = choose|k: int| 0 <= k < r@.len() && r@[k] == id;
                    if k < r_old.len() {
                        assert(r_old[k] == id);
                        assert(r_old.contains(id));
                    } else {
                        assert(self.entries@[j as int].id == id);
                    }
                }
                assert forall|id: u128| (exists|i: int|
                    0 <= i < j + 1 && #[trigger] self.entries@[i].id == id) implies r@.contains(
                    id,
                ) by {
                    let i = choose|i: int|
                        0 <= i < j + 1 && #[trigger] self.entries@[i].id == id;
                    if i < j {
                        assert(r_old.contains(id));
                        let k = choose|k: int| 0 <= k < r_old.len() && r_old[k] == id;
                        assert(r@[k] == id);
                    } else {
                        assert(r@[r@.len() - 1] == id);
                    }
                }
                assert forall|k1: int, k2: int| 0 <= k1 < k2 < r@.len() implies r@[k1]
                    != r@[k2] by {
                    if k2 == r@.len() - 1 {
                        assert(r_old[k1] == r@[k1]);
                        assert(r_old.contains(r_old[k1]));
                        let i1 = choose|i: int|
                            0 <= i < j && #[trigger] self.entries@[i].id == r@[k1];
                        assert(self.entries@[j as int].id != self.entries@[i1].id);
                    }
                }
            }
            j += 1;
        }
        r
    }

    /// Snapshot of every consumer of one category: each matching identity
    /// exactly once, nothing else.
    pub fn find_consumers(&self, category: &String) -> (r: Vec<u128>)
        requires
            self.wf(),
        ensures
            forall|id: u128|
                r@.contains(id) <==> (self@.contains_key(id) && self@[id].role == Role::Consumer
                    && self@[id].category == category@),
            forall|k1: int, k2: int| 0 <= k1 < k2 < r@.len() ==> r@[k1] != r@[k2],
            forall|id: u128| r@.contains(id) <==> consumers_for(self@, category@).contains(id),
    {
        proof {
            lemma_map_of_props(self.entries@);
        }
        let n = self.entries.len();
        let mut r: Vec<u128> = Vec::new();
        let mut j: usize = 0;
        while j < n
            invariant
                j <= n,
                n == self.entries@.len(),
                self.wf(),
                forall|id: u128|
                    r@.contains(id) <==> (exists|i: int|
                        0 <= i < j && self.entries@[i].id == id && self.entries@[i].role
                            == Role::Consumer && self.entries@[i].category@ == category@),
                forall|k1: int, k2: int| 0 <= k1 < k2 < r@.len() ==> r@[k1] != r@[k2],
            decreases n - j,
        {
            let e = &self.entries[j];
            let is_match = e.role == Role::Consumer && e.category.eq(category);
            if is_match {
                let ghost r_old = r@;
                r.push(e.id);
                proof {
                    assert forall|id: u128| r@.contains(id) implies (exists|i: int|
                        0 <= i < j + 1 && self.entries@[i].id == id && self.entries@[i].role
                            == Role::Consumer && self.entries@[i].category@ == category@) by {
                        let k = choose|k: int| 0 <= k < r@.len() && r@[k] == id;
                        if k < r_old.len() {
                            assert(r_old[k] == id);
                            assert(r_old.contains(id));
                        } else {
                            assert(self.entries@[j as int].id == id);
                        }
                    }
                    assert forall|id: u128| (exists|i: int|
                        0 <= i < j + 1 && self.entries@[i].id == id && self.entries@[i].role
                            == Role::Consumer && self.entries@[i].category@ == category@)
                        implies r@.contains(id) by {
                        let i = choose|i: int|
                            0 <= i < j + 1 && self.entries@[i].id == id && self.entries@[i].role
                                == Role::Consumer && self.entries@[i].category@ == category@;
                        if i < j {
                            assert(r_old.contains(id));
                            let k = choose|k: int| 0 <= k < r_old.len() && r_old[k] == id;
                            assert(r@[k] == id);
                        } else {
                            assert(r@[r@.len() - 1] == id);
                        }
                    }
                    assert forall|k1: int, k2: int| 0 <= k1 < k2 < r@.len() implies r@[k1]
                        != r@[k2] by {
                        if k2 == r@.len() - 1 {
                            assert(r_old[k1] == r@[k1]);
                            assert(r_old.contains(r_old[k1]));
                            let i1 = choose|i: int|
                                0 <= i < j && self.entries@[i].id == r_old[k1]
                                    && self.entries@[i].role == Role::Consumer
                                    && self.entries@[i].category@ == category@;
                            assert(self.entries@[j as int].id != self.entries@[i1].id);
                        }
                    }
                }
            } else {
                proof {
                    assert forall|id: u128| r@.contains(id) implies (exists|i: int|
                        0 <= i < j + 1 && self.entries@[i].id == id && self.entries@[i].role
                            == Role::Consumer && self.entries@[i].category@ == category@) by {}
                    assert forall|id: u128| (exists|i: int|
                        0 <= i < j + 1 && self.entries@[i].id == id && self.entries@[i].role
                            == Role::Consumer && self.entries@[i].category@ == category@)
                        implies r@.contains(id) by {
                        let i = choose|i: int|
                            0 <= i < j + 1 && self.entries@[i].id == id && self.entries@[i].role
                                == Role::Consumer && self.entries@[i].category@ == category@;
                        assert(i != j);
                    }
                }
            }
            j += 1;
        }
        proof {
            assert forall|id: u128| r@.contains(id) implies (self@.contains_key(id)
                && self@[id].role == Role::Consumer && self@[id].category == category@) by {
                let i = choose|i: int|
                    0 <= i < n && self.entries@[i].id == id && self.entries@[i].role
                        == Role::Consumer && self.entries@[i].category@ == category@;
                assert(self@[id] == entry_view(self.entries@[i]));
            }
            assert forall|id: u128| (self@.contains_key(id) && self@[id].role == Role::Consumer
                && self@[id].category == category@) implies r@.contains(id) by {
                let i = choose|i: int| 0 <= i < n && self.entries@[i].id == id;
                assert(self@[id] == entry_view(self.entries@[i]));
            }
        }
        r
    }
}

} // verus!
