//! The username directory: a map from in-game name to entity id whose
//! inserts and removes are queued during the tick and applied exactly once
//! per tick, so that lookups see the previous tick's snapshot.

use vstd::map::*;
use vstd::prelude::*;
use vstd::slice::slice_to_vec;

verus! {

/// One applied directory entry.
pub struct IgnEntry {
    pub name: Vec<u8>,
    pub entity: u64,
}

/// One queued directory change.
pub enum IgnOp {
    Insert { name: Vec<u8>, entity: u64 },
    Remove { name: Vec<u8> },
}

/// The index of the entry named `k`, or `-1` when none exists.
pub open spec fn find_ign(s: Seq<IgnEntry>, k: Seq<u8>) -> int
    decreases s.len(),
{
    if s.len() == 0 {
        -1
    } else if s[0].name@ == k {
        0
    } else {
        let r = find_ign(s.drop_first(), k);
        if r < 0 {
            -1
        } else {
            r + 1
        }
    }
}

/// `find_ign` returns either `-1` with no match present, or the first
/// matching index.
pub proof fn lemma_find_ign(s: Seq<IgnEntry>, k: Seq<u8>)
    ensures
        find_ign(s, k) == -1 ==> forall|i: int| 0 <= i < s.len() ==> s[i].name@ != k,
        find_ign(s, k) >= 0 ==> 0 <= find_ign(s, k) < s.len() && s[find_ign(s, k)].name@ == k
            && forall|i: int| 0 <= i < find_ign(s, k) ==> s[i].name@ != k,
    decreases s.len(),
{
    if s.len() > 0 && s[0].name@ != k {
        let t = s.drop_first();
        lemma_find_ign(t, k);
        let r = find_ign(t, k);
        if r < 0 {
            assert forall|i: int| 0 <= i < s.len() implies s[i].name@ != k by {
                if i > 0 {
                    assert(t[i - 1] == s[i]);
                }
            }
        } else {
            assert(s[r + 1] == t[r]);
            assert forall|i: int| 0 <= i < r + 1 implies s[i].name@ != k by {
                if i > 0 {
                    assert(t[i - 1] == s[i]);
                }
            }
        }
    }
}

/// The map the applied entries denote.
pub open spec fn ign_map_of(s: Seq<IgnEntry>) -> Map<Seq<u8>, u64> {
    Map::new(|k: Seq<u8>| find_ign(s, k) >= 0, |k: Seq<u8>| s[find_ign(s, k)].entity)
}

/// The key a queued change affects.
pub open spec fn ign_op_key(op: IgnOp) -> Seq<u8> {
    match op {
        IgnOp::Insert { name, entity } => name@,
        IgnOp::Remove { name } => name@,
    }
}

/// A queued change applied to a map.
pub open spec fn apply_ign_op(m: Map<Seq<u8>, u64>, op: IgnOp) -> Map<Seq<u8>, u64> {
    match op {
        IgnOp::Insert { name, entity } => m.insert(name@, entity),
        IgnOp::Remove { name } => m.remove(name@),
    }
}

/// Queued changes applied in order; a later change to the same name wins.
pub open spec fn apply_ign_ops(m: Map<Seq<u8>, u64>, ops: Seq<IgnOp>) -> Map<Seq<u8>, u64>
    decreases ops.len(),
{
    if ops.len() == 0 {
        m
    } else {
        apply_ign_op(apply_ign_ops(m, ops.drop_last()), ops.last())
    }
}

/// The deferred-write directory.
pub struct IgnMap {
    entries: Vec<IgnEntry>,
    pending: Vec<IgnOp>,
}

impl IgnMap {
    /// Entry names are unique.
    pub closed spec fn wf(&self) -> bool {
        forall|i: int, j: int|
            0 <= i < j < self.entries@.len() ==> self.entries@[i].name@ != self.entries@[j].name@
    }

    /// The applied snapshot: what lookups see this tick.
    pub closed spec fn snapshot(&self) -> Map<Seq<u8>, u64> {
        ign_map_of(self.entries@)
    }

    /// The changes queued since the last reconciliation, in order.
    pub closed spec fn pending_ops(&self) -> Seq<IgnOp> {
        self.pending@
    }

    /// The map the next reconciliation will expose.
    pub open spec fn effective(&self) -> Map<Seq<u8>, u64> {
        apply_ign_ops(self.snapshot(), self.pending_ops())
    }

    /// An empty directory.
    pub fn new() -> (r: IgnMap)
        ensures
            r.wf(),
            r.snapshot() == Map::<Seq<u8>, u64>::empty(),
            r.pending_ops() == Seq::<IgnOp>::empty(),
    {
        let r = IgnMap { entries: Vec::new(), pending: Vec::new() };
        proof {
            assert(r.snapshot() =~= Map::<Seq<u8>, u64>::empty());
        }
        r
    }

    /// Looks a name up in the applied snapshot; queued changes from this
    /// tick are not yet visible.
    pub fn get(&self, name: &[u8]) -> (r: Option<u64>)
        requires
            self.wf(),
        ensures
            match r {
                Some(e) => self.snapshot().contains_key(name@) && self.snapshot()[name@] == e,
                None => !self.snapshot().contains_key(name@),
            },
    {
        proof {
            lemma_find_ign(self.entries@, name@);
        }
        let mut i: usize = 0;
        while i < self.entries.len()
            invariant
                self.wf(),
                i <= self.entries@.len(),
                forall|j: int| 0 <= j < i ==> self.entries@[j].name@ != name@,
                find_ign(self.entries@, name@) == -1 ==> forall|j: int|
                    0 <= j < self.entries@.len() ==> self.entries@[j].name@ != name@,
                find_ign(self.entries@, name@) >= 0 ==> 0 <= find_ign(self.entries@, name@)
                    < self.entries@.len() && self.entries@[find_ign(self.entries@, name@)].name@
                    == name@ && forall|j: int|
                    0 <= j < find_ign(self.entries@, name@) ==> self.entries@[j].name@ != name@,
            decreases self.entries@.len() - i,
        {
            if bytes_eq(self.entries[i].name.as_slice(), name) {
                proof {
                    if find_ign(self.entries@, name@) < i {
                        assert(self.entries@[find_ign(self.entries@, name@)].name@ != name@);
                    }
                }
                return Some(self.entries[i].entity);
            }
            i = i + 1;
        }
        None
    }

    /// Queues an insert; it becomes visible at the next reconciliation, and
    /// a later queued change to the same name wins.
    pub fn insert(&mut self, name: Vec<u8>, entity: u64)
        requires
            old(self).wf(),
        ensures
            final(self).wf(),
            final(self).snapshot() == old(self).snapshot(),
            final(self).pending_ops().len() == old(self).pending_ops().len() + 1,
            final(self).pending_ops() == old(self).pending_ops().push(
                final(self).pending_ops().last(),
            ),
            ign_op_key(final(self).pending_ops().last()) == name@,
            final(self).effective() == old(self).effective().insert(name@, entity),
    {
        let ghost ops0 = self.pending@;
        self.pending.push(IgnOp::Insert { name, entity });
        proof {
            assert(self.pending@.drop_last() =~= ops0);
        }
    }

    /// Queues a removal; it becomes visible at the next reconciliation.
    pub fn remove(&mut self, name: Vec<u8>)
        requires
            old(self).wf(),
        ensures
            final(self).wf(),
            final(self).snapshot() == old(self).snapshot(),
            final(self).pending_ops().len() == old(self).pending_ops().len() + 1,
            final(self).pending_ops() == old(self).pending_ops().push(
                final(self).pending_ops().last(),
            ),
            ign_op_key(final(self).pending_ops().last()) == name@,
            final(self).effective() == old(self).effective().remove(name@),
    {
        let ghost ops0 = self.pending@;
        self.pending.push(IgnOp::Remove { name });
        proof {
            assert(self.pending@.drop_last() =~= ops0);
        }
    }
}

/// Compares two byte strings.
pub fn bytes_eq(a: &[u8], b: &[u8]) -> (r: bool)
    ensures
        r == (a@ == b@),
{
    if a.len() != b.len() {
        proof {
            assert(a@ != b@);
        }
        return false;
    }
    let mut i: usize = 0;
    while i < a.len()
        invariant
            a@.len() == b@.len(),
            i <= a@.len(),
            forall|j: int| 0 <= j < i ==> a@[j] == b@[j],
        decreases a@.len() - i,
    {
        if a[i] != b[i] {
            return false;
        }
        i = i + 1;
    }
    proof {
        assert(a@ =~= b@);
    }
    true
}

} // verus!

verus! {

/// `find_ign` depends only on the entry names, not the entity values.
proof fn lemma_find_ign_same_names(s1: Seq<IgnEntry>, s2: Seq<IgnEntry>, k: Seq<u8>)
    requires
        s1.len() == s2.len(),
        forall|i: int| 0 <= i < s1.len() ==> (#[trigger] s1[i]).name@ == s2[i].name@,
    ensures
        find_ign(s1, k) == find_ign(s2, k),
    decreases s1.len(),
{
    if s1.len() > 0 && s1[0].name@ != k {
        assert(forall|i: int|
            0 <= i < s1.drop_first().len() ==> (#[trigger] s1.drop_first()[i]).name@
                == s2.drop_first()[i].name@);
        lemma_find_ign_same_names(s1.drop_first(), s2.drop_first(), k);
    }
}

/// `find_ign` after a push: an existing match stands; otherwise the new
/// entry is found exactly when it matches.
proof fn lemma_find_ign_push(s: Seq<IgnEntry>, x: IgnEntry, k: Seq<u8>)
    ensures
        find_ign(s.push(x), k) == if find_ign(s, k) >= 0 {
            find_ign(s, k)
        } else if x.name@ == k {
            s.len() as int
        } else {
            -1
        },
    decreases s.len(),
{
    reveal_with_fuel(find_ign, 3);
    if s.len() == 0 {
        assert(s.push(x).drop_first() =~= Seq::<IgnEntry>::empty());
        assert(s.push(x)[0] == x);
    } else {
        let t = s.drop_first();
        let tp = s.push(x).drop_first();
        assert(tp =~= t.push(x));
        assert(s.push(x)[0] == s[0]);
        if s[0].name@ != k {
            lemma_find_ign_push(t, x, k);
        }
    }
}

impl IgnMap {
    /// The index of the applied entry for `name`, when one exists.
    fn entry_index(&self, name: &[u8]) -> (r: Option<usize>)
        requires
            self.wf(),
        ensures
            match r {
                Some(i) => i == find_ign(self.entries@, name@) && i < self.entries@.len()
                    && self.entries@[i as int].name@ == name@,
                None => find_ign(self.entries@, name@) == -1,
            },
    {
        proof {
            lemma_find_ign(self.entries@, name@);
        }
        let mut i: usize = 0;
        while i < self.entries.len()
            invariant
                self.wf(),
                i <= self.entries@.len(),
                forall|j: int| 0 <= j < i ==> self.entries@[j].name@ != name@,
                find_ign(self.entries@, name@) == -1 ==> forall|j: int|
                    0 <= j < self.entries@.len() ==> self.entries@[j].name@ != name@,
                find_ign(self.entries@, name@) >= 0 ==> 0 <= find_ign(self.entries@, name@)
                    < self.entries@.len() && self.entries@[find_ign(self.entries@, name@)].name@
                    == name@ && forall|j: int|
                    0 <= j < find_ign(self.entries@, name@) ==> self.entries@[j].name@ != name@,
            decreases self.entries@.len() - i,
        {
            if bytes_eq(self.entries[i].name.as_slice(), name) {
                proof {
                    if find_ign(self.entries@, name@) < i {
                        assert(self.entries@[find_ign(self.entries@, name@)].name@ != name@);
                    }
                }
                return Some(i);
            }
            i = i + 1;
        }
        None
    }

    /// Applies one queued insert to the snapshot.
    fn apply_insert(&mut self, name: Vec<u8>, entity: u64)
        requires
            old(self).wf(),
        ensures
            final(self).wf(),
            final(self).pending_ops() == old(self).pending_ops(),
            final(self).snapshot() == old(self).snapshot().insert(name@, entity),
    {
        let ghost s0 = self.entries@;
        match self.entry_index(name.as_slice()) {
            Some(i) => {
                let mut e = self.entries.remove(i);
                e.entity = entity;
                self.entries.insert(i, e);
                proof {
                    assert(self.entries@ =~= s0.update(i as int, self.entries@[i as int]));
                    assert(self.entries@[i as int].name@ == name@);
                    assert forall|k: Seq<u8>| true implies find_ign(self.entries@, k) == find_ign(
                        s0,
                        k,
                    ) by {
                        lemma_find_ign_same_names(self.entries@, s0, k);
                    }
                    assert forall|k: Seq<u8>|
                        k != name@ && find_ign(s0, k) >= 0 implies self.entries@[find_ign(
                        s0,
                        k,
                    )].entity == s0[find_ign(s0, k)].entity by {
                        lemma_find_ign(s0, k);
                    }
                    assert(self.snapshot() =~= old(self).snapshot().insert(name@, entity)) by {
                        lemma_find_ign(s0, name@);
                    }
                }
            },
            None => {
                proof {
                    lemma_find_ign(s0, name@);
                }
                let ghost nv = name@;
                self.entries.push(IgnEntry { name, entity });
                proof {
                    assert forall|k: Seq<u8>| true implies find_ign(self.entries@, k) == (
                    if find_ign(s0, k) >= 0 {
                        find_ign(s0, k)
                    } else if k == name@ {
                        s0.len() as int
                    } else {
                        -1
                    }) by {
                        lemma_find_ign_push(s0, self.entries@.last(), k);
                        assert(self.entries@.drop_last() =~= s0);
                        assert(s0.push(self.entries@.last()) =~= self.entries@);
                    }
                    assert forall|k: Seq<u8>| find_ign(s0, k) >= 0 implies self.entries@[find_ign(
                        s0,
                        k,
                    )].entity == s0[find_ign(s0, k)].entity && k != name@ by {
                        lemma_find_ign(s0, k);
                    }
                    assert(self.snapshot() =~= old(self).snapshot().insert(name@, entity));
                }
            },
        }
    }

    /// Applies one queued removal to the snapshot.
    fn apply_remove(&mut self, name: &[u8])
        requires
            old(self).wf(),
        ensures
            final(self).wf(),
            final(self).pending_ops() == old(self).pending_ops(),
            final(self).snapshot() == old(self).snapshot().remove(name@),
    {
        let ghost s0 = self.entries@;
        match self.entry_index(name) {
            Some(i) => {
                self.entries.remove(i);
                proof {
                    s0.remove_ensures(i as int);
                    assert(self.entries@ =~= s0.remove(i as int));
                    lemma_find_ign(s0, name@);
                    assert forall|k: Seq<u8>| true implies (find_ign(self.entries@, k) >= 0 <==> (
                    find_ign(s0, k) >= 0 && k != name@)) && (find_ign(self.entries@, k) >= 0
                        ==> self.entries@[find_ign(self.entries@, k)].entity == s0[find_ign(
                        s0,
                        k,
                    )].entity) by {
                        lemma_find_ign(s0, k);
                        lemma_find_ign(self.entries@, k);
                        let sn = self.entries@;
                        if find_ign(s0, k) >= 0 && k != name@ {
                            let j = find_ign(s0, k);
                            let jn = if j < i { j } else { j - 1 };
                            assert(sn[jn] == s0[j]);
                            assert(find_ign(sn, k) >= 0);
                        }
                        if find_ign(sn, k) >= 0 {
                            let j2 = find_ign(sn, k);
                            let jo = if j2 < i { j2 } else { j2 + 1 };
                            assert(sn[j2] == s0[jo]);
                            assert(find_ign(s0, k) >= 0);
                            let j = find_ign(s0, k);
                            assert(s0[j].name@ == k && s0[jo].name@ == k);
                            if j != jo {
                                assert(false);
                            }
                        }
                    }
                    assert(self.snapshot() =~= old(self).snapshot().remove(name@));
                }
            },
            None => {
                proof {
                    lemma_find_ign(s0, name@);
                    assert(self.snapshot() =~= old(self).snapshot().remove(name@));
                }
            },
        }
    }

    /// Reconciles the directory: applies every queued change, in order, to
    /// the snapshot. Lookups from now on see the result; the queue empties.
    pub fn update(&mut self)
        requires
            old(self).wf(),
        ensures
            final(self).wf(),
            final(self).pending_ops() == Seq::<IgnOp>::empty(),
            final(self).snapshot() == old(self).effective(),
    {
        let mut ops: Vec<IgnOp> = Vec::new();
        core::mem::swap(&mut self.pending, &mut ops);
        let ghost m0 = ign_map_of(self.entries@);
        let mut k: usize = 0;
        while k < ops.len()
            invariant
                self.wf(),
                self.pending@ == Seq::<IgnOp>::empty(),
                k <= ops@.len(),
                self.snapshot() == apply_ign_ops(m0, ops@.take(k as int)),
            decreases ops@.len() - k,
        {
            let ghost pre = self.snapshot();
            match &ops[k] {
                IgnOp::Insert { name, entity } => {
                    let n = vstd::slice::slice_to_vec(name.as_slice());
                    let e = *entity;
                    self.apply_insert(n, e);
                },
                IgnOp::Remove { name } => {
                    let n = name.as_slice();
                    self.apply_remove(n);
                },
            }
            proof {
                assert(ops@.take(k + 1).drop_last() =~= ops@.take(k as int));
                assert(ops@.take(k + 1).last() == ops@[k as int]);
                assert(self.snapshot() == apply_ign_op(pre, ops@[k as int]));
            }
            k = k + 1;
        }
        proof {
            assert(ops@.take(ops@.len() as int) =~= ops@);
        }
    }
}

} // verus!
