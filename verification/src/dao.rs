//! The typed collection: the sole owner of the physical record storage,
//! keyed by `AgentId` with a uniqueness index on the key field. It offers
//! point lookup, physical insert (rejected on a key collision), partial
//! update of the record under a key, upsert-by-key, a full scan, and a
//! liveness check.

use vstd::prelude::*;
use crate::errors::StoreError;
use crate::protocol::{AgentId, AgentRecord};
use crate::updates::{applied_agent, applied_keys, applied_profile, RecordUpdate};

verus! {

/// What a partial update leaves of the collection: every other record
/// unchanged, and the record at `i` rewritten field by field as the
/// update vocabulary says, its key untouched.
pub open spec fn updated_at(
    pre: Seq<AgentRecord>,
    post: Seq<AgentRecord>,
    i: int,
    u: RecordUpdate,
) -> bool {
    &&& post.len() == pre.len()
    &&& forall|j: int| 0 <= j < pre.len() && j != i ==> post[j] == pre[j]
    &&& post[i].id == pre[i].id
    &&& post[i].agent == applied_agent(pre[i], u)
    &&& post[i].profile == applied_profile(pre[i], u)
    &&& post[i].keys@ == applied_keys(pre[i], u)
}

/// What an upsert leaves of the collection when no record held the key:
/// the old records unchanged and one fresh record appended, carrying the
/// key, the identity payload named by the update, no profile and no keys.
pub open spec fn inserted_fresh(
    pre: Seq<AgentRecord>,
    post: Seq<AgentRecord>,
    k: AgentId,
    a: crate::protocol::Agent,
) -> bool {
    &&& post.len() == pre.len() + 1
    &&& forall|j: int| 0 <= j < pre.len() ==> post[j] == pre[j]
    &&& post[pre.len() as int].id == k
    &&& post[pre.len() as int].agent == a
    &&& post[pre.len() as int].profile is None
    &&& post[pre.len() as int].keys@.len() == 0
}

/// One physical collection of agent records. The uniqueness index on the
/// key field is intrinsic to the invariant: no two stored records share
/// an id.
pub struct Dao {
    records: Vec<AgentRecord>,
}

impl Dao {
    /// The stored records, in storage order.
    pub closed spec fn recs(self) -> Seq<AgentRecord> {
        self.records@
    }

    /// The uniqueness index: distinct records hold distinct keys.
    pub open spec fn inv(self) -> bool {
        forall|i: int, j: int|
            0 <= i < j < self.recs().len() ==> (#[trigger] self.recs()[i]).id != (
            #[trigger] self.recs()[j]).id
    }

    /// Whether some record holds the key `k`.
    pub open spec fn has(self, k: AgentId) -> bool {
        exists|i: int| 0 <= i < self.recs().len() && self.recs()[i].id == k
    }

    /// The storage index of the record holding `k`; meaningful only
    /// when `has(k)`.
    pub open spec fn idx_of(self, k: AgentId) -> int {
        choose|i: int| 0 <= i < self.recs().len() && self.recs()[i].id == k
    }

    /// The record holding `k`; meaningful only when `has(k)`.
    pub open spec fn rec_of(self, k: AgentId) -> AgentRecord {
        self.recs()[self.idx_of(k)]
    }

    /// Under the invariant, the record at `i` is found at `i` and
    /// nowhere else.
    pub proof fn lemma_at(self, i: int)
        requires
            self.inv(),
            0 <= i < self.recs().len(),
        ensures
            self.has(self.recs()[i].id),
            self.idx_of(self.recs()[i].id) == i,
    {
        let k = self.recs()[i].id;
        assert(self.has(k));
        let j = self.idx_of(k);
        assert(0 <= j < self.recs().len() && self.recs()[j].id == k);
    }

    /// After a partial update of the record holding `k`, that record's
    /// fields read as the update vocabulary says and every other key
    /// reads unchanged.
    pub proof fn lemma_updated_frame(pre: Dao, post: Dao, k: AgentId, u: RecordUpdate)
        requires
            pre.inv(),
            post.inv(),
            pre.has(k),
            updated_at(pre.recs(), post.recs(), pre.idx_of(k), u),
        ensures
            post.has(k),
            post.idx_of(k) == pre.idx_of(k),
            post.rec_of(k).id == pre.rec_of(k).id,
            post.rec_of(k).agent == applied_agent(pre.rec_of(k), u),
            post.rec_of(k).profile == applied_profile(pre.rec_of(k), u),
            post.rec_of(k).keys@ == applied_keys(pre.rec_of(k), u),
            forall|k2: AgentId| k2 != k ==> post.has(k2) == pre.has(k2),
            forall|k2: AgentId|
                k2 != k && pre.has(k2) ==> post.rec_of(k2) == pre.rec_of(k2),
    {
        let i = pre.idx_of(k);
        assert(0 <= i < pre.recs().len() && pre.recs()[i].id == k);
        assert(post.recs()[i].id == k);
        post.lemma_at(i);
        assert forall|k2: AgentId| k2 != k implies post.has(k2) == pre.has(k2) by {
            if pre.has(k2) {
                let j = pre.idx_of(k2);
                assert(pre.recs()[j].id == k2);
                assert(j != i);
                assert(post.recs()[j] == pre.recs()[j]);
                assert(post.has(k2));
            }
            if post.has(k2) {
                let j = post.idx_of(k2);
                assert(post.recs()[j].id == k2);
                assert(j != i);
                assert(pre.recs()[j] == post.recs()[j]);
                assert(pre.has(k2));
            }
        }
        assert forall|k2: AgentId|
            k2 != k && pre.has(k2) implies post.rec_of(k2) == pre.rec_of(k2) by {
            let j = pre.idx_of(k2);
            assert(pre.recs()[j].id == k2);
            assert(j != i);
            assert(post.recs()[j] == pre.recs()[j]);
            pre.lemma_at(j);
            post.lemma_at(j);
        }
    }

    /// After an upsert that created a fresh record under `k`, that key
    /// reads the fresh record and every other key reads unchanged.
    pub proof fn lemma_inserted_frame(pre: Dao, post: Dao, k: AgentId, a: crate::protocol::Agent)
        requires
            pre.inv(),
            post.inv(),
            !pre.has(k),
            inserted_fresh(pre.recs(), post.recs(), k, a),
        ensures
            post.has(k),
            post.rec_of(k).id == k,
            post.rec_of(k).agent == a,
            post.rec_of(k).profile is None,
            post.rec_of(k).keys@.len() == 0,
            forall|k2: AgentId| k2 != k ==> post.has(k2) == pre.has(k2),
            forall|k2: AgentId|
                k2 != k && pre.has(k2) ==> post.rec_of(k2) == pre.rec_of(k2),
    {
        let n = pre.recs().len() as int;
        assert(post.recs()[n].id == k);
        post.lemma_at(n);
        assert forall|k2: AgentId| k2 != k implies post.has(k2) == pre.has(k2) by {
            if pre.has(k2) {
                let j = pre.idx_of(k2);
                assert(pre.recs()[j].id == k2);
                assert(post.recs()[j] == pre.recs()[j]);
                assert(post.has(k2));
            }
            if post.has(k2) {
                let j = post.idx_of(k2);
                assert(post.recs()[j].id == k2);
                assert(j != n);
                assert(pre.recs()[j] == post.recs()[j]);
                assert(pre.has(k2));
            }
        }
        assert forall|k2: AgentId|
            k2 != k && pre.has(k2) implies post.rec_of(k2) == pre.rec_of(k2) by {
            let j = pre.idx_of(k2);
            assert(pre.recs()[j].id == k2);
            assert(post.recs()[j] == pre.recs()[j]);
            pre.lemma_at(j);
            post.lemma_at(j);
        }
    }

    /// A fresh, empty collection.
    pub fn new() -> (d: Dao)
        ensures
            d.inv(),
            d.recs().len() == 0,
    {
        Dao { records: Vec::new() }
    }

    /// Liveness check. The in-memory engine is always reachable; a
    /// transport-backed engine would fail here on a connection error.
    pub fn ping(&self) -> (r: Result<(), StoreError>)
        ensures
            r is Ok,
    {
        Ok(())
    }

    /// Idempotently declares the uniqueness constraint on the key field.
    /// For this engine the constraint is intrinsic — `inv` holds of
    /// every reachable collection — so there is nothing left to create.
    pub fn ensure_unique_index(&self) -> (r: Result<(), StoreError>)
        requires
            self.inv(),
        ensures
            r is Ok,
    {
        Ok(())
    }

    /// The number of stored records.
    pub fn len(&self) -> (n: usize)
        ensures
            n == self.recs().len(),
    {
        self.records.len()
    }

    /// The record at storage index `i`, for a full scan.
    pub fn record_at(&self, i: usize) -> (r: &AgentRecord)
        requires
            i < self.recs().len(),
        ensures
            *r == self.recs()[i as int],
    {
        &self.records[i]
    }

    /// The storage index of the record holding `k`, if any.
    pub fn find_index(&self, k: AgentId) -> (r: Option<usize>)
        requires
            self.inv(),
        ensures
            match r {
                Some(i) => i < self.recs().len() && self.recs()[i as int].id == k && self.has(k)
                    && self.idx_of(k) == i,
                None => !self.has(k),
            },
    {
        let mut i: usize = 0;
        while i < self.records.len()
            invariant
                self.inv(),
                i <= self.recs().len(),
                forall|m: int| 0 <= m < i ==> self.recs()[m].id != k,
            decreases self.recs().len() - i,
        {
            if self.records[i].id.0 == k.0 {
                proof {
                    self.lemma_at(i as int);
                }
                return Some(i);
            }
            i = i + 1;
        }
        None
    }

    /// Point lookup by primary key: the record holding `k`, or `None`
    /// if absent — never an error for a missing key.
    pub fn get_by_id(&self, k: AgentId) -> (r: Option<&AgentRecord>)
        requires
            self.inv(),
        ensures
            match r {
                Some(rec) => self.has(k) && *rec == self.rec_of(k),
                None => !self.has(k),
            },
    {
        match self.find_index(k) {
            Some(i) => Some(&self.records[i]),
            None => None,
        }
    }

    /// Physically inserts a record. The uniqueness index rejects a
    /// second record under an existing key with a conflict, leaving the
    /// collection unchanged; otherwise the record is appended.
    pub fn insert(&mut self, r: AgentRecord) -> (res: Result<(), StoreError>)
        requires
            old(self).inv(),
        ensures
            final(self).inv(),
            res == (if old(self).has(r.id) {
                Err::<(), StoreError>(StoreError::Conflict)
            } else {
                Ok::<(), StoreError>(())
            }),
            old(self).has(r.id) ==> *final(self) == *old(self),
            !old(self).has(r.id) ==> final(self).recs() == old(self).recs().push(r),
    {
        match self.find_index(r.id) {
            Some(_) => Err(StoreError::Conflict),
            None => {
                let ghost pre = self.recs();
                let ghost rid = r.id;
                self.records.push(r);
                proof {
                    assert forall|i: int, j: int|
                        0 <= i < j < self.recs().len() implies self.recs()[i].id != self.recs()[
                        j].id by {
                        if j < pre.len() {
                        } else {
                            assert(self.recs()[j].id == rid);
                            assert(self.recs()[i] == pre[i]);
                        }
                    }
                }
                Ok(())
            },
        }
    }

    /// Applies a partial update to the record holding `k`. A missing key
    /// is a silent no-op — zero records modified is not an error.
    pub fn modify_by_id(&mut self, k: AgentId, u: RecordUpdate) -> (res: Result<(), StoreError>)
        requires
            old(self).inv(),
        ensures
            final(self).inv(),
            res is Ok,
            !old(self).has(k) ==> *final(self) == *old(self),
            old(self).has(k) ==> updated_at(
                old(self).recs(),
                final(self).recs(),
                old(self).idx_of(k),
                u,
            ),
    {
        match self.find_index(k) {
            None => Ok(()),
            Some(i) => {
                let ghost pre = self.recs();
                let r = self.records.remove(i);
                let r2 = crate::updates::apply(r, u);
                self.records.insert(i, r2);
                proof {
                    assert(self.recs() =~= pre.update(i as int, self.recs()[i as int]));
                    assert(updated_at(pre, self.recs(), i as int, u));
                    assert forall|a: int, b: int|
                        0 <= a < b < self.recs().len() implies self.recs()[a].id != self.recs()[
                        b].id by {
                        assert(self.recs()[a].id == pre[a].id);
                        assert(self.recs()[b].id == pre[b].id);
                    }
                }
                Ok(())
            },
        }
    }

    /// Upsert-by-key: like `modify_by_id`, but when no record holds `k`
    /// a fresh record is created carrying only the key and the fields
    /// the update names. Because the identity payload is mandatory on
    /// every record, only an identity-setting update can create one.
    pub fn modisert_by_id(&mut self, k: AgentId, u: RecordUpdate) -> (res: Result<(), StoreError>)
        requires
            old(self).inv(),
            u is SetAgent,
        ensures
            final(self).inv(),
            res is Ok,
            old(self).has(k) ==> updated_at(
                old(self).recs(),
                final(self).recs(),
                old(self).idx_of(k),
                u,
            ),
            !old(self).has(k) ==> inserted_fresh(
                old(self).recs(),
                final(self).recs(),
                k,
                crate::updates::set_agent_payload(u),
            ),
    {
        match self.find_index(k) {
            Some(i) => {
                let ghost pre = self.recs();
                let r = self.records.remove(i);
                let r2 = crate::updates::apply(r, u);
                self.records.insert(i, r2);
                proof {
                    assert(self.recs() =~= pre.update(i as int, self.recs()[i as int]));
                    assert(updated_at(pre, self.recs(), i as int, u));
                    assert forall|a: int, b: int|
                        0 <= a < b < self.recs().len() implies self.recs()[a].id != self.recs()[
                        b].id by {
                        assert(self.recs()[a].id == pre[a].id);
                        assert(self.recs()[b].id == pre[b].id);
                    }
                }
                Ok(())
            },
            None => {
                let a = match u {
                    RecordUpdate::SetAgent(a) => a,
                    _ => vstd::pervasive::unreached(),
                };
                let ghost pre = self.recs();
                self.records.push(
                    AgentRecord { id: k, agent: a, profile: None, keys: Vec::new() },
                );
                proof {
                    assert forall|i: int, j: int|
                        0 <= i < j < self.recs().len() implies self.recs()[i].id != self.recs()[
                        j].id by {
                        if j < pre.len() {
                        } else {
                            assert(self.recs()[j].id == k);
                            assert(self.recs()[i] == pre[i]);
                        }
                    }
                }
                Ok(())
            },
        }
    }
}

} // verus!
