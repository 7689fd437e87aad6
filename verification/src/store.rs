//! The agent record store: composes the collection into the directory's
//! access patterns — create-or-replace of an identity, profile upsert,
//! key registration by replace-under-id, global key lookup, and the
//! whole-collection committee projection.

use vstd::prelude::*;
use crate::dao::Dao;
use crate::errors::StoreError;
use crate::protocol::{
    label, Agent, AgentId, AgentRecord, ClerkCandidate, EncryptionKeyId, Labelled, Profile,
    SignedEncryptionKey,
};
use crate::updates::{
    lemma_filter_all_accepted, lemma_filter_all_rejected, lemma_filter_keeps_distinct_ids,
    RecordUpdate,
};

verus! {

broadcast use vstd::seq_lib::group_filter_ensures;

/// The directory store: one collection of agent records behind the
/// uniqueness index, never deleting — only creating, replacing and
/// appending.
pub struct AgentsStore {
    dao: Dao,
}

impl AgentsStore {
    /// The stored records, in storage order.
    pub closed spec fn recs(self) -> Seq<AgentRecord> {
        self.dao.recs()
    }

    /// Every reachable store keeps distinct primary keys and
    /// well-formed records.
    pub closed spec fn inv(self) -> bool {
        &&& self.dao.inv()
        &&& forall|i: int| 0 <= i < self.recs().len() ==> (#[trigger] self.recs()[i]).wf()
    }

    /// Whether a record exists under `k`.
    pub closed spec fn has(self, k: AgentId) -> bool {
        self.dao.has(k)
    }

    /// The identity payload stored under `k`, if a record exists.
    pub closed spec fn agent_of(self, k: AgentId) -> Option<Agent> {
        if self.dao.has(k) {
            Some(self.dao.rec_of(k).agent)
        } else {
            None
        }
    }

    /// The profile stored under `k`: `None` both when no record exists
    /// and when the record's profile was never set.
    pub closed spec fn profile_of(self, k: AgentId) -> Option<Profile> {
        if self.dao.has(k) {
            self.dao.rec_of(k).profile
        } else {
            None
        }
    }

    /// The key list stored under `k`; empty when no record exists.
    pub closed spec fn keys_of(self, k: AgentId) -> Seq<Labelled> {
        if self.dao.has(k) {
            self.dao.rec_of(k).keys@
        } else {
            Seq::empty()
        }
    }

    /// Whether the record under `owner` files a key under `kid`.
    pub open spec fn holds_key(self, owner: AgentId, kid: EncryptionKeyId) -> bool {
        exists|j: int| 0 <= j < self.keys_of(owner).len() && self.keys_of(owner)[j].id == kid
    }

    /// Whether any record, whoever its signer, files a key under `kid`.
    pub open spec fn key_present(self, kid: EncryptionKeyId) -> bool {
        exists|k: AgentId| self.holds_key(k, kid)
    }

    /// Whether some record files `b` under `kid`.
    pub open spec fn key_bound_to(self, kid: EncryptionKeyId, b: SignedEncryptionKey) -> bool {
        exists|k: AgentId, j: int|
            0 <= j < self.keys_of(k).len() && self.keys_of(k)[j] == (Labelled { id: kid, body: b })
    }

    /// What creating an agent leaves of the store: the identity under
    /// `a.id` is exactly `a` (last write wins), the record's profile and
    /// keys — or their absence — are untouched, and every other key of
    /// the store reads unchanged.
    pub open spec fn create_agent_step(pre: AgentsStore, post: AgentsStore, a: Agent) -> bool {
        &&& post.has(a.id)
        &&& post.agent_of(a.id) == Some(a)
        &&& post.profile_of(a.id) == pre.profile_of(a.id)
        &&& post.keys_of(a.id) == pre.keys_of(a.id)
        &&& forall|k: AgentId| k != a.id ==> post.has(k) == pre.has(k)
        &&& forall|k: AgentId| k != a.id ==> post.agent_of(k) == pre.agent_of(k)
        &&& forall|k: AgentId| k != a.id ==> post.profile_of(k) == pre.profile_of(k)
        &&& forall|k: AgentId| k != a.id ==> post.keys_of(k) == pre.keys_of(k)
    }

    /// What a profile upsert leaves of the store: a no-op when no record
    /// exists under the owner; otherwise the owner's profile is replaced
    /// wholesale and nothing else moves.
    pub open spec fn upsert_profile_step(pre: AgentsStore, post: AgentsStore, p: Profile) -> bool {
        &&& (!pre.has(p.owner) ==> post == pre)
        &&& (pre.has(p.owner) ==> post.profile_of(p.owner) == Some(p))
        &&& (pre.has(p.owner) ==> forall|k: AgentId| post.has(k) == pre.has(k))
        &&& (pre.has(p.owner) ==> forall|k: AgentId| post.agent_of(k) == pre.agent_of(k))
        &&& (pre.has(p.owner) ==> forall|k: AgentId| post.keys_of(k) == pre.keys_of(k))
        &&& (pre.has(p.owner) ==> forall|k: AgentId|
            k != p.owner ==> post.profile_of(k) == pre.profile_of(k))
    }

    /// What registering a key leaves of the store: a no-op when no
    /// record exists under the signer; otherwise every element filed
    /// under the key's id is pulled from the signer's list and the new
    /// pair is pushed at the end, and nothing else moves.
    pub open spec fn create_key_step(
        pre: AgentsStore,
        post: AgentsStore,
        key: SignedEncryptionKey,
    ) -> bool {
        &&& (!pre.has(key.signer) ==> post == pre)
        &&& (pre.has(key.signer) ==> post.keys_of(key.signer) == pre.keys_of(key.signer).filter(
            |l: Labelled| l.id != key.key,
        ).push(Labelled { id: key.key, body: key }))
        &&& (pre.has(key.signer) ==> forall|k: AgentId| post.has(k) == pre.has(k))
        &&& (pre.has(key.signer) ==> forall|k: AgentId| post.agent_of(k) == pre.agent_of(k))
        &&& (pre.has(key.signer) ==> forall|k: AgentId| post.profile_of(k) == pre.profile_of(k))
        &&& (pre.has(key.signer) ==> forall|k: AgentId|
            k != key.signer ==> post.keys_of(k) == pre.keys_of(k))
    }

    /// What the committee projection returns: one candidate per stored
    /// record, in storage order, carrying the record's id and the ids of
    /// its registered keys.
    pub open spec fn committee_post(s: AgentsStore, cs: Seq<ClerkCandidate>) -> bool {
        &&& cs.len() == s.recs().len()
        &&& forall|i: int|
            0 <= i < cs.len() ==> (#[trigger] cs[i]).id == s.recs()[i].id && cs[i].keys@
                == s.recs()[i].key_ids()
    }

    /// Projections of keys other than the one a mutation touched read
    /// unchanged.
    proof fn lemma_untouched(pre: AgentsStore, post: AgentsStore, k: AgentId)
        requires
            forall|k2: AgentId| k2 != k ==> post.dao.has(k2) == pre.dao.has(k2),
            forall|k2: AgentId|
                k2 != k && pre.dao.has(k2) ==> post.dao.rec_of(k2) == pre.dao.rec_of(k2),
        ensures
            forall|k2: AgentId| k2 != k ==> post.has(k2) == pre.has(k2),
            forall|k2: AgentId| k2 != k ==> post.agent_of(k2) == pre.agent_of(k2),
            forall|k2: AgentId| k2 != k ==> post.profile_of(k2) == pre.profile_of(k2),
            forall|k2: AgentId| k2 != k ==> post.keys_of(k2) == pre.keys_of(k2),
    {
    }

    /// An id with no record reads absent in every projection.
    pub proof fn lemma_absent(self, k: AgentId)
        requires
            !self.has(k),
        ensures
            self.agent_of(k) is None,
            self.profile_of(k) is None,
            self.keys_of(k) == Seq::<Labelled>::empty(),
    {
    }

    /// Opens the store over a fresh collection, declaring the uniqueness
    /// index on the key field as the one bootstrap side effect.
    pub fn new() -> (r: Result<AgentsStore, StoreError>)
        ensures
            r is Ok,
            r matches Ok(s) ==> s.inv() && s.recs().len() == 0 && (forall|k: AgentId| !s.has(k)),
    {
        let dao = Dao::new();
        match dao.ensure_unique_index() {
            Ok(()) => Ok(AgentsStore { dao }),
            Err(e) => Err(e),
        }
    }

    /// Liveness check against the backing collection.
    pub fn ping(&self) -> (r: Result<(), StoreError>)
        ensures
            r is Ok,
    {
        self.dao.ping()
    }

    /// Upserts the record keyed by `agent.id`, setting only the identity
    /// payload; calling again for the same id overwrites it wholesale.
    pub fn create_agent(&mut self, agent: &Agent) -> (res: Result<(), StoreError>)
        requires
            old(self).inv(),
        ensures
            final(self).inv(),
            res is Ok,
            Self::create_agent_step(*old(self), *final(self), *agent),
    {
        let ghost pre = *self;
        let res = self.dao.modisert_by_id(agent.id, RecordUpdate::SetAgent(*agent));
        proof {
            let k = agent.id;
            let ghost gu = RecordUpdate::SetAgent(*agent);
            if pre.dao.has(k) {
                Dao::lemma_updated_frame(pre.dao, self.dao, k, gu);
                Self::lemma_untouched(pre, *self, k);
                let i0 = pre.dao.idx_of(k);
                assert(pre.recs()[i0].wf());
                assert forall|i: int|
                    0 <= i < self.recs().len() implies (#[trigger] self.recs()[i]).wf() by {
                    if i != i0 {
                        assert(self.recs()[i] == pre.recs()[i]);
                    }
                }
            } else {
                Dao::lemma_inserted_frame(pre.dao, self.dao, k, *agent);
                Self::lemma_untouched(pre, *self, k);
                let n = pre.recs().len() as int;
                assert forall|i: int|
                    0 <= i < self.recs().len() implies (#[trigger] self.recs()[i]).wf() by {
                    if i < n {
                        assert(self.recs()[i] == pre.recs()[i]);
                    }
                }
                assert(self.keys_of(k) =~= pre.keys_of(k));
            }
        }
        res
    }

    /// The identity stored under `id`, or `None` when no record exists.
    pub fn get_agent(&self, id: AgentId) -> (r: Option<Agent>)
        requires
            self.inv(),
        ensures
            r == self.agent_of(id),
    {
        match self.dao.get_by_id(id) {
            Some(rec) => Some(rec.agent),
            None => None,
        }
    }

    /// Replaces the profile of the record keyed by `profile.owner`.
    /// Setting a profile for an id with no record is a silent no-op,
    /// not an error.
    pub fn upsert_profile(&mut self, profile: &Profile) -> (res: Result<(), StoreError>)
        requires
            old(self).inv(),
        ensures
            final(self).inv(),
            res is Ok,
            Self::upsert_profile_step(*old(self), *final(self), *profile),
    {
        let ghost pre = *self;
        let p2 = profile.dup();
        let ghost gp = p2;
        let res = self.dao.modify_by_id(profile.owner, RecordUpdate::SetProfile(p2));
        proof {
            let k = profile.owner;
            let ghost gu = RecordUpdate::SetProfile(gp);
            if pre.dao.has(k) {
                Dao::lemma_updated_frame(pre.dao, self.dao, k, gu);
                Self::lemma_untouched(pre, *self, k);
                let i0 = pre.dao.idx_of(k);
                assert(pre.recs()[i0].wf());
                assert forall|i: int|
                    0 <= i < self.recs().len() implies (#[trigger] self.recs()[i]).wf() by {
                    if i != i0 {
                        assert(self.recs()[i] == pre.recs()[i]);
                    }
                }
            }
        }
        res
    }

    /// The profile stored under `owner`: `None` when no record exists
    /// or the profile was never set — the two cases are not
    /// distinguished.
    pub fn get_profile(&self, owner: AgentId) -> (r: Option<Profile>)
        requires
            self.inv(),
        ensures
            r == self.profile_of(owner),
    {
        match self.dao.get_by_id(owner) {
            Some(rec) => match &rec.profile {
                Some(p) => Some(p.dup()),
                None => None,
            },
            None => None,
        }
    }

    /// Registers a key for its signer in two steps: pull every list
    /// element filed under the key's id, then push the new pair — the
    /// newest registration wins, and the signer's list keeps at most one
    /// entry per key id. A signer with no record is a silent no-op.
    pub fn create_encryption_key(&mut self, key: &SignedEncryptionKey) -> (res: Result<
        (),
        StoreError,
    >)
        requires
            old(self).inv(),
        ensures
            final(self).inv(),
            res is Ok,
            Self::create_key_step(*old(self), *final(self), *key),
    {
        let kid = key.id();
        let ghost pre = *self;
        let r1 = self.dao.modify_by_id(key.signer, RecordUpdate::PullKey(kid));
        proof {
            let k = key.signer;
            let ghost gu = RecordUpdate::PullKey(kid);
            if pre.dao.has(k) {
                Dao::lemma_updated_frame(pre.dao, self.dao, k, gu);
                Self::lemma_untouched(pre, *self, k);
                let i0 = pre.dao.idx_of(k);
                let r0 = pre.recs()[i0];
                assert(r0.wf());
                lemma_filter_keeps_distinct_ids(r0.keys@, |l: Labelled| l.id != kid);
                assert forall|i: int|
                    0 <= i < self.recs().len() implies (#[trigger] self.recs()[i]).wf() by {
                    if i != i0 {
                        assert(self.recs()[i] == pre.recs()[i]);
                    } else {
                        let fk = self.recs()[i0].keys@;
                        assert forall|t: int|
                            0 <= t < fk.len() implies (#[trigger] fk[t]).body.key == fk[t].id
                                && fk[t].body.signer == self.recs()[i0].id by {
                            let j = choose|j: int| 0 <= j < r0.keys@.len() && fk[t] == r0.keys@[j];
                            assert(r0.keys@[j].body.key == r0.keys@[j].id);
                        }
                    }
                }
            }
        }
        if r1.is_err() {
            return r1;
        }
        let ghost mid = *self;
        let res = self.dao.modify_by_id(key.signer, RecordUpdate::PushKey(label(kid, *key)));
        proof {
            let k = key.signer;
            let ghost l = Labelled { id: kid, body: *key };
            let ghost gu = RecordUpdate::PushKey(l);
            if pre.dao.has(k) {
                assert(mid.dao.has(k));
                Dao::lemma_updated_frame(mid.dao, self.dao, k, gu);
                Self::lemma_untouched(mid, *self, k);
                let i0 = mid.dao.idx_of(k);
                let rm = mid.recs()[i0];
                assert(rm.wf());
                assert(rm == mid.dao.rec_of(k));
                assert(rm.id == k);
                assert forall|i: int|
                    0 <= i < self.recs().len() implies (#[trigger] self.recs()[i]).wf() by {
                    if i != i0 {
                        assert(self.recs()[i] == mid.recs()[i]);
                    } else {
                        let nk = self.recs()[i0].keys@;
                        assert(nk == rm.keys@.push(l));
                        assert(mid.keys_of(k) == pre.keys_of(k).filter(
                            |l2: Labelled| l2.id != kid,
                        ));
                        assert forall|t: int, u: int| 0 <= t < u < nk.len() implies nk[t].id
                            != nk[u].id by {
                            if u == nk.len() - 1 {
                                assert(nk[t] == rm.keys@[t]);
                                assert(rm.keys@[t].id != kid);
                            }
                        }
                    }
                }
                assert(self.keys_of(k) == pre.keys_of(k).filter(
                    |l2: Labelled| l2.id != key.key,
                ).push(Labelled { id: key.key, body: *key }));
            } else {
                assert(*self == pre);
            }
        }
        res
    }

    /// Looks a key up by its id across the whole collection, whichever
    /// signer registered it, and returns its payload; `None` when no
    /// record files a key under `kid`.
    pub fn get_encryption_key(&self, kid: EncryptionKeyId) -> (r: Option<SignedEncryptionKey>)
        requires
            self.inv(),
        ensures
            r is None <==> !self.key_present(kid),
            r matches Some(b) ==> self.key_bound_to(kid, b) && b.key == kid,
    {
        let n = self.dao.len();
        let mut i: usize = 0;
        while i < n
            invariant
                self.inv(),
                n == self.recs().len(),
                i <= n,
                forall|m: int| 0 <= m < i ==> !(#[trigger] self.recs()[m]).has_key(kid),
            decreases n - i,
        {
            let rec = self.dao.record_at(i);
            let klen = rec.keys.len();
            let mut j: usize = 0;
            while j < klen
                invariant
                    self.inv(),
                    n == self.recs().len(),
                    i < n,
                    *rec == self.recs()[i as int],
                    klen == rec.keys@.len(),
                    j <= klen,
                    forall|t: int| 0 <= t < j ==> (#[trigger] rec.keys@[t]).id != kid,
                decreases klen - j,
            {
                if rec.keys[j].id.0 == kid.0 {
                    let b = rec.keys[j].body;
                    proof {
                        self.dao.lemma_at(i as int);
                        let k = rec.id;
                        assert(self.keys_of(k) == rec.keys@);
                        assert(self.keys_of(k)[j as int] == (Labelled { id: kid, body: b }));
                        assert(self.key_bound_to(kid, b));
                        assert(self.holds_key(k, kid));
                        assert(self.key_present(kid));
                        assert(rec.wf());
                    }
                    return Some(b);
                }
                j = j + 1;
            }
            i = i + 1;
        }
        proof {
            assert forall|k: AgentId| !self.holds_key(k, kid) by {
                if self.dao.has(k) {
                    let m = self.dao.idx_of(k);
                    assert(!self.recs()[m].has_key(kid));
                    assert(self.keys_of(k) == self.recs()[m].keys@);
                } else {
                    assert(self.keys_of(k) =~= Seq::<Labelled>::empty());
                }
            }
        }
        None
    }

    /// Scans the whole collection and maps every record to a committee
    /// candidate carrying its id and registered key ids; the order is
    /// the engine's storage order, which callers must not rely on.
    pub fn suggest_committee(&self) -> (r: Result<Vec<ClerkCandidate>, StoreError>)
        requires
            self.inv(),
        ensures
            r is Ok,
            r matches Ok(cs) ==> Self::committee_post(*self, cs@),
    {
        let mut out: Vec<ClerkCandidate> = Vec::new();
        let n = self.dao.len();
        let mut i: usize = 0;
        while i < n
            invariant
                self.inv(),
                n == self.recs().len(),
                i <= n,
                out@.len() == i,
                forall|m: int|
                    0 <= m < i ==> (#[trigger] out@[m]).id == self.recs()[m].id && out@[m].keys@
                        == self.recs()[m].key_ids(),
            decreases n - i,
        {
            let rec = self.dao.record_at(i);
            let klen = rec.keys.len();
            let mut ids: Vec<EncryptionKeyId> = Vec::new();
            let mut j: usize = 0;
            while j < klen
                invariant
                    *rec == self.recs()[i as int],
                    i < n,
                    n == self.recs().len(),
                    klen == rec.keys@.len(),
                    j <= klen,
                    ids@ == rec.keys@.take(j as int).map_values(|l: Labelled| l.id),
                decreases klen - j,
            {
                ids.push(rec.keys[j].id);
                proof {
                    assert(rec.keys@.take(j + 1) =~= rec.keys@.take(j as int).push(
                        rec.keys@[j as int],
                    ));
                    assert(rec.keys@.take(j + 1).map_values(|l: Labelled| l.id) =~= rec.keys@.take(
                        j as int,
                    ).map_values(|l: Labelled| l.id).push(rec.keys@[j as int].id));
                }
                j = j + 1;
            }
            proof {
                assert(rec.keys@.take(klen as int) =~= rec.keys@);
            }
            out.push(ClerkCandidate { id: rec.id, keys: ids });
            i = i + 1;
        }
        Ok(out)
    }
}

/// Creating an agent and then reading it back yields exactly the
/// payload that was stored, whatever was there before.
pub proof fn law_create_then_read(s0: AgentsStore, s1: AgentsStore, a: Agent)
    requires
        AgentsStore::create_agent_step(s0, s1, a),
    ensures
        s1.agent_of(a.id) == Some(a),
        s1.has(a.id),
{
}

/// Creating twice under one id overwrites: only the latest payload is
/// read back.
pub proof fn law_create_overwrites(
    s0: AgentsStore,
    s1: AgentsStore,
    s2: AgentsStore,
    a1: Agent,
    a2: Agent,
)
    requires
        a2.id == a1.id,
        AgentsStore::create_agent_step(s0, s1, a1),
        AgentsStore::create_agent_step(s1, s2, a2),
    ensures
        s2.agent_of(a1.id) == Some(a2),
{
}

/// A freshly created agent has no profile until one is set.
pub proof fn law_fresh_agent_has_no_profile(s0: AgentsStore, s1: AgentsStore, a: Agent)
    requires
        !s0.has(a.id),
        AgentsStore::create_agent_step(s0, s1, a),
    ensures
        s1.profile_of(a.id) is None,
{
}

/// Setting the profile of an existing agent and reading it back yields
/// exactly the profile that was set.
pub proof fn law_profile_round_trip(s0: AgentsStore, s1: AgentsStore, p: Profile)
    requires
        s0.has(p.owner),
        AgentsStore::upsert_profile_step(s0, s1, p),
    ensures
        s1.profile_of(p.owner) == Some(p),
{
}

/// Setting a profile for an id with no record creates nothing: the
/// store is left exactly as it was, and the id still reads absent.
pub proof fn law_profile_missing_noop(s0: AgentsStore, s1: AgentsStore, p: Profile)
    requires
        !s0.has(p.owner),
        AgentsStore::upsert_profile_step(s0, s1, p),
    ensures
        s1 == s0,
        s1.agent_of(p.owner) is None,
        !s1.has(p.owner),
{
}

/// Registering a key twice under one id for one signer leaves exactly
/// one entry filed under that id in the signer's list, holding the
/// later payload.
pub proof fn law_key_replace(
    s0: AgentsStore,
    s1: AgentsStore,
    s2: AgentsStore,
    k1: SignedEncryptionKey,
    k2: SignedEncryptionKey,
)
    requires
        s0.has(k1.signer),
        k2.signer == k1.signer,
        k2.key == k1.key,
        AgentsStore::create_key_step(s0, s1, k1),
        AgentsStore::create_key_step(s1, s2, k2),
    ensures
        s2.keys_of(k1.signer) == s0.keys_of(k1.signer).filter(|l: Labelled| l.id != k1.key).push(
            Labelled { id: k2.key, body: k2 },
        ),
        s2.keys_of(k1.signer).filter(|l: Labelled| l.id == k1.key) == seq![
            Labelled { id: k2.key, body: k2 },
        ],
{
    let sg = k1.signer;
    let kk = k1.key;
    let p = |l: Labelled| l.id != kk;
    let q = |l: Labelled| l.id == kk;
    let keys0 = s0.keys_of(sg);
    let x = keys0.filter(p);
    let l1 = Labelled { id: k1.key, body: k1 };
    let l2 = Labelled { id: k2.key, body: k2 };
    assert(s1.has(sg));
    assert(s1.keys_of(sg) == x.push(l1));
    crate::updates::lemma_filter_push(x, p, l1);
    lemma_filter_all_accepted(x, p);
    assert(s1.keys_of(sg).filter(p) == x);
    assert(s2.keys_of(sg) == x.push(l2));
    crate::updates::lemma_filter_push(x, q, l2);
    lemma_filter_all_rejected(x, q);
    assert(x.filter(q) =~= Seq::<Labelled>::empty());
    assert(s2.keys_of(sg).filter(q) =~= seq![l2]);
}

/// A key is found by its id alone: whichever signer's record files it,
/// it is visible to the global lookup, with no signer supplied.
pub proof fn law_key_lookup_global(s: AgentsStore, owner: AgentId, kid: EncryptionKeyId)
    requires
        s.holds_key(owner, kid),
    ensures
        s.key_present(kid),
{
}

/// When one signer's list files exactly one entry under `kid` and no
/// other record files `kid` at all, that entry's payload is the only
/// one the global lookup can return.
pub proof fn law_key_unique_binding(
    s: AgentsStore,
    owner: AgentId,
    kid: EncryptionKeyId,
    b: SignedEncryptionKey,
)
    requires
        s.inv(),
        s.has(owner),
        forall|k: AgentId| k != owner ==> !s.holds_key(k, kid),
        s.keys_of(owner).filter(|l: Labelled| l.id == kid) == seq![Labelled { id: kid, body: b }],
    ensures
        s.key_present(kid),
        forall|b2: SignedEncryptionKey| s.key_bound_to(kid, b2) ==> b2 == b,
{
    let q = |l: Labelled| l.id == kid;
    let keys = s.keys_of(owner);
    let f = keys.filter(q);
    assert(f[0] == (Labelled { id: kid, body: b }));
    let i0 = choose|i: int| 0 <= i < s.recs().len() && s.recs()[i].id == owner;
    assert(s.recs()[i0].wf());
    assert(keys == s.recs()[i0].keys@);
    lemma_filter_keeps_distinct_ids(keys, q);
    let j0 = choose|j: int| 0 <= j < keys.len() && f[0] == keys[j];
    assert(keys[j0].id == kid);
    assert(s.holds_key(owner, kid));
    assert forall|b2: SignedEncryptionKey| s.key_bound_to(kid, b2) implies b2 == b by {
        let (k, j): (AgentId, int) = choose|k: AgentId, j: int|
            0 <= j < s.keys_of(k).len() && s.keys_of(k)[j] == (Labelled { id: kid, body: b2 });
        assert(s.holds_key(k, kid));
        assert(k == owner);
        assert(keys.filter(q).contains(keys[j]));
        assert(f.len() == 1);
        assert(f.contains(keys[j]) ==> f[0] == keys[j]);
    }
}

/// The committee projection is complete and duplicate-free: one
/// candidate per stored agent, each carrying exactly the ids of that
/// agent's registered keys, with no candidate repeated.
pub proof fn law_committee_complete(s: AgentsStore, cs: Seq<ClerkCandidate>)
    requires
        s.inv(),
        AgentsStore::committee_post(s, cs),
    ensures
        cs.len() == s.recs().len(),
        forall|i: int, j: int| 0 <= i < j < cs.len() ==> cs[i].id != cs[j].id,
        forall|i: int|
            0 <= i < cs.len() ==> s.has((#[trigger] cs[i]).id) && cs[i].keys@ == s.keys_of(
                cs[i].id,
            ).map_values(|l: Labelled| l.id),
        forall|i: int, t: int, u: int|
            0 <= i < cs.len() && 0 <= t < u < cs[i].keys@.len() ==> cs[i].keys@[t] != cs[i].keys@[u],
{
    assert forall|i: int|
        0 <= i < cs.len() implies s.has((#[trigger] cs[i]).id) && cs[i].keys@ == s.keys_of(
        cs[i].id,
    ).map_values(|l: Labelled| l.id) by {
        s.dao.lemma_at(i);
        assert(s.keys_of(cs[i].id) == s.recs()[i].keys@);
    }
    assert forall|i: int, t: int, u: int|
        0 <= i < cs.len() && 0 <= t < u < cs[i].keys@.len() implies cs[i].keys@[t] != cs[
        i].keys@[u] by {
        assert(s.recs()[i].wf());
        assert(cs[i].keys@[t] == s.recs()[i].keys@[t].id);
        assert(cs[i].keys@[u] == s.recs()[i].keys@[u].id);
    }
}

} // verus!
