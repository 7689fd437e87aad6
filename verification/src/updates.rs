//! The update vocabulary of the collection: every mutation is a partial
//! update scoped to one record — replace one top-level field (field-set),
//! append one element to the key list (list-push), or remove every key
//! list element filed under a given identifier (list-pull).

use vstd::prelude::*;
use crate::protocol::{Agent, AgentRecord, EncryptionKeyId, Labelled, Profile};

verus! {

/// A partial update applied to a single record.
#[derive(Debug)]
pub enum RecordUpdate {
    /// Field-set: replace the identity payload.
    SetAgent(Agent),
    /// Field-set: replace the profile wholesale.
    SetProfile(Profile),
    /// List-pull: remove every key list element filed under this id.
    PullKey(EncryptionKeyId),
    /// List-push: append one element to the key list.
    PushKey(Labelled),
}

/// The identity payload an identity-setting update names; meaningful
/// only when `u is SetAgent`.
pub open spec fn set_agent_payload(u: RecordUpdate) -> Agent {
    match u {
        RecordUpdate::SetAgent(a) => a,
        _ => vstd::pervasive::arbitrary(),
    }
}

/// The identity payload after `u` is applied to `r`.
pub open spec fn applied_agent(r: AgentRecord, u: RecordUpdate) -> Agent {
    match u {
        RecordUpdate::SetAgent(a) => a,
        _ => r.agent,
    }
}

/// The profile after `u` is applied to `r`.
pub open spec fn applied_profile(r: AgentRecord, u: RecordUpdate) -> Option<Profile> {
    match u {
        RecordUpdate::SetProfile(p) => Some(p),
        _ => r.profile,
    }
}

/// The key list after `u` is applied to `r`.
pub open spec fn applied_keys(r: AgentRecord, u: RecordUpdate) -> Seq<Labelled> {
    match u {
        RecordUpdate::PullKey(k) => r.keys@.filter(|l: Labelled| l.id != k),
        RecordUpdate::PushKey(l) => r.keys@.push(l),
        _ => r.keys@,
    }
}

/// `filter` unfolded over a `push`, used to run the list-pull loop
/// front to back.
pub proof fn lemma_filter_push<A>(s: Seq<A>, pred: spec_fn(A) -> bool, x: A)
    ensures
        s.push(x).filter(pred) == if pred(x) {
            s.filter(pred).push(x)
        } else {
            s.filter(pred)
        },
    decreases s.len(),
{
    reveal(Seq::filter);
    assert(s.push(x).drop_last() =~= s);
}

/// A list-pull removes nothing but matching elements: every survivor
/// stood somewhere in the original list, and distinct identifiers stay
/// distinct.
pub proof fn lemma_filter_keeps_distinct_ids(s: Seq<Labelled>, pred: spec_fn(Labelled) -> bool)
    requires
        forall|i: int, j: int| 0 <= i < j < s.len() ==> s[i].id != s[j].id,
    ensures
        forall|i: int|
            0 <= i < s.filter(pred).len() ==> exists|j: int|
                0 <= j < s.len() && #[trigger] s.filter(pred)[i] == s[j],
        forall|i: int, j: int|
            0 <= i < j < s.filter(pred).len() ==> s.filter(pred)[i].id != s.filter(pred)[j].id,
    decreases s.len(),
{
    reveal(Seq::filter);
    if s.len() > 0 {
        let d = s.drop_last();
        lemma_filter_keeps_distinct_ids(d, pred);
        let f = s.filter(pred);
        let fd = d.filter(pred);
        assert forall|i: int|
            0 <= i < f.len() implies exists|j: int|
                0 <= j < s.len() && #[trigger] f[i] == s[j] by {
            if i < fd.len() {
                let j = choose|j: int| 0 <= j < d.len() && fd[i] == d[j];
                assert(f[i] == s[j]);
            } else {
                assert(f[i] == s[s.len() - 1]);
            }
        }
        assert forall|i: int, j: int|
            0 <= i < j < f.len() implies f[i].id != f[j].id by {
            if j < fd.len() {
            } else {
                assert(f[j] == s.last());
                let m = choose|m: int| 0 <= m < d.len() && fd[i] == d[m];
                assert(s[m].id != s[s.len() - 1].id);
            }
        }
    }
}

/// A list all of whose elements a predicate accepts filters to itself.
pub proof fn lemma_filter_all_accepted(s: Seq<Labelled>, pred: spec_fn(Labelled) -> bool)
    requires
        forall|i: int| 0 <= i < s.len() ==> pred(s[i]),
    ensures
        s.filter(pred) == s,
    decreases s.len(),
{
    reveal(Seq::filter);
    if s.len() > 0 {
        let d = s.drop_last();
        lemma_filter_all_accepted(d, pred);
        assert(d.push(s.last()) =~= s);
    }
}

/// A list all of whose elements a predicate rejects filters to the
/// empty list.
pub proof fn lemma_filter_all_rejected(s: Seq<Labelled>, pred: spec_fn(Labelled) -> bool)
    requires
        forall|i: int| 0 <= i < s.len() ==> !pred(s[i]),
    ensures
        s.filter(pred).len() == 0,
    decreases s.len(),
{
    reveal(Seq::filter);
    if s.len() > 0 {
        lemma_filter_all_rejected(s.drop_last(), pred);
    }
}

/// Applies one partial update to an owned record, leaving the untouched
/// fields exactly as they were.
pub fn apply(r: AgentRecord, u: RecordUpdate) -> (r2: AgentRecord)
    ensures
        r2.id == r.id,
        r2.agent == applied_agent(r, u),
        r2.profile == applied_profile(r, u),
        r2.keys@ == applied_keys(r, u),
{
    match u {
        RecordUpdate::SetAgent(a) => AgentRecord {
            id: r.id,
            agent: a,
            profile: r.profile,
            keys: r.keys,
        },
        RecordUpdate::SetProfile(p) => AgentRecord {
            id: r.id,
            agent: r.agent,
            profile: Some(p),
            keys: r.keys,
        },
        RecordUpdate::PullKey(k) => {
            let AgentRecord { id, agent, profile, keys } = r;
            let mut kept: Vec<Labelled> = Vec::new();
            let mut i: usize = 0;
            while i < keys.len()
                invariant
                    i <= keys.len(),
                    kept@ == keys@.take(i as int).filter(|l: Labelled| l.id != k),
                decreases keys.len() - i,
            {
                proof {
                    assert(keys@.take(i + 1) =~= keys@.take(i as int).push(keys@[i as int]));
                    lemma_filter_push(keys@.take(i as int), |l: Labelled| l.id != k, keys@[i as int]);
                }
                if keys[i].id.0 != k.0 {
                    kept.push(keys[i]);
                }
                i = i + 1;
            }
            proof {
                assert(keys@.take(keys@.len() as int) =~= keys@);
            }
            AgentRecord { id, agent, profile, keys: kept }
        },
        RecordUpdate::PushKey(l) => {
            let AgentRecord { id, agent, profile, mut keys } = r;
            keys.push(l);
            AgentRecord { id, agent, profile, keys }
        },
    }
}

} // verus!
