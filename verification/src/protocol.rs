//! Domain records of the agent directory: identities, profiles, and
//! signed encryption keys, together with the spec-level projections that
//! the store's contracts are stated over.

use vstd::prelude::*;

verus! {

/// Opaque unique identifier of an agent; the primary key of a record.
#[derive(Clone, Copy, PartialEq, Eq, Structural, Debug, Hash)]
pub struct AgentId(pub u64);

/// Opaque unique identifier of an encryption key within an agent's list.
#[derive(Clone, Copy, PartialEq, Eq, Structural, Debug, Hash)]
pub struct EncryptionKeyId(pub u64);

/// The core identity payload of a record; set at creation and replaced
/// wholesale by later creations (last write wins).
#[derive(Clone, Copy, PartialEq, Eq, Structural, Debug)]
pub struct Agent {
    pub id: AgentId,
    pub verification_key: u64,
}

/// Free-form metadata owned by one agent; absent until first set and
/// replaced wholesale on update.
#[derive(Clone, PartialEq, Debug)]
pub struct Profile {
    pub owner: AgentId,
    pub name: String,
}

impl Profile {
    /// An exact duplicate; unlike a derived clone, its contract
    /// guarantees equality.
    pub fn dup(&self) -> (r: Profile)
        ensures
            r == *self,
    {
        Profile { owner: self.owner, name: self.name.clone() }
    }
}

/// An encryption key signed by its registering agent.
#[derive(Clone, Copy, PartialEq, Eq, Structural, Debug)]
pub struct SignedEncryptionKey {
    pub signer: AgentId,
    pub key: EncryptionKeyId,
    pub body: u64,
}

impl SignedEncryptionKey {
    /// The identifier under which this key is filed.
    pub fn id(&self) -> (r: EncryptionKeyId)
        ensures
            r == self.key,
    {
        self.key
    }
}

/// One element of a record's key list: a key paired with the identifier
/// it is filed under.
#[derive(Clone, Copy, PartialEq, Eq, Structural, Debug)]
pub struct Labelled {
    pub id: EncryptionKeyId,
    pub body: SignedEncryptionKey,
}

/// Pairs a key with its identifier for storage in a record's key list.
pub fn label(id: EncryptionKeyId, body: SignedEncryptionKey) -> (r: Labelled)
    ensures
        r == (Labelled { id, body }),
{
    Labelled { id, body }
}

/// An agent eligible for committee selection: its id and the ids of its
/// registered keys.
#[derive(Clone, PartialEq, Debug)]
pub struct ClerkCandidate {
    pub id: AgentId,
    pub keys: Vec<EncryptionKeyId>,
}

/// The unit of storage: one document per agent, keyed by `id`.
/// `agent` is mandatory; `profile` and `keys` are optional or default
/// to empty.
#[derive(PartialEq, Debug)]
pub struct AgentRecord {
    pub id: AgentId,
    pub agent: Agent,
    pub profile: Option<Profile>,
    pub keys: Vec<Labelled>,
}

impl AgentRecord {
    /// The identifiers of the keys registered on this record, in
    /// registration order.
    pub open spec fn key_ids(self) -> Seq<EncryptionKeyId> {
        self.keys@.map_values(|l: Labelled| l.id)
    }

    /// Whether an entry filed under `kid` is present in this record's
    /// key list.
    pub open spec fn has_key(self, kid: EncryptionKeyId) -> bool {
        exists|i: int| 0 <= i < self.keys@.len() && self.keys@[i].id == kid
    }

    /// Well-formedness of a stored record: the identity payload carries
    /// the record's own id, each key is filed under its own identifier
    /// and signed by this record's agent, and key identifiers are unique
    /// within the list.
    pub open spec fn wf(self) -> bool {
        &&& self.agent.id == self.id
        &&& forall|i: int|
            0 <= i < self.keys@.len() ==> (#[trigger] self.keys@[i]).body.key == self.keys@[i].id
                && self.keys@[i].body.signer == self.id
        &&& forall|i: int, j: int|
            0 <= i < j < self.keys@.len() ==> #[trigger] self.keys@[i].id
                != #[trigger] self.keys@[j].id
    }
}

} // verus!
