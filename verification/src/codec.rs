//! The document codec: schema-on-write conversion between typed records
//! and the engine's semi-structured document representation. Encoding is
//! total for the record types; decoding fails on a missing required
//! field or a wrongly shaped one, and tolerates a declared-optional
//! field being absent entirely (the profile defaults to `None`, the key
//! list to empty).

use vstd::prelude::*;
use crate::errors::StoreError;
use crate::protocol::{
    Agent, AgentId, AgentRecord, EncryptionKeyId, Labelled, Profile, SignedEncryptionKey,
};

verus! {

/// A field path of the document schema.
#[derive(Clone, Copy, PartialEq, Eq, Structural, Debug)]
pub enum FieldName {
    Id,
    Agent,
    Profile,
    Keys,
    VerificationKey,
    Owner,
    Name,
    Signer,
    Key,
    Body,
}

/// A semi-structured value as the engine stores it.
#[derive(Debug)]
pub enum Value {
    U64(u64),
    Text(String),
    List(Vec<Value>),
    Doc(Document),
}

/// A semi-structured document: named fields in write order.
#[derive(Debug)]
pub struct Document {
    pub fields: Vec<(FieldName, Value)>,
}

/// The first value filed under `n`, scanning front to back.
pub open spec fn lookup_field(fs: Seq<(FieldName, Value)>, n: FieldName) -> Option<Value>
    decreases fs.len(),
{
    if fs.len() == 0 {
        None
    } else if fs[0].0 == n {
        Some(fs[0].1)
    } else {
        lookup_field(fs.drop_first(), n)
    }
}

/// What a stored document means as an identity payload.
pub open spec fn parse_agent(d: Document) -> Option<Agent> {
    match lookup_field(d.fields@, FieldName::Id) {
        Some(Value::U64(i)) => match lookup_field(d.fields@, FieldName::VerificationKey) {
            Some(Value::U64(v)) => Some(Agent { id: AgentId(i), verification_key: v }),
            _ => None,
        },
        _ => None,
    }
}

/// What a stored document means as a profile.
pub open spec fn parse_profile(d: Document) -> Option<Profile> {
    match lookup_field(d.fields@, FieldName::Owner) {
        Some(Value::U64(o)) => match lookup_field(d.fields@, FieldName::Name) {
            Some(Value::Text(s)) => Some(Profile { owner: AgentId(o), name: s }),
            _ => None,
        },
        _ => None,
    }
}

/// What a stored document means as a signed encryption key.
pub open spec fn parse_key(d: Document) -> Option<SignedEncryptionKey> {
    match lookup_field(d.fields@, FieldName::Signer) {
        Some(Value::U64(sg)) => match lookup_field(d.fields@, FieldName::Key) {
            Some(Value::U64(kk)) => match lookup_field(d.fields@, FieldName::Body) {
                Some(Value::U64(b)) => Some(
                    SignedEncryptionKey {
                        signer: AgentId(sg),
                        key: EncryptionKeyId(kk),
                        body: b,
                    },
                ),
                _ => None,
            },
            _ => None,
        },
        _ => None,
    }
}

/// What a stored document means as one key list element.
pub open spec fn parse_entry(d: Document) -> Option<Labelled> {
    match lookup_field(d.fields@, FieldName::Id) {
        Some(Value::U64(i)) => match lookup_field(d.fields@, FieldName::Body) {
            Some(Value::Doc(kd)) => match parse_key(kd) {
                Some(b) => Some(Labelled { id: EncryptionKeyId(i), body: b }),
                None => None,
            },
            _ => None,
        },
        _ => None,
    }
}

/// What a stored list of values means as a key list; any wrongly shaped
/// element fails the whole list.
pub open spec fn parse_entries(vs: Seq<Value>) -> Option<Seq<Labelled>>
    decreases vs.len(),
{
    if vs.len() == 0 {
        Some(Seq::empty())
    } else {
        match parse_entries(vs.drop_last()) {
            Some(t) => match vs.last() {
                Value::Doc(d) => match parse_entry(d) {
                    Some(l) => Some(t.push(l)),
                    None => None,
                },
                _ => None,
            },
            None => None,
        }
    }
}

/// The decoded shape of a whole record: what decoding yields, stated
/// over mathematical views of the fields.
pub struct RecordShape {
    pub id: AgentId,
    pub agent: Agent,
    pub profile: Option<Profile>,
    pub keys: Seq<Labelled>,
}

/// The shape a typed record presents.
pub open spec fn abs(r: AgentRecord) -> RecordShape {
    RecordShape { id: r.id, agent: r.agent, profile: r.profile, keys: r.keys@ }
}

/// What a stored document means as a whole record: `id` and `agent` are
/// required, a missing `profile` reads as unset, a missing `keys` list
/// reads as empty.
pub open spec fn parse_record(d: Document) -> Option<RecordShape> {
    match lookup_field(d.fields@, FieldName::Id) {
        Some(Value::U64(i)) => match lookup_field(d.fields@, FieldName::Agent) {
            Some(Value::Doc(ad)) => match parse_agent(ad) {
                Some(a) => {
                    let profile = match lookup_field(d.fields@, FieldName::Profile) {
                        None => Some(Option::<Profile>::None),
                        Some(Value::Doc(pd)) => match parse_profile(pd) {
                            Some(p) => Some(Option::Some(p)),
                            None => None,
                        },
                        Some(_) => None,
                    };
                    let keys = match lookup_field(d.fields@, FieldName::Keys) {
                        None => Some(Seq::<Labelled>::empty()),
                        Some(Value::List(vs)) => parse_entries(vs@),
                        Some(_) => None,
                    };
                    match profile {
                        Some(pr) => match keys {
                            Some(ks) => Some(
                                RecordShape { id: AgentId(i), agent: a, profile: pr, keys: ks },
                            ),
                            None => None,
                        },
                        None => None,
                    }
                },
                None => None,
            },
            _ => None,
        },
        _ => None,
    }
}

impl Document {
    /// The first value filed under `n`, or `None` when the document has
    /// no such field.
    pub fn get(&self, n: FieldName) -> (r: Option<&Value>)
        ensures
            match r {
                Some(v) => lookup_field(self.fields@, n) == Some(*v),
                None => lookup_field(self.fields@, n) is None,
            },
    {
        let mut i: usize = 0;
        proof {
            assert(self.fields@.skip(0) =~= self.fields@);
        }
        while i < self.fields.len()
            invariant
                i <= self.fields@.len(),
                lookup_field(self.fields@, n) == lookup_field(self.fields@.skip(i as int), n),
            decreases self.fields@.len() - i,
        {
            proof {
                assert(self.fields@.skip(i as int).drop_first() =~= self.fields@.skip(i + 1));
                assert(self.fields@.skip(i as int)[0] == self.fields@[i as int]);
            }
            if self.fields[i].0 == n {
                return Some(&self.fields[i].1);
            }
            i = i + 1;
        }
        proof {
            assert(self.fields@.skip(self.fields@.len() as int) =~= Seq::<
                (FieldName, Value),
            >::empty());
        }
        None
    }
}

/// One wrongly shaped element fails the whole key list.
pub proof fn lemma_entries_fail(vs: Seq<Value>, j: int)
    requires
        0 <= j < vs.len(),
        match vs[j] {
            Value::Doc(d) => parse_entry(d) is None,
            _ => true,
        },
    ensures
        parse_entries(vs) is None,
    decreases vs.len(),
{
    if j < vs.len() - 1 {
        lemma_entries_fail(vs.drop_last(), j);
    }
}

/// Encodes an identity payload; the encoded document reads back as
/// exactly the payload written.
pub fn encode_agent(a: &Agent) -> (d: Document)
    ensures
        parse_agent(d) == Some(*a),
{
    let mut fields: Vec<(FieldName, Value)> = Vec::new();
    fields.push((FieldName::Id, Value::U64(a.id.0)));
    fields.push((FieldName::VerificationKey, Value::U64(a.verification_key)));
    let d = Document { fields };
    proof {
        let fs = d.fields@;
        let s1 = fs.drop_first();
        assert(s1[0] == fs[1]);
        assert(lookup_field(s1, FieldName::VerificationKey) == Some(
            Value::U64(a.verification_key),
        ));
        assert(lookup_field(fs, FieldName::Id) == Some(Value::U64(a.id.0)));
    }
    d
}

/// Encodes a profile; the encoded document reads back as exactly the
/// profile written.
pub fn encode_profile(p: &Profile) -> (d: Document)
    ensures
        parse_profile(d) == Some(*p),
{
    let mut fields: Vec<(FieldName, Value)> = Vec::new();
    fields.push((FieldName::Owner, Value::U64(p.owner.0)));
    fields.push((FieldName::Name, Value::Text(p.name.clone())));
    let d = Document { fields };
    proof {
        let fs = d.fields@;
        let s1 = fs.drop_first();
        assert(s1[0] == fs[1]);
        assert(lookup_field(s1, FieldName::Name) == Some(fs[1].1));
        assert(lookup_field(fs, FieldName::Owner) == Some(Value::U64(p.owner.0)));
    }
    d
}

/// Encodes a signed key; the encoded document reads back as exactly
/// the key written.
pub fn encode_signed_key(k: &SignedEncryptionKey) -> (d: Document)
    ensures
        parse_key(d) == Some(*k),
{
    let mut fields: Vec<(FieldName, Value)> = Vec::new();
    fields.push((FieldName::Signer, Value::U64(k.signer.0)));
    fields.push((FieldName::Key, Value::U64(k.key.0)));
    fields.push((FieldName::Body, Value::U64(k.body)));
    let d = Document { fields };
    proof {
        let fs = d.fields@;
        let s1 = fs.drop_first();
        let s2 = s1.drop_first();
        assert(s1[0] == fs[1]);
        assert(s1[1] == fs[2]);
        assert(s2[0] == fs[2]);
        assert(lookup_field(s2, FieldName::Body) == Some(Value::U64(k.body)));
        assert(lookup_field(s1, FieldName::Key) == Some(Value::U64(k.key.0)));
        assert(lookup_field(s1, FieldName::Body) == Some(Value::U64(k.body)));
        assert(lookup_field(fs, FieldName::Signer) == Some(Value::U64(k.signer.0)));
        assert(lookup_field(fs, FieldName::Key) == Some(Value::U64(k.key.0)));
        assert(lookup_field(fs, FieldName::Body) == Some(Value::U64(k.body)));
    }
    d
}

/// Encodes one key list element; the encoded document reads back as
/// exactly the element written.
pub fn encode_entry(l: &Labelled) -> (d: Document)
    ensures
        parse_entry(d) == Some(*l),
{
    let kd = encode_signed_key(&l.body);
    let mut fields: Vec<(FieldName, Value)> = Vec::new();
    fields.push((FieldName::Id, Value::U64(l.id.0)));
    fields.push((FieldName::Body, Value::Doc(kd)));
    let d = Document { fields };
    proof {
        let fs = d.fields@;
        let s1 = fs.drop_first();
        assert(s1[0] == fs[1]);
        assert(lookup_field(s1, FieldName::Body) == Some(fs[1].1));
        assert(lookup_field(fs, FieldName::Id) == Some(Value::U64(l.id.0)));
    }
    d
}

/// Encodes a whole record, writing the optional profile only when set
/// and the key list always; the encoded document reads back as exactly
/// the record written — the write-then-read round trip is lossless.
pub fn encode_record(r: &AgentRecord) -> (d: Document)
    ensures
        parse_record(d) == Some(abs(*r)),
{
    let ad = encode_agent(&r.agent);
    let mut vs: Vec<Value> = Vec::new();
    let mut j: usize = 0;
    while j < r.keys.len()
        invariant
            j <= r.keys@.len(),
            vs@.len() == j,
            parse_entries(vs@) == Some(r.keys@.take(j as int)),
        decreases r.keys@.len() - j,
    {
        let ed = encode_entry(&r.keys[j]);
        let ghost pre_vs = vs@;
        vs.push(Value::Doc(ed));
        proof {
            assert(vs@.drop_last() =~= pre_vs);
            assert(vs@.last() == Value::Doc(ed));
            assert(r.keys@.take(j as int).push(r.keys@[j as int]) =~= r.keys@.take(j + 1));
            assert(parse_entries(vs@) == Some(r.keys@.take(j + 1)));
        }
        j = j + 1;
    }
    proof {
        assert(r.keys@.take(r.keys@.len() as int) =~= r.keys@);
    }
    let mut fields: Vec<(FieldName, Value)> = Vec::new();
    fields.push((FieldName::Id, Value::U64(r.id.0)));
    fields.push((FieldName::Agent, Value::Doc(ad)));
    let wrote_profile: bool;
    match &r.profile {
        Some(p) => {
            fields.push((FieldName::Profile, Value::Doc(encode_profile(p))));
            wrote_profile = true;
        },
        None => {
            wrote_profile = false;
        },
    }
    fields.push((FieldName::Keys, Value::List(vs)));
    let d = Document { fields };
    proof {
        let fs = d.fields@;
        let s1 = fs.drop_first();
        let s2 = s1.drop_first();
        assert(s1[0] == fs[1]);
        assert(s2[0] == fs[2]);
        assert(lookup_field(fs, FieldName::Id) == Some(fs[0].1));
        assert(lookup_field(fs, FieldName::Agent) == lookup_field(s1, FieldName::Agent));
        assert(lookup_field(s1, FieldName::Agent) == Some(fs[1].1));
        if wrote_profile {
            let s3 = s2.drop_first();
            assert(s2[1] == fs[3]);
            assert(s3[0] == fs[3]);
            assert(lookup_field(s2, FieldName::Profile) == Some(fs[2].1));
            assert(lookup_field(s3, FieldName::Keys) == Some(fs[3].1));
            assert(lookup_field(s2, FieldName::Keys) == Some(fs[3].1));
            assert(lookup_field(s1, FieldName::Profile) == Some(fs[2].1));
            assert(lookup_field(s1, FieldName::Keys) == Some(fs[3].1));
            assert(lookup_field(fs, FieldName::Profile) == Some(fs[2].1));
            assert(lookup_field(fs, FieldName::Keys) == Some(fs[3].1));
        } else {
            assert(lookup_field(s2, FieldName::Keys) == Some(fs[2].1));
            assert(lookup_field(s1, FieldName::Keys) == Some(fs[2].1));
            assert(lookup_field(fs, FieldName::Keys) == Some(fs[2].1));
            let s3 = s2.drop_first();
            assert(s3.len() == 0);
            assert(lookup_field(s3, FieldName::Profile) is None);
            assert(lookup_field(s2, FieldName::Profile) is None);
            assert(lookup_field(s1, FieldName::Profile) is None);
            assert(lookup_field(fs, FieldName::Profile) is None);
        }
    }
    d
}

/// Decodes an identity payload, failing when a required field is
/// missing or wrongly shaped.
pub fn decode_agent(d: &Document) -> (r: Result<Agent, StoreError>)
    ensures
        match parse_agent(*d) {
            Some(a) => r == Ok::<Agent, StoreError>(a),
            None => r == Err::<Agent, StoreError>(StoreError::Decoding),
        },
{
    let i: u64 = match d.get(FieldName::Id) {
        Some(Value::U64(i)) => *i,
        _ => {
            return Err(StoreError::Decoding);
        },
    };
    let v: u64 = match d.get(FieldName::VerificationKey) {
        Some(Value::U64(v)) => *v,
        _ => {
            return Err(StoreError::Decoding);
        },
    };
    Ok(Agent { id: AgentId(i), verification_key: v })
}

/// Decodes a profile, failing when a required field is missing or
/// wrongly shaped.
pub fn decode_profile(d: &Document) -> (r: Result<Profile, StoreError>)
    ensures
        match parse_profile(*d) {
            Some(p) => r == Ok::<Profile, StoreError>(p),
            None => r == Err::<Profile, StoreError>(StoreError::Decoding),
        },
{
    let o: u64 = match d.get(FieldName::Owner) {
        Some(Value::U64(o)) => *o,
        _ => {
            return Err(StoreError::Decoding);
        },
    };
    let name: String = match d.get(FieldName::Name) {
        Some(Value::Text(s)) => s.clone(),
        _ => {
            return Err(StoreError::Decoding);
        },
    };
    Ok(Profile { owner: AgentId(o), name })
}

/// Decodes a signed key, failing when a required field is missing or
/// wrongly shaped.
pub fn decode_signed_key(d: &Document) -> (r: Result<SignedEncryptionKey, StoreError>)
    ensures
        match parse_key(*d) {
            Some(k) => r == Ok::<SignedEncryptionKey, StoreError>(k),
            None => r == Err::<SignedEncryptionKey, StoreError>(StoreError::Decoding),
        },
{
    let sg: u64 = match d.get(FieldName::Signer) {
        Some(Value::U64(sg)) => *sg,
        _ => {
            return Err(StoreError::Decoding);
        },
    };
    let kk: u64 = match d.get(FieldName::Key) {
        Some(Value::U64(kk)) => *kk,
        _ => {
            return Err(StoreError::Decoding);
        },
    };
    let b: u64 = match d.get(FieldName::Body) {
        Some(Value::U64(b)) => *b,
        _ => {
            return Err(StoreError::Decoding);
        },
    };
    Ok(SignedEncryptionKey { signer: AgentId(sg), key: EncryptionKeyId(kk), body: b })
}

/// Decodes one key list element, failing when a required field is
/// missing or wrongly shaped.
pub fn decode_entry(d: &Document) -> (r: Result<Labelled, StoreError>)
    ensures
        match parse_entry(*d) {
            Some(l) => r == Ok::<Labelled, StoreError>(l),
            None => r == Err::<Labelled, StoreError>(StoreError::Decoding),
        },
{
    let i: u64 = match d.get(FieldName::Id) {
        Some(Value::U64(i)) => *i,
        _ => {
            return Err(StoreError::Decoding);
        },
    };
    let body: SignedEncryptionKey = match d.get(FieldName::Body) {
        Some(Value::Doc(kd)) => match decode_signed_key(kd) {
            Ok(b) => b,
            Err(e) => {
                return Err(e);
            },
        },
        _ => {
            return Err(StoreError::Decoding);
        },
    };
    Ok(Labelled { id: EncryptionKeyId(i), body })
}

/// Decodes a stored key list element by element; any wrongly shaped
/// element fails the whole list.
pub fn decode_entries(vs: &Vec<Value>) -> (r: Result<Vec<Labelled>, StoreError>)
    ensures
        match parse_entries(vs@) {
            Some(ks) => r matches Ok(out) && out@ == ks,
            None => r == Err::<Vec<Labelled>, StoreError>(StoreError::Decoding),
        },
{
    let mut out: Vec<Labelled> = Vec::new();
    let mut j: usize = 0;
    proof {
        assert(vs@.take(0) =~= Seq::<Value>::empty());
    }
    while j < vs.len()
        invariant
            j <= vs@.len(),
            parse_entries(vs@.take(j as int)) == Some(out@),
        decreases vs@.len() - j,
    {
        proof {
            assert(vs@.take(j + 1).drop_last() =~= vs@.take(j as int));
            assert(vs@.take(j + 1).last() == vs@[j as int]);
        }
        match &vs[j] {
            Value::Doc(ed) => match decode_entry(ed) {
                Ok(l) => {
                    out.push(l);
                },
                Err(e) => {
                    proof {
                        lemma_entries_fail(vs@, j as int);
                    }
                    return Err(e);
                },
            },
            _ => {
                proof {
                    lemma_entries_fail(vs@, j as int);
                }
                return Err(StoreError::Decoding);
            },
        }
        j = j + 1;
    }
    proof {
        assert(vs@.take(vs@.len() as int) =~= vs@);
    }
    Ok(out)
}

/// Decodes a whole record: `id` and `agent` are required; a missing
/// `profile` decodes as unset and a missing `keys` list as empty, while
/// a wrongly shaped one is an error.
pub fn decode_record(d: &Document) -> (r: Result<AgentRecord, StoreError>)
    ensures
        match parse_record(*d) {
            Some(sh) => r matches Ok(rec) && abs(rec) == sh,
            None => r == Err::<AgentRecord, StoreError>(StoreError::Decoding),
        },
{
    let i: u64 = match d.get(FieldName::Id) {
        Some(Value::U64(i)) => *i,
        _ => {
            return Err(StoreError::Decoding);
        },
    };
    let agent: Agent = match d.get(FieldName::Agent) {
        Some(Value::Doc(ad)) => match decode_agent(ad) {
            Ok(a) => a,
            Err(e) => {
                return Err(e);
            },
        },
        _ => {
            return Err(StoreError::Decoding);
        },
    };
    let profile: Option<Profile> = match d.get(FieldName::Profile) {
        None => None,
        Some(Value::Doc(pd)) => match decode_profile(pd) {
            Ok(p) => Some(p),
            Err(e) => {
                return Err(e);
            },
        },
        Some(_) => {
            return Err(StoreError::Decoding);
        },
    };
    let keys: Vec<Labelled> = match d.get(FieldName::Keys) {
        None => Vec::new(),
        Some(Value::List(vs)) => match decode_entries(vs) {
            Ok(ks) => ks,
            Err(e) => {
                return Err(e);
            },
        },
        Some(_) => {
            return Err(StoreError::Decoding);
        },
    };
    Ok(AgentRecord { id: AgentId(i), agent, profile, keys })
}

/// The primitive value a primary key encodes to, for equality filters
/// and the uniqueness index; distinct keys encode to distinct values.
pub open spec fn key_value(k: AgentId) -> Value {
    Value::U64(k.0)
}

/// Encodes a primary key for use in an equality filter.
pub fn encode_key(k: AgentId) -> (v: Value)
    ensures
        v == key_value(k),
{
    Value::U64(k.0)
}

/// Key encoding is injective: equal encodings come only from equal
/// keys, so the encoded key is fit for equality lookups and the
/// uniqueness index.
pub proof fn law_encode_key_injective(k1: AgentId, k2: AgentId)
    requires
        key_value(k1) == key_value(k2),
    ensures
        k1 == k2,
{
}

} // verus!
