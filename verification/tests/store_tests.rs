use agent_directory::dao::Dao;
use agent_directory::errors::StoreError;
use agent_directory::protocol::{
    Agent, AgentId, AgentRecord, EncryptionKeyId, Profile, SignedEncryptionKey,
};
use agent_directory::store::AgentsStore;

fn agent(id: u64, vk: u64) -> Agent {
    Agent { id: AgentId(id), verification_key: vk }
}

fn skey(signer: u64, key: u64, body: u64) -> SignedEncryptionKey {
    SignedEncryptionKey { signer: AgentId(signer), key: EncryptionKeyId(key), body }
}

#[test]
fn ping_always_succeeds() {
    let store = AgentsStore::new().unwrap();
    assert!(store.ping().is_ok());
}

#[test]
fn create_then_get_returns_exactly_the_agent() {
    let mut store = AgentsStore::new().unwrap();
    let a = agent(1, 10);
    store.create_agent(&a).unwrap();
    assert_eq!(store.get_agent(AgentId(1)), Some(a));
}

#[test]
fn create_twice_overwrites_last_write_wins() {
    let mut store = AgentsStore::new().unwrap();
    store.create_agent(&agent(1, 10)).unwrap();
    store.create_agent(&agent(1, 20)).unwrap();
    assert_eq!(store.get_agent(AgentId(1)), Some(agent(1, 20)));
}

#[test]
fn get_agent_missing_is_none() {
    let store = AgentsStore::new().unwrap();
    assert_eq!(store.get_agent(AgentId(7)), None);
}

#[test]
fn profile_round_trip() {
    let mut store = AgentsStore::new().unwrap();
    store.create_agent(&agent(1, 10)).unwrap();
    let p = Profile { owner: AgentId(1), name: String::from("alice") };
    store.upsert_profile(&p).unwrap();
    assert_eq!(store.get_profile(AgentId(1)), Some(p));
}

#[test]
fn profile_unset_reads_none() {
    let mut store = AgentsStore::new().unwrap();
    store.create_agent(&agent(1, 10)).unwrap();
    assert_eq!(store.get_profile(AgentId(1)), None);
}

#[test]
fn profile_replaced_wholesale() {
    let mut store = AgentsStore::new().unwrap();
    store.create_agent(&agent(1, 10)).unwrap();
    let p1 = Profile { owner: AgentId(1), name: String::from("first") };
    let p2 = Profile { owner: AgentId(1), name: String::from("second") };
    store.upsert_profile(&p1).unwrap();
    store.upsert_profile(&p2).unwrap();
    assert_eq!(store.get_profile(AgentId(1)), Some(p2));
}

#[test]
fn profile_on_missing_agent_is_a_noop() {
    let mut store = AgentsStore::new().unwrap();
    let p = Profile { owner: AgentId(9), name: String::from("ghost") };
    store.upsert_profile(&p).unwrap();
    assert_eq!(store.get_agent(AgentId(9)), None);
    assert_eq!(store.get_profile(AgentId(9)), None);
    assert_eq!(store.suggest_committee().unwrap().len(), 0);
}

#[test]
fn profile_survives_agent_overwrite() {
    let mut store = AgentsStore::new().unwrap();
    store.create_agent(&agent(1, 10)).unwrap();
    let p = Profile { owner: AgentId(1), name: String::from("kept") };
    store.upsert_profile(&p).unwrap();
    store.create_agent(&agent(1, 20)).unwrap();
    assert_eq!(store.get_profile(AgentId(1)), Some(p));
}

#[test]
fn key_replace_by_id_keeps_one_entry_with_newest_payload() {
    let mut store = AgentsStore::new().unwrap();
    store.create_agent(&agent(1, 10)).unwrap();
    store.create_encryption_key(&skey(1, 5, 100)).unwrap();
    store.create_encryption_key(&skey(1, 5, 200)).unwrap();
    let committee = store.suggest_committee().unwrap();
    assert_eq!(committee.len(), 1);
    assert_eq!(committee[0].keys, vec![EncryptionKeyId(5)]);
    assert_eq!(store.get_encryption_key(EncryptionKeyId(5)), Some(skey(1, 5, 200)));
}

#[test]
fn key_lookup_is_global() {
    let mut store = AgentsStore::new().unwrap();
    store.create_agent(&agent(1, 10)).unwrap();
    store.create_agent(&agent(2, 20)).unwrap();
    store.create_encryption_key(&skey(2, 5, 111)).unwrap();
    assert_eq!(store.get_encryption_key(EncryptionKeyId(5)), Some(skey(2, 5, 111)));
}

#[test]
fn key_lookup_missing_is_none() {
    let mut store = AgentsStore::new().unwrap();
    store.create_agent(&agent(1, 10)).unwrap();
    assert_eq!(store.get_encryption_key(EncryptionKeyId(5)), None);
}

#[test]
fn key_for_missing_signer_is_a_noop() {
    let mut store = AgentsStore::new().unwrap();
    store.create_encryption_key(&skey(3, 5, 100)).unwrap();
    assert_eq!(store.get_encryption_key(EncryptionKeyId(5)), None);
    assert_eq!(store.suggest_committee().unwrap().len(), 0);
}

#[test]
fn committee_is_complete() {
    let mut store = AgentsStore::new().unwrap();
    store.create_agent(&agent(1, 10)).unwrap();
    store.create_agent(&agent(2, 20)).unwrap();
    store.create_agent(&agent(3, 30)).unwrap();
    store.create_encryption_key(&skey(1, 5, 100)).unwrap();
    store.create_encryption_key(&skey(1, 6, 101)).unwrap();
    store.create_encryption_key(&skey(3, 7, 102)).unwrap();
    let committee = store.suggest_committee().unwrap();
    assert_eq!(committee.len(), 3);
    let mut ids: Vec<u64> = committee.iter().map(|c| c.id.0).collect();
    ids.sort();
    assert_eq!(ids, vec![1, 2, 3]);
    for c in &committee {
        match c.id.0 {
            1 => assert_eq!(c.keys, vec![EncryptionKeyId(5), EncryptionKeyId(6)]),
            2 => assert_eq!(c.keys, Vec::new()),
            3 => assert_eq!(c.keys, vec![EncryptionKeyId(7)]),
            _ => panic!("unexpected candidate"),
        }
    }
}

#[test]
fn physical_duplicate_insert_is_a_conflict() {
    let mut dao = Dao::new();
    let r1 = AgentRecord {
        id: AgentId(1),
        agent: agent(1, 10),
        profile: None,
        keys: Vec::new(),
    };
    let r2 = AgentRecord {
        id: AgentId(1),
        agent: agent(1, 20),
        profile: None,
        keys: Vec::new(),
    };
    assert!(dao.insert(r1).is_ok());
    assert_eq!(dao.insert(r2), Err(StoreError::Conflict));
    assert_eq!(dao.len(), 1);
}

#[test]
fn scenario_profile_then_key_then_replace() {
    let mut store = AgentsStore::new().unwrap();
    store.create_agent(&agent(1, 10)).unwrap();
    assert_eq!(store.get_profile(AgentId(1)), None);
    let p = Profile { owner: AgentId(1), name: String::from("x") };
    store.upsert_profile(&p).unwrap();
    assert_eq!(store.get_profile(AgentId(1)), Some(p));
    store.create_encryption_key(&skey(1, 41, 1000)).unwrap();
    let committee = store.suggest_committee().unwrap();
    assert_eq!(committee.len(), 1);
    assert_eq!(committee[0].id, AgentId(1));
    assert_eq!(committee[0].keys, vec![EncryptionKeyId(41)]);
    store.create_encryption_key(&skey(1, 41, 2000)).unwrap();
    let committee = store.suggest_committee().unwrap();
    assert_eq!(committee[0].keys, vec![EncryptionKeyId(41)]);
    assert_eq!(store.get_encryption_key(EncryptionKeyId(41)), Some(skey(1, 41, 2000)));
}
