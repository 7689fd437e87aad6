use agent_directory::codec::{
    decode_record, encode_key, encode_record, Document, FieldName, Value,
};
use agent_directory::errors::StoreError;
use agent_directory::protocol::{
    Agent, AgentId, AgentRecord, EncryptionKeyId, Labelled, Profile, SignedEncryptionKey,
};

fn sample_record() -> AgentRecord {
    AgentRecord {
        id: AgentId(1),
        agent: Agent { id: AgentId(1), verification_key: 99 },
        profile: Some(Profile { owner: AgentId(1), name: String::from("alice") }),
        keys: vec![
            Labelled {
                id: EncryptionKeyId(5),
                body: SignedEncryptionKey {
                    signer: AgentId(1),
                    key: EncryptionKeyId(5),
                    body: 500,
                },
            },
            Labelled {
                id: EncryptionKeyId(6),
                body: SignedEncryptionKey {
                    signer: AgentId(1),
                    key: EncryptionKeyId(6),
                    body: 600,
                },
            },
        ],
    }
}

#[test]
fn round_trip_full_record() {
    let r = sample_record();
    let decoded = decode_record(&encode_record(&r)).unwrap();
    assert_eq!(decoded.id, r.id);
    assert_eq!(decoded.agent, r.agent);
    assert_eq!(decoded.profile, r.profile);
    assert_eq!(decoded.keys, r.keys);
}

#[test]
fn round_trip_without_profile_or_keys() {
    let r = AgentRecord {
        id: AgentId(2),
        agent: Agent { id: AgentId(2), verification_key: 7 },
        profile: None,
        keys: Vec::new(),
    };
    let decoded = decode_record(&encode_record(&r)).unwrap();
    assert_eq!(decoded.id, r.id);
    assert_eq!(decoded.agent, r.agent);
    assert_eq!(decoded.profile, None);
    assert_eq!(decoded.keys, Vec::new());
}

#[test]
fn decode_tolerates_absent_optional_fields() {
    let agent_doc = Document {
        fields: vec![
            (FieldName::Id, Value::U64(3)),
            (FieldName::VerificationKey, Value::U64(33)),
        ],
    };
    let doc = Document {
        fields: vec![
            (FieldName::Id, Value::U64(3)),
            (FieldName::Agent, Value::Doc(agent_doc)),
        ],
    };
    let decoded = decode_record(&doc).unwrap();
    assert_eq!(decoded.profile, None);
    assert_eq!(decoded.keys, Vec::new());
}

#[test]
fn decode_missing_required_field_fails() {
    let doc = Document { fields: vec![(FieldName::Id, Value::U64(3))] };
    assert_eq!(decode_record(&doc), Err(StoreError::Decoding));
}

#[test]
fn decode_wrongly_shaped_field_fails() {
    let doc = Document {
        fields: vec![
            (FieldName::Id, Value::Text(String::from("not a number"))),
            (FieldName::Agent, Value::U64(1)),
        ],
    };
    assert_eq!(decode_record(&doc), Err(StoreError::Decoding));
}

#[test]
fn decode_bad_key_list_element_fails_the_whole_list() {
    let agent_doc = Document {
        fields: vec![
            (FieldName::Id, Value::U64(4)),
            (FieldName::VerificationKey, Value::U64(44)),
        ],
    };
    let doc = Document {
        fields: vec![
            (FieldName::Id, Value::U64(4)),
            (FieldName::Agent, Value::Doc(agent_doc)),
            (FieldName::Keys, Value::List(vec![Value::U64(0)])),
        ],
    };
    assert_eq!(decode_record(&doc), Err(StoreError::Decoding));
}

#[test]
fn encoded_key_is_stable_and_injective() {
    assert!(matches!(encode_key(AgentId(9)), Value::U64(9)));
    assert!(matches!(encode_key(AgentId(9)), Value::U64(9)));
    assert!(!matches!(encode_key(AgentId(8)), Value::U64(9)));
}
