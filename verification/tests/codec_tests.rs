use kg_indexer::edit::{Payload, PbDataType};
use kg_indexer::wire::{deserialize, DeserializeError};

/// Encode one varint.
fn vi(mut v: u64) -> Vec<u8> {
    let mut out = Vec::new();
    loop {
        let byte = (v & 0x7f) as u8;
        v >>= 7;
        if v == 0 {
            out.push(byte);
            return out;
        }
        out.push(byte | 0x80);
    }
}

/// Encode one length-delimited field.
fn field_bytes(field: u64, data: &[u8]) -> Vec<u8> {
    let mut out = vi(field << 3 | 2);
    out.extend_from_slice(&vi(data.len() as u64));
    out.extend_from_slice(data);
    out
}

/// Encode one varint field.
fn field_varint(field: u64, v: u64) -> Vec<u8> {
    let mut out = vi(field << 3);
    out.extend_from_slice(&vi(v));
    out
}

fn concat(parts: Vec<Vec<u8>>) -> Vec<u8> {
    let mut out = Vec::new();
    for p in parts {
        out.extend_from_slice(&p);
    }
    out
}

#[test]
fn deserialize_round_trips_an_edit() {
    let edit_id: Vec<u8> = (1u8..=16).collect();
    let property_id = vec![9u8; 16];
    let entity_id = vec![7u8; 16];
    let author = vec![3u8; 16];

    let property_msg = concat(vec![
        field_bytes(1, &property_id),
        field_varint(2, 2), // number
    ]);
    let value_msg = concat(vec![
        field_bytes(1, &property_id),
        field_bytes(2, "42.5".as_bytes()),
    ]);
    let entity_msg = concat(vec![
        field_bytes(1, &entity_id),
        field_bytes(2, &value_msg),
    ]);
    let op_property = field_bytes(3, &property_msg);
    let op_entity = field_bytes(1, &entity_msg);

    let edit_msg = concat(vec![
        field_bytes(1, &edit_id),
        field_bytes(2, "sample edit".as_bytes()),
        field_bytes(3, &op_property),
        field_bytes(3, &op_entity),
        field_bytes(4, &author),
    ]);

    let edit = deserialize(&edit_msg).unwrap();
    assert_eq!(edit.id, edit_id);
    assert_eq!(edit.name, "sample edit");
    assert_eq!(edit.authors, vec![author]);
    assert!(edit.language.is_none());
    assert_eq!(edit.ops.len(), 2);

    match edit.ops[0].payload.as_ref().unwrap() {
        Payload::CreateProperty(p) => {
            assert_eq!(p.id, property_id);
            assert_eq!(p.data_type, PbDataType::Number);
        }
        other => panic!("expected a create-property op, got {:?}", other),
    }
    match edit.ops[1].payload.as_ref().unwrap() {
        Payload::UpdateEntity(e) => {
            assert_eq!(e.id, entity_id);
            assert_eq!(e.values.len(), 1);
            assert_eq!(e.values[0].property, property_id);
            assert_eq!(e.values[0].value, "42.5");
        }
        other => panic!("expected an update-entity op, got {:?}", other),
    }
}

#[test]
fn deserialize_skips_unknown_fields() {
    let edit_id: Vec<u8> = (1u8..=16).collect();
    let edit_msg = concat(vec![
        field_varint(99, 12345),
        field_bytes(1, &edit_id),
        field_bytes(77, &[1, 2, 3]),
        field_bytes(2, "still decodes".as_bytes()),
    ]);
    let edit = deserialize(&edit_msg).unwrap();
    assert_eq!(edit.id, edit_id);
    assert_eq!(edit.name, "still decodes");
}

#[test]
fn deserialize_last_scalar_wins() {
    let edit_msg = concat(vec![
        field_bytes(2, "first".as_bytes()),
        field_bytes(2, "second".as_bytes()),
    ]);
    let edit = deserialize(&edit_msg).unwrap();
    assert_eq!(edit.name, "second");
}

#[test]
fn deserialize_rejects_malformed_payloads() {
    // A truncated varint.
    assert_eq!(deserialize(&[0x80]).unwrap_err(), DeserializeError::InvalidPayload);

    // A length running past the end.
    let mut truncated = vi(1 << 3 | 2);
    truncated.extend_from_slice(&vi(100));
    truncated.push(1);
    assert_eq!(deserialize(&truncated).unwrap_err(), DeserializeError::InvalidPayload);

    // A property with an enum value outside the schema.
    let property_msg = field_varint(2, 42);
    let op = field_bytes(3, &property_msg);
    let edit_msg = field_bytes(3, &op);
    assert_eq!(deserialize(&edit_msg).unwrap_err(), DeserializeError::InvalidPayload);

    // A name that is not valid UTF-8.
    let edit_msg = field_bytes(2, &[0xff, 0xfe]);
    assert_eq!(deserialize(&edit_msg).unwrap_err(), DeserializeError::InvalidPayload);
}

#[test]
fn deserialize_relation_ops() {
    let rid = vec![1u8; 16];
    let tid = vec![2u8; 16];
    let eid = vec![3u8; 16];
    let fid = vec![4u8; 16];
    let to_id = vec![5u8; 16];

    let relation_msg = concat(vec![
        field_bytes(1, &rid),
        field_bytes(2, &tid),
        field_bytes(3, &eid),
        field_bytes(4, &fid),
        field_bytes(7, &to_id),
        field_bytes(10, "p0".as_bytes()),
        field_varint(11, 1),
    ]);
    let update_msg = concat(vec![
        field_bytes(1, &rid),
        field_bytes(6, "".as_bytes()),
        field_varint(7, 0),
    ]);
    let delete_op = field_bytes(6, &rid);
    let edit_msg = concat(vec![
        field_bytes(3, &field_bytes(4, &relation_msg)),
        field_bytes(3, &field_bytes(5, &update_msg)),
        field_bytes(3, &delete_op),
    ]);

    let edit = deserialize(&edit_msg).unwrap();
    assert_eq!(edit.ops.len(), 3);

    match edit.ops[0].payload.as_ref().unwrap() {
        Payload::CreateRelation(r) => {
            assert_eq!(r.id, rid);
            assert_eq!(r.type_id, tid);
            assert_eq!(r.entity, eid);
            assert_eq!(r.from_entity, fid);
            assert_eq!(r.to_entity, to_id);
            assert!(r.from_space.is_none());
            assert_eq!(r.position.as_deref(), Some("p0"));
            assert_eq!(r.verified, Some(true));
        }
        other => panic!("expected a create-relation op, got {:?}", other),
    }
    match edit.ops[1].payload.as_ref().unwrap() {
        Payload::UpdateRelation(u) => {
            assert_eq!(u.id, rid);
            assert_eq!(u.position.as_deref(), Some(""));
            assert_eq!(u.verified, Some(false));
        }
        other => panic!("expected an update-relation op, got {:?}", other),
    }
    match edit.ops[2].payload.as_ref().unwrap() {
        Payload::DeleteRelation(b) => assert_eq!(b, &rid),
        other => panic!("expected a delete-relation op, got {:?}", other),
    }
}
