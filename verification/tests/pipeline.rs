use std::rc::Rc;
use std::sync::atomic::{AtomicU64, Ordering};

use kg_indexer::edit::{
    Edit, Entity, Op, Payload, PbDataType, PreprocessedEdit, Property, Relation, RelationUpdate,
    UnsetEntityValues, Value,
};
use kg_indexer::handlers::RootHandler;
use kg_indexer::ids::{checksum_address, derive_space_id, derive_value_id, geo_network};
use kg_indexer::properties::{DataType, PropertiesCache};
use kg_indexer::proposals::{ProposalStatus, ProposalType};
use kg_indexer::storage::Storage;
use kg_indexer::test_utils::TestStorage;
use kg_indexer::uid::Uid;
use kg_indexer::{
    AddedMember, AddedSubspace, BlockMetadata, CreatedSpace, ExecutedProposal, KgData,
    PersonalSpace, ProposalCreated, PublicSpace, RemovedMember, RemovedSubspace,
};

fn uid(s: &str) -> Uid {
    Uid::parse_str(s).unwrap()
}

fn run_blocks(storage: &mut Storage, cache: &mut PropertiesCache, blocks: &Vec<KgData>) {
    for block in blocks {
        RootHandler::run(block, &block.block, storage, cache);
    }
}

fn make_edit(id: &str, name: &str, author: &str, ops: Vec<Op>) -> Edit {
    Edit {
        id: uid(id).to_bytes(),
        name: String::from(name),
        ops,
        authors: vec![uid(author).to_bytes()],
        language: None,
    }
}

struct TestValue {
    pub property_id: String,
    pub value: Option<String>,
}

enum TestEntityOpType {
    UPDATE,
    UNSET,
}

fn make_entity_op(op_type: TestEntityOpType, entity: &str, values: Vec<TestValue>) -> Op {
    match op_type {
        TestEntityOpType::UPDATE => Op {
            payload: Some(Payload::UpdateEntity(Entity {
                id: uid(entity).to_bytes(),
                values: values
                    .iter()
                    .map(|v| Value {
                        property: uid(&v.property_id).to_bytes(),
                        value: v.value.clone().unwrap(),
                        options: None,
                    })
                    .collect(),
            })),
        },
        TestEntityOpType::UNSET => Op {
            payload: Some(Payload::UnsetEntityValues(UnsetEntityValues {
                id: uid(entity).to_bytes(),
                properties: values.iter().map(|v| uid(&v.property_id).to_bytes()).collect(),
            })),
        },
    }
}

fn make_property_op(property_id: &str, property_type: PbDataType) -> Op {
    Op {
        payload: Some(Payload::CreateProperty(Property {
            id: uid(property_id).to_bytes(),
            data_type: property_type,
        })),
    }
}

enum TestRelationOpType {
    CREATE,
    UPDATE,
    DELETE,
}

fn make_relation_op(
    op_type: TestRelationOpType,
    relation_id: &str,
    entity_id: &str,
    type_id: &str,
    from_entity: &str,
    to_entity: &str,
) -> Op {
    match op_type {
        TestRelationOpType::CREATE => Op {
            payload: Some(Payload::CreateRelation(Relation {
                id: uid(relation_id).to_bytes(),
                type_id: uid(type_id).to_bytes(),
                entity: uid(entity_id).to_bytes(),
                from_entity: uid(from_entity).to_bytes(),
                from_space: None,
                from_version: None,
                to_entity: uid(to_entity).to_bytes(),
                to_space: None,
                to_version: None,
                position: None,
                verified: None,
            })),
        },
        TestRelationOpType::UPDATE => Op {
            payload: Some(Payload::UpdateRelation(RelationUpdate {
                id: uid(relation_id).to_bytes(),
                from_space: None,
                from_version: None,
                to_space: None,
                to_version: None,
                position: None,
                verified: Some(true),
            })),
        },
        TestRelationOpType::DELETE => Op {
            payload: Some(Payload::DeleteRelation(uid(relation_id).to_bytes())),
        },
    }
}

fn make_personal_space(dao_address: &str) -> CreatedSpace {
    CreatedSpace::Personal(PersonalSpace {
        dao_address: dao_address.to_string(),
        space_address: format!("{}_space", dao_address),
        personal_plugin: format!("{}_personal_plugin", dao_address),
    })
}

fn make_public_space(dao_address: &str) -> CreatedSpace {
    CreatedSpace::Public(PublicSpace {
        dao_address: dao_address.to_string(),
        space_address: format!("{}_space", dao_address),
        membership_plugin: format!("{}_membership_plugin", dao_address),
        governance_plugin: format!("{}_governance_plugin", dao_address),
    })
}

fn make_block(block_number: u64) -> BlockMetadata {
    BlockMetadata {
        cursor: block_number.to_string(),
        block_number,
        timestamp: "1234567890".to_string(),
    }
}

fn make_kg_data_with_spaces(
    block_number: u64,
    edits: Vec<PreprocessedEdit>,
    spaces: Vec<CreatedSpace>,
) -> KgData {
    KgData {
        block: make_block(block_number),
        edits,
        spaces,
        added_editors: vec![],
        added_members: vec![],
        removed_editors: vec![],
        removed_members: vec![],
        added_subspaces: vec![],
        removed_subspaces: vec![],
        executed_proposals: vec![],
        created_proposals: vec![],
    }
}

fn make_kg_data_with_membership(
    block_number: u64,
    added_members: Vec<AddedMember>,
    removed_members: Vec<RemovedMember>,
    added_editors: Vec<AddedMember>,
    removed_editors: Vec<RemovedMember>,
) -> KgData {
    KgData {
        block: make_block(block_number),
        edits: vec![],
        spaces: vec![],
        added_members,
        removed_members,
        added_editors,
        removed_editors,
        added_subspaces: vec![],
        removed_subspaces: vec![],
        executed_proposals: vec![],
        created_proposals: vec![],
    }
}

fn make_kg_data_with_subspaces(
    block_number: u64,
    added_subspaces: Vec<AddedSubspace>,
    removed_subspaces: Vec<RemovedSubspace>,
) -> KgData {
    KgData {
        block: make_block(block_number),
        edits: vec![],
        spaces: vec![],
        added_members: vec![],
        removed_members: vec![],
        added_editors: vec![],
        removed_editors: vec![],
        added_subspaces,
        removed_subspaces,
        executed_proposals: vec![],
        created_proposals: vec![],
    }
}

fn make_added_member(dao_address: &str, editor_address: &str) -> AddedMember {
    AddedMember {
        dao_address: dao_address.to_string(),
        editor_address: editor_address.to_string(),
    }
}

fn make_removed_member(dao_address: &str, editor_address: &str) -> RemovedMember {
    RemovedMember {
        dao_address: dao_address.to_string(),
        editor_address: editor_address.to_string(),
    }
}

fn make_added_subspace(dao_address: &str, subspace_address: &str) -> AddedSubspace {
    AddedSubspace {
        dao_address: dao_address.to_string(),
        subspace_address: subspace_address.to_string(),
    }
}

fn make_removed_subspace(dao_address: &str, subspace_address: &str) -> RemovedSubspace {
    RemovedSubspace {
        dao_address: dao_address.to_string(),
        subspace_address: subspace_address.to_string(),
    }
}

fn generate_unique_address(prefix: &str) -> String {
    static COUNTER: AtomicU64 = AtomicU64::new(0);
    let counter = COUNTER.fetch_add(1, Ordering::SeqCst);
    let mut tag: u64 = counter.wrapping_mul(0x9e3779b97f4a7c15);
    for b in prefix.bytes() {
        tag = tag.wrapping_mul(31).wrapping_add(b as u64);
    }
    format!("0x{:024x}{:016x}", counter, tag)
}

fn space_id_of(dao_address: &str) -> Uid {
    derive_space_id(geo_network(), &checksum_address(dao_address))
}

#[test]
fn main() {
    let mut storage = Storage::new();
    let mut cache = PropertiesCache::new();

    let item = PreprocessedEdit {
        space_id: uid("550e8400-e29b-41d4-a716-446655440007"),
        is_errored: false,
        edit: Some(Rc::new(make_edit(
            "f47ac10b-58cc-4372-a567-0e02b2c3d479",
            "Name",
            "f47ac10b-58cc-4372-a567-0e02b2c3d480",
            vec![
                make_entity_op(
                    TestEntityOpType::UPDATE,
                    "550e8400-e29b-41d4-a716-446655440001",
                    vec![
                        TestValue {
                            property_id: "6ba7b810-9dad-11d1-80b4-00c04fd430c1".to_string(),
                            value: Some("Test entity".to_string()),
                        },
                        TestValue {
                            property_id: "6ba7b810-9dad-11d1-80b4-00c04fd430c2".to_string(),
                            value: Some("1".to_string()),
                        },
                    ],
                ),
                make_entity_op(
                    TestEntityOpType::UPDATE,
                    "550e8400-e29b-41d4-a716-446655440002",
                    vec![TestValue {
                        property_id: "6ba7b810-9dad-11d1-80b4-00c04fd430c2".to_string(),
                        value: Some("2".to_string()),
                    }],
                ),
                make_entity_op(
                    TestEntityOpType::UNSET,
                    "550e8400-e29b-41d4-a716-446655440002",
                    vec![TestValue {
                        property_id: "6ba7b810-9dad-11d1-80b4-00c04fd430c2".to_string(),
                        value: None,
                    }],
                ),
                make_relation_op(
                    TestRelationOpType::CREATE,
                    "7ba7b810-9dad-11d1-80b4-00c04fd430c1",
                    "550e8400-e29b-41d4-a716-446655440001",
                    "8ba7b810-9dad-11d1-80b4-00c04fd430c1",
                    "550e8400-e29b-41d4-a716-446655440003",
                    "550e8400-e29b-41d4-a716-446655440004",
                ),
                make_relation_op(
                    TestRelationOpType::UPDATE,
                    "7ba7b810-9dad-11d1-80b4-00c04fd430c1",
                    "550e8400-e29b-41d4-a716-446655440001",
                    "8ba7b810-9dad-11d1-80b4-00c04fd430c1",
                    "550e8400-e29b-41d4-a716-446655440003",
                    "550e8400-e29b-41d4-a716-446655440004",
                ),
                make_relation_op(
                    TestRelationOpType::CREATE,
                    "7ba7b810-9dad-11d1-80b4-00c04fd430c2",
                    "550e8400-e29b-41d4-a716-446655440001",
                    "8ba7b810-9dad-11d1-80b4-00c04fd430c1",
                    "550e8400-e29b-41d4-a716-446655440003",
                    "550e8400-e29b-41d4-a716-446655440004",
                ),
                make_relation_op(
                    TestRelationOpType::DELETE,
                    "7ba7b810-9dad-11d1-80b4-00c04fd430c2",
                    "550e8400-e29b-41d4-a716-446655440001",
                    "8ba7b810-9dad-11d1-80b4-00c04fd430c1",
                    "550e8400-e29b-41d4-a716-446655440003",
                    "550e8400-e29b-41d4-a716-446655440004",
                ),
                make_property_op("6ba7b810-9dad-11d1-80b4-00c04fd430c1", PbDataType::Text),
                make_property_op("6ba7b810-9dad-11d1-80b4-00c04fd430c2", PbDataType::Number),
            ],
        ))),
        cid: "".to_string(),
    };

    let block = BlockMetadata {
        cursor: String::from("5"),
        block_number: 1,
        timestamp: String::from("5"),
    };

    run_blocks(
        &mut storage,
        &mut cache,
        &vec![KgData {
            block,
            edits: vec![item],
            spaces: vec![],
            added_editors: vec![],
            added_members: vec![],
            removed_editors: vec![],
            removed_members: vec![],
            added_subspaces: vec![],
            removed_subspaces: vec![],
            executed_proposals: vec![],
            created_proposals: vec![],
        }],
    );

    {
        let entity = storage
            .get_entity(&uid("550e8400-e29b-41d4-a716-446655440001"))
            .unwrap();
        assert_eq!(entity.id, uid("550e8400-e29b-41d4-a716-446655440001"));
    }

    {
        let entity = storage
            .get_entity(&uid("550e8400-e29b-41d4-a716-446655440002"))
            .unwrap();
        assert_eq!(entity.id, uid("550e8400-e29b-41d4-a716-446655440002"));
    }

    {
        let entity_id = uid("550e8400-e29b-41d4-a716-446655440001");
        let property_id = uid("6ba7b810-9dad-11d1-80b4-00c04fd430c2");
        let space_id = uid("550e8400-e29b-41d4-a716-446655440007");
        let expected_value_id = derive_value_id(&entity_id, &property_id, &space_id);

        let value = storage.get_value(&expected_value_id).unwrap();
        assert_eq!(value.id, expected_value_id);
    }

    {
        let entity_id = uid("550e8400-e29b-41d4-a716-446655440002");
        let property_id = uid("6ba7b810-9dad-11d1-80b4-00c04fd430c2");
        let space_id = uid("550e8400-e29b-41d4-a716-446655440007");
        let expected_value_id = derive_value_id(&entity_id, &property_id, &space_id);

        let value = storage.get_value(&expected_value_id);

        // Should not return the value since it was deleted
        assert!(value.is_none());
    }

    {
        let relation = storage
            .get_relation(&uid("7ba7b810-9dad-11d1-80b4-00c04fd430c1"))
            .unwrap();

        assert_eq!(relation.id, uid("7ba7b810-9dad-11d1-80b4-00c04fd430c1"));
        assert_eq!(relation.space_id, uid("550e8400-e29b-41d4-a716-446655440007"));
        assert_eq!(relation.entity_id, uid("550e8400-e29b-41d4-a716-446655440001"));
        assert_eq!(
            relation.from_entity_id,
            uid("550e8400-e29b-41d4-a716-446655440003")
        );
        assert_eq!(
            relation.to_entity_id,
            uid("550e8400-e29b-41d4-a716-446655440004")
        );

        // Update in edit sets verified to Some(true)
        assert_eq!(relation.verified, Some(true));
    }

    {
        // Should not return the relation since it was deleted
        let relation = storage.get_relation(&uid("7ba7b810-9dad-11d1-80b4-00c04fd430c2"));
        assert!(relation.is_none());
    }

    {
        let property = storage
            .get_property(&uid("6ba7b810-9dad-11d1-80b4-00c04fd430c1"))
            .unwrap();
        assert_eq!(property.id, uid("6ba7b810-9dad-11d1-80b4-00c04fd430c1"));
        assert_eq!(property.data_type, DataType::String);
    }

    {
        let property = storage
            .get_property(&uid("6ba7b810-9dad-11d1-80b4-00c04fd430c2"))
            .unwrap();
        assert_eq!(property.id, uid("6ba7b810-9dad-11d1-80b4-00c04fd430c2"));
        assert_eq!(property.data_type, DataType::Number);
    }
}

#[test]
fn test_validation_rejects_invalid_number() {
    let mut storage = Storage::new();
    let mut cache = PropertiesCache::new();

    let property_id = "11111111-1111-1111-1111-111111111111";
    let property_op = make_property_op(property_id, PbDataType::Number);

    let invalid_entity_op = make_entity_op(
        TestEntityOpType::UPDATE,
        "22222222-2222-2222-2222-222222222222",
        vec![TestValue {
            property_id: property_id.to_string(),
            value: Some("not_a_number".to_string()),
        }],
    );

    let edit = make_edit(
        "33333333-3333-3333-3333-333333333333",
        "Validation Test Edit",
        "44444444-4444-4444-4444-444444444444",
        vec![property_op, invalid_entity_op],
    );

    let item = PreprocessedEdit {
        edit: Some(Rc::new(edit)),
        is_errored: false,
        space_id: uid("55555555-5555-5555-5555-555555555555"),
        cid: "".to_string(),
    };

    let kg_data = make_kg_data_with_spaces(10, vec![item], vec![]);
    run_blocks(&mut storage, &mut cache, &vec![kg_data]);

    let property = storage.get_property(&uid(property_id)).unwrap();
    assert_eq!(property.data_type, DataType::Number);

    let entity_id = uid("22222222-2222-2222-2222-222222222222");
    let property_id_uid = uid(property_id);
    let space_id = uid("55555555-5555-5555-5555-555555555555");
    let expected_value_id = derive_value_id(&entity_id, &property_id_uid, &space_id);

    let value_result = storage.get_value(&expected_value_id);
    assert!(
        value_result.is_none(),
        "Invalid number value should not be stored"
    );
}

#[test]
fn test_validation_rejects_invalid_checkbox() {
    let mut storage = Storage::new();
    let mut cache = PropertiesCache::new();

    let property_id = "66666666-6666-6666-6666-666666666666";
    let property_op = make_property_op(property_id, PbDataType::Checkbox);

    let invalid_entity_op = make_entity_op(
        TestEntityOpType::UPDATE,
        "77777777-7777-7777-7777-777777777777",
        vec![TestValue {
            property_id: property_id.to_string(),
            value: Some("2".to_string()),
        }],
    );

    let edit = make_edit(
        "88888888-8888-8888-8888-888888888888",
        "Checkbox Validation Test",
        "99999999-9999-9999-9999-999999999999",
        vec![property_op, invalid_entity_op],
    );

    let item = PreprocessedEdit {
        edit: Some(Rc::new(edit)),
        is_errored: false,
        space_id: uid("aaaaaaaa-aaaa-aaaa-aaaa-aaaaaaaaaaaa"),
        cid: "".to_string(),
    };

    let kg_data = make_kg_data_with_spaces(11, vec![item], vec![]);
    run_blocks(&mut storage, &mut cache, &vec![kg_data]);

    let property = storage.get_property(&uid(property_id)).unwrap();
    assert_eq!(property.data_type, DataType::Boolean);

    let entity_id = uid("77777777-7777-7777-7777-777777777777");
    let property_id_uid = uid(property_id);
    let space_id = uid("aaaaaaaa-aaaa-aaaa-aaaa-aaaaaaaaaaaa");
    let expected_value_id = derive_value_id(&entity_id, &property_id_uid, &space_id);

    let value_result = storage.get_value(&expected_value_id);
    assert!(
        value_result.is_none(),
        "Invalid checkbox value should not be stored"
    );
}

#[test]
fn test_validation_rejects_invalid_time() {
    let mut storage = Storage::new();
    let mut cache = PropertiesCache::new();

    let property_id = "bbbbbbbb-bbbb-bbbb-bbbb-bbbbbbbbbbbb";
    let property_op = make_property_op(property_id, PbDataType::Time);

    let invalid_entity_op = make_entity_op(
        TestEntityOpType::UPDATE,
        "cccccccc-cccc-cccc-cccc-cccccccccccc",
        vec![TestValue {
            property_id: property_id.to_string(),
            value: Some("not-a-valid-time".to_string()),
        }],
    );

    let edit = make_edit(
        "dddddddd-dddd-dddd-dddd-dddddddddddd",
        "Time Validation Test",
        "eeeeeeee-eeee-eeee-eeee-eeeeeeeeeeee",
        vec![property_op, invalid_entity_op],
    );

    let item = PreprocessedEdit {
        edit: Some(Rc::new(edit)),
        is_errored: false,
        space_id: uid("ffffffff-ffff-ffff-ffff-ffffffffffff"),
        cid: "".to_string(),
    };

    let kg_data = make_kg_data_with_spaces(12, vec![item], vec![]);
    run_blocks(&mut storage, &mut cache, &vec![kg_data]);

    let property = storage.get_property(&uid(property_id)).unwrap();
    assert_eq!(property.data_type, DataType::Time);

    let entity_id = uid("cccccccc-cccc-cccc-cccc-cccccccccccc");
    let property_id_uid = uid(property_id);
    let space_id = uid("ffffffff-ffff-ffff-ffff-ffffffffffff");
    let expected_value_id = derive_value_id(&entity_id, &property_id_uid, &space_id);

    let value_result = storage.get_value(&expected_value_id);
    assert!(
        value_result.is_none(),
        "Invalid time value should not be stored"
    );
}

#[test]
fn test_validation_rejects_invalid_point() {
    let mut storage = Storage::new();
    let mut cache = PropertiesCache::new();

    let property_id = "12345678-1234-1234-1234-123456789012";
    let property_op = make_property_op(property_id, PbDataType::Point);

    let invalid_entity_op = make_entity_op(
        TestEntityOpType::UPDATE,
        "23456789-2345-2345-2345-234567890123",
        vec![TestValue {
            property_id: property_id.to_string(),
            value: Some("invalid-point-format".to_string()),
        }],
    );

    let edit = make_edit(
        "34567890-3456-3456-3456-345678901234",
        "Point Validation Test",
        "45678901-4567-4567-4567-456789012345",
        vec![property_op, invalid_entity_op],
    );

    let item = PreprocessedEdit {
        edit: Some(Rc::new(edit)),
        is_errored: false,
        space_id: uid("56789012-5678-5678-5678-567890123456"),
        cid: "".to_string(),
    };

    let kg_data = make_kg_data_with_spaces(13, vec![item], vec![]);
    run_blocks(&mut storage, &mut cache, &vec![kg_data]);

    let property = storage.get_property(&uid(property_id)).unwrap();
    assert_eq!(property.data_type, DataType::Point);

    let entity_id = uid("23456789-2345-2345-2345-234567890123");
    let property_id_uid = uid(property_id);
    let space_id = uid("56789012-5678-5678-5678-567890123456");
    let expected_value_id = derive_value_id(&entity_id, &property_id_uid, &space_id);

    let value_result = storage.get_value(&expected_value_id);
    assert!(
        value_result.is_none(),
        "Invalid point value should not be stored"
    );
}

#[test]
fn test_validation_allows_valid_data_mixed_with_invalid() {
    let mut storage = Storage::new();
    let mut cache = PropertiesCache::new();

    let number_prop_id = "67890123-6789-6789-6789-678901234567";
    let text_prop_id = "78901234-7890-7890-7890-789012345678";

    let number_prop_op = make_property_op(number_prop_id, PbDataType::Number);
    let text_prop_op = make_property_op(text_prop_id, PbDataType::Text);

    let mixed_entity_op = make_entity_op(
        TestEntityOpType::UPDATE,
        "89012345-8901-8901-8901-890123456789",
        vec![
            TestValue {
                property_id: number_prop_id.to_string(),
                value: Some("42.5".to_string()),
            },
            TestValue {
                property_id: text_prop_id.to_string(),
                value: Some("Valid text".to_string()),
            },
        ],
    );

    let invalid_entity_op = make_entity_op(
        TestEntityOpType::UPDATE,
        "90123456-9012-9012-9012-901234567890",
        vec![
            TestValue {
                property_id: number_prop_id.to_string(),
                value: Some("not_a_number".to_string()),
            },
            TestValue {
                property_id: text_prop_id.to_string(),
                value: Some("Another valid text".to_string()),
            },
        ],
    );

    let edit = make_edit(
        "01234567-0123-0123-0123-012345678901",
        "Mixed Validation Test",
        "10987654-1098-1098-1098-109876543210",
        vec![number_prop_op, text_prop_op, mixed_entity_op, invalid_entity_op],
    );

    let item = PreprocessedEdit {
        edit: Some(Rc::new(edit)),
        is_errored: false,
        space_id: uid("21098765-2109-2109-2109-210987654321"),
        cid: "".to_string(),
    };

    let kg_data = make_kg_data_with_spaces(14, vec![item], vec![]);
    run_blocks(&mut storage, &mut cache, &vec![kg_data]);

    let number_property = storage.get_property(&uid(number_prop_id)).unwrap();
    assert_eq!(number_property.data_type, DataType::Number);
    let text_property = storage.get_property(&uid(text_prop_id)).unwrap();
    assert_eq!(text_property.data_type, DataType::String);

    let space_id = uid("21098765-2109-2109-2109-210987654321");

    {
        let entity_id = uid("89012345-8901-8901-8901-890123456789");
        let number_prop_uid = uid(number_prop_id);
        let text_prop_uid = uid(text_prop_id);

        let number_value_id = derive_value_id(&entity_id, &number_prop_uid, &space_id);
        let text_value_id = derive_value_id(&entity_id, &text_prop_uid, &space_id);

        let number_value = storage.get_value(&number_value_id).unwrap();
        assert_eq!(number_value.number, Some("42.5".to_string()));

        let text_value = storage.get_value(&text_value_id).unwrap();
        assert_eq!(text_value.string, Some("Valid text".to_string()));
    }

    {
        let entity_id = uid("90123456-9012-9012-9012-901234567890");
        let number_prop_uid = uid(number_prop_id);
        let text_prop_uid = uid(text_prop_id);

        let number_value_id = derive_value_id(&entity_id, &number_prop_uid, &space_id);
        let text_value_id = derive_value_id(&entity_id, &text_prop_uid, &space_id);

        let number_value_result = storage.get_value(&number_value_id);
        assert!(
            number_value_result.is_none(),
            "Invalid number should not be stored"
        );

        let text_value = storage.get_value(&text_value_id).unwrap();
        assert_eq!(text_value.string, Some("Another valid text".to_string()));
    }
}

#[test]
fn test_property_no_overwrite() {
    let mut storage = Storage::new();
    let mut cache = PropertiesCache::new();

    let item = PreprocessedEdit {
        space_id: uid("550e8400-e29b-41d4-a716-446655440005"),
        edit: Some(Rc::new(make_edit(
            "f47ac10b-58cc-4372-a567-0e02b2c3d481",
            "First Edit",
            "f47ac10b-58cc-4372-a567-0e02b2c3d480",
            vec![make_property_op(
                "aba7b810-9dad-11d1-80b4-00c04fd430c1",
                PbDataType::Text,
            )],
        ))),
        is_errored: false,
        cid: "".to_string(),
    };

    let second_edit = PreprocessedEdit {
        space_id: uid("550e8400-e29b-41d4-a716-446655440006"),
        edit: Some(Rc::new(make_edit(
            "f47ac10b-58cc-4372-a567-0e02b2c3d482",
            "Second Edit",
            "f47ac10b-58cc-4372-a567-0e02b2c3d480",
            vec![make_property_op(
                "aba7b810-9dad-11d1-80b4-00c04fd430c1",
                PbDataType::Number,
            )],
        ))),
        is_errored: false,
        cid: "".to_string(),
    };

    run_blocks(
        &mut storage,
        &mut cache,
        &vec![make_kg_data_with_spaces(2, vec![item], vec![])],
    );

    {
        let property = storage
            .get_property(&uid("aba7b810-9dad-11d1-80b4-00c04fd430c1"))
            .unwrap();
        assert_eq!(property.id, uid("aba7b810-9dad-11d1-80b4-00c04fd430c1"));
        assert_eq!(property.data_type, DataType::String);
    }

    run_blocks(
        &mut storage,
        &mut cache,
        &vec![make_kg_data_with_spaces(2, vec![second_edit], vec![])],
    );

    {
        let property = storage
            .get_property(&uid("aba7b810-9dad-11d1-80b4-00c04fd430c1"))
            .unwrap();
        assert_eq!(property.id, uid("aba7b810-9dad-11d1-80b4-00c04fd430c1"));
        assert_eq!(property.data_type, DataType::String); // still Text, not Number
    }
}

#[test]
fn test_property_squashing() {
    let mut storage = Storage::new();
    let mut cache = PropertiesCache::new();

    let edit_with_duplicate_properties = PreprocessedEdit {
        space_id: uid("550e8400-e29b-41d4-a716-446655440008"),
        edit: Some(Rc::new(make_edit(
            "f47ac10b-58cc-4372-a567-0e02b2c3d483",
            "Squash Test Edit",
            "f47ac10b-58cc-4372-a567-0e02b2c3d480",
            vec![
                make_property_op("bba7b810-9dad-11d1-80b4-00c04fd430c1", PbDataType::Text),
                make_property_op("bba7b810-9dad-11d1-80b4-00c04fd430c1", PbDataType::Number),
                make_property_op("bba7b810-9dad-11d1-80b4-00c04fd430c1", PbDataType::Checkbox),
                make_property_op("bba7b810-9dad-11d1-80b4-00c04fd430c2", PbDataType::Time),
            ],
        ))),
        is_errored: false,
        cid: "".to_string(),
    };

    run_blocks(
        &mut storage,
        &mut cache,
        &vec![make_kg_data_with_spaces(3, vec![edit_with_duplicate_properties], vec![])],
    );

    {
        let property = storage
            .get_property(&uid("bba7b810-9dad-11d1-80b4-00c04fd430c1"))
            .unwrap();
        assert_eq!(property.id, uid("bba7b810-9dad-11d1-80b4-00c04fd430c1"));
        assert_eq!(property.data_type, DataType::Boolean); // Checkbox, not Text or Number
    }

    {
        let property = storage
            .get_property(&uid("bba7b810-9dad-11d1-80b4-00c04fd430c2"))
            .unwrap();
        assert_eq!(property.id, uid("bba7b810-9dad-11d1-80b4-00c04fd430c2"));
        assert_eq!(property.data_type, DataType::Time);
    }
}

#[test]
fn test_space_indexing_personal() {
    let mut storage = Storage::new();
    let mut cache = PropertiesCache::new();

    let dao_address1 = generate_unique_address("1a");
    let dao_address2 = generate_unique_address("1b");

    let spaces = vec![
        make_personal_space(&dao_address1),
        make_personal_space(&dao_address2),
    ];

    run_blocks(
        &mut storage,
        &mut cache,
        &vec![make_kg_data_with_spaces(1, vec![], spaces)],
    );

    let test_storage = TestStorage::new(storage);
    let dao_addresses = vec![
        checksum_address(&dao_address1),
        checksum_address(&dao_address2),
    ];
    let space_rows = test_storage.get_spaces_by_dao_addresses(&dao_addresses);

    assert_eq!(space_rows.len(), 2);

    let expected_personal_addresses = vec![
        checksum_address(&format!("{}_personal_plugin", dao_address1)),
        checksum_address(&format!("{}_personal_plugin", dao_address2)),
    ];
    let expected_space_addresses = vec![
        checksum_address(&format!("{}_space", dao_address1)),
        checksum_address(&format!("{}_space", dao_address2)),
    ];

    for row in &space_rows {
        row.validate_personal_space().unwrap();

        let personal_addr = row.personal_address.as_ref().unwrap();
        assert!(
            expected_personal_addresses.contains(personal_addr),
            "Personal address {} not found in expected addresses",
            personal_addr
        );

        assert!(
            expected_space_addresses.contains(&row.space_address),
            "Space address {} not found in expected addresses",
            row.space_address
        );
    }
}

#[test]
fn test_space_indexing_public() {
    let mut storage = Storage::new();
    let mut cache = PropertiesCache::new();

    let dao_address1 = generate_unique_address("2a");
    let dao_address2 = generate_unique_address("2b");
    let spaces = vec![
        make_public_space(&dao_address1),
        make_public_space(&dao_address2),
    ];

    run_blocks(
        &mut storage,
        &mut cache,
        &vec![make_kg_data_with_spaces(2, vec![], spaces)],
    );

    let test_storage = TestStorage::new(storage);
    let dao_addresses = vec![
        checksum_address(&dao_address1),
        checksum_address(&dao_address2),
    ];
    let space_rows = test_storage.get_spaces_by_dao_addresses(&dao_addresses);

    assert_eq!(space_rows.len(), 2);

    let expected_governance_addresses = vec![
        checksum_address(&format!("{}_governance_plugin", dao_address1)),
        checksum_address(&format!("{}_governance_plugin", dao_address2)),
    ];
    let expected_membership_addresses = vec![
        checksum_address(&format!("{}_membership_plugin", dao_address1)),
        checksum_address(&format!("{}_membership_plugin", dao_address2)),
    ];
    let expected_space_addresses = vec![
        checksum_address(&format!("{}_space", dao_address1)),
        checksum_address(&format!("{}_space", dao_address2)),
    ];

    for row in &space_rows {
        row.validate_public_space().unwrap();

        let governance_addr = row.main_voting_address.as_ref().unwrap();
        assert!(
            expected_governance_addresses.contains(governance_addr),
            "Governance address {} not found in expected addresses",
            governance_addr
        );

        let membership_addr = row.membership_address.as_ref().unwrap();
        assert!(
            expected_membership_addresses.contains(membership_addr),
            "Membership address {} not found in expected addresses",
            membership_addr
        );

        assert!(
            expected_space_addresses.contains(&row.space_address),
            "Space address {} not found in expected addresses",
            row.space_address
        );
    }
}

#[test]
fn test_space_indexing_mixed() {
    let mut storage = Storage::new();
    let mut cache = PropertiesCache::new();

    let personal_dao = generate_unique_address("3a");
    let public_dao = generate_unique_address("3b");

    let spaces = vec![
        make_personal_space(&personal_dao),
        make_public_space(&public_dao),
    ];

    run_blocks(
        &mut storage,
        &mut cache,
        &vec![make_kg_data_with_spaces(3, vec![], spaces)],
    );

    let test_storage = TestStorage::new(storage);
    let space_rows = test_storage.get_spaces_by_dao_addresses(&vec![
        checksum_address(&personal_dao),
        checksum_address(&public_dao),
    ]);

    assert_eq!(space_rows.len(), 2);

    let personal_row = space_rows
        .iter()
        .find(|r| r.dao_address == checksum_address(&personal_dao))
        .expect("personal space row should exist");
    personal_row.validate_personal_space().unwrap();

    let public_row = space_rows
        .iter()
        .find(|r| r.dao_address == checksum_address(&public_dao))
        .expect("public space row should exist");
    public_row.validate_public_space().unwrap();
}

#[test]
fn test_space_indexing_empty() {
    let mut storage = Storage::new();
    let mut cache = PropertiesCache::new();

    run_blocks(
        &mut storage,
        &mut cache,
        &vec![make_kg_data_with_spaces(4, vec![], vec![])],
    );

    assert_eq!(storage.spaces.len(), 0);
}

#[test]
fn test_membership_indexing_added_members() {
    let mut storage = Storage::new();
    let mut cache = PropertiesCache::new();

    let dao_address = generate_unique_address("4a");
    let member_address1 = generate_unique_address("4b");
    let member_address2 = generate_unique_address("4c");

    let added_members = vec![
        make_added_member(&dao_address, &member_address1),
        make_added_member(&dao_address, &member_address2),
    ];

    let kg_data = make_kg_data_with_membership(1, added_members, vec![], vec![], vec![]);
    run_blocks(&mut storage, &mut cache, &vec![kg_data]);

    let space_id = space_id_of(&dao_address);
    assert!(storage.has_member(&space_id, &checksum_address(&member_address1)));
    assert!(storage.has_member(&space_id, &checksum_address(&member_address2)));
}

#[test]
fn test_membership_indexing_added_editors() {
    let mut storage = Storage::new();
    let mut cache = PropertiesCache::new();

    let dao_address = generate_unique_address("5a");
    let editor_address1 = generate_unique_address("5b");
    let editor_address2 = generate_unique_address("5c");

    let added_editors = vec![
        make_added_member(&dao_address, &editor_address1),
        make_added_member(&dao_address, &editor_address2),
    ];

    let kg_data = make_kg_data_with_membership(1, vec![], vec![], added_editors, vec![]);
    run_blocks(&mut storage, &mut cache, &vec![kg_data]);

    let space_id = space_id_of(&dao_address);
    assert!(storage.has_editor(&space_id, &checksum_address(&editor_address1)));
    assert!(storage.has_editor(&space_id, &checksum_address(&editor_address2)));
}

#[test]
fn test_membership_indexing_removed_members() {
    let mut storage = Storage::new();
    let mut cache = PropertiesCache::new();

    let dao_address = generate_unique_address("6a");
    let member_address = generate_unique_address("6b");

    let added_members = vec![make_added_member(&dao_address, &member_address)];
    let kg_data_add = make_kg_data_with_membership(1, added_members, vec![], vec![], vec![]);

    let removed_members = vec![make_removed_member(&dao_address, &member_address)];
    let kg_data_remove = make_kg_data_with_membership(2, vec![], removed_members, vec![], vec![]);

    run_blocks(&mut storage, &mut cache, &vec![kg_data_add, kg_data_remove]);

    let space_id = space_id_of(&dao_address);
    assert!(!storage.has_member(&space_id, &checksum_address(&member_address)));
}

#[test]
fn test_membership_indexing_removed_editors() {
    let mut storage = Storage::new();
    let mut cache = PropertiesCache::new();

    let dao_address = generate_unique_address("7a");
    let editor_address = generate_unique_address("7b");

    let added_editors = vec![make_added_member(&dao_address, &editor_address)];
    let kg_data_add = make_kg_data_with_membership(1, vec![], vec![], added_editors, vec![]);

    let removed_editors = vec![make_removed_member(&dao_address, &editor_address)];
    let kg_data_remove = make_kg_data_with_membership(2, vec![], vec![], vec![], removed_editors);

    run_blocks(&mut storage, &mut cache, &vec![kg_data_add, kg_data_remove]);

    let space_id = space_id_of(&dao_address);
    assert!(!storage.has_editor(&space_id, &checksum_address(&editor_address)));
}

#[test]
fn test_membership_indexing_mixed_operations() {
    let mut storage = Storage::new();
    let mut cache = PropertiesCache::new();

    let dao_address = generate_unique_address("8a");
    let member_address1 = generate_unique_address("8b");
    let member_address2 = generate_unique_address("8c");
    let editor_address1 = generate_unique_address("8d");
    let editor_address2 = generate_unique_address("8e");

    let added_members = vec![
        make_added_member(&dao_address, &member_address1),
        make_added_member(&dao_address, &member_address2),
    ];
    let removed_members = vec![make_removed_member(&dao_address, &member_address1)];
    let added_editors = vec![
        make_added_member(&dao_address, &editor_address1),
        make_added_member(&dao_address, &editor_address2),
    ];
    let removed_editors = vec![make_removed_member(&dao_address, &editor_address1)];

    let kg_data = make_kg_data_with_membership(
        1,
        added_members,
        removed_members,
        added_editors,
        removed_editors,
    );
    run_blocks(&mut storage, &mut cache, &vec![kg_data]);

    let space_id = space_id_of(&dao_address);

    assert!(!storage.has_member(&space_id, &checksum_address(&member_address1)));
    assert!(storage.has_member(&space_id, &checksum_address(&member_address2)));

    assert!(!storage.has_editor(&space_id, &checksum_address(&editor_address1)));
    assert!(storage.has_editor(&space_id, &checksum_address(&editor_address2)));
}

#[test]
fn test_membership_indexing_multiple_spaces() {
    let mut storage = Storage::new();
    let mut cache = PropertiesCache::new();

    let dao_address1 = generate_unique_address("9a");
    let dao_address2 = generate_unique_address("9b");
    let member_address = generate_unique_address("9c");
    let editor_address = generate_unique_address("9d");

    let added_members = vec![
        make_added_member(&dao_address1, &member_address),
        make_added_member(&dao_address2, &member_address),
    ];
    let added_editors = vec![
        make_added_member(&dao_address1, &editor_address),
        make_added_member(&dao_address2, &editor_address),
    ];

    let kg_data = make_kg_data_with_membership(1, added_members, vec![], added_editors, vec![]);
    run_blocks(&mut storage, &mut cache, &vec![kg_data]);

    let space_id1 = space_id_of(&dao_address1);
    let space_id2 = space_id_of(&dao_address2);

    assert!(storage.has_member(&space_id1, &checksum_address(&member_address)));
    assert!(storage.has_member(&space_id2, &checksum_address(&member_address)));

    assert!(storage.has_editor(&space_id1, &checksum_address(&editor_address)));
    assert!(storage.has_editor(&space_id2, &checksum_address(&editor_address)));
}

#[test]
fn test_membership_indexing_empty() {
    let mut storage = Storage::new();
    let mut cache = PropertiesCache::new();

    let kg_data = make_kg_data_with_membership(1, vec![], vec![], vec![], vec![]);
    run_blocks(&mut storage, &mut cache, &vec![kg_data]);

    assert_eq!(storage.members.len(), 0);
    assert_eq!(storage.editors.len(), 0);
}

#[test]
fn test_space_indexing_duplicate_dao_addresses() {
    let mut storage = Storage::new();
    let mut cache = PropertiesCache::new();

    let dao_address = generate_unique_address("10");
    let spaces = vec![
        make_personal_space(&dao_address),
        make_public_space(&dao_address),
    ];

    let kg_data = make_kg_data_with_spaces(5, vec![], spaces);
    run_blocks(&mut storage, &mut cache, &vec![kg_data]);

    // Governance wins for the same DAO in one batch.
    let space_id = space_id_of(&dao_address);
    let row = storage.get_space(&space_id).unwrap();
    row.validate_public_space().unwrap();
}

#[test]
fn test_space_indexing_with_edits() {
    let mut storage = Storage::new();
    let mut cache = PropertiesCache::new();

    let property_id = "1cc6995f-6cc2-4c7a-9592-1466bf95f6be";
    let property_op = make_property_op(property_id, PbDataType::Text);

    let edit = make_edit(
        "08c4f093-7858-4b7c-9b94-b82e448abcff",
        "Test Edit",
        "2cc6995f-6cc2-4c7a-9592-1466bf95f6be",
        vec![property_op],
    );

    let item = PreprocessedEdit {
        edit: Some(Rc::new(edit)),
        is_errored: false,
        space_id: uid("3cc6995f-6cc2-4c7a-9592-1466bf95f6be"),
        cid: "".to_string(),
    };

    let spaces = vec![
        make_personal_space(&generate_unique_address("11a")),
        make_public_space(&generate_unique_address("11b")),
    ];

    let kg_data = make_kg_data_with_spaces(6, vec![item], spaces);
    run_blocks(&mut storage, &mut cache, &vec![kg_data]);

    assert_eq!(storage.spaces.len(), 2);
    assert!(storage.get_property(&uid(property_id)).is_some());
}

#[test]
fn test_subspace_indexing_added_subspaces() {
    let mut storage = Storage::new();
    let mut cache = PropertiesCache::new();

    let parent_dao_address = generate_unique_address("12a");
    let subspace_address1 = generate_unique_address("12b");
    let subspace_address2 = generate_unique_address("12c");

    let spaces = vec![
        make_personal_space(&parent_dao_address),
        make_personal_space(&subspace_address1),
        make_personal_space(&subspace_address2),
    ];
    let kg_data_spaces = make_kg_data_with_spaces(1, vec![], spaces);

    let added_subspaces = vec![
        make_added_subspace(&parent_dao_address, &subspace_address1),
        make_added_subspace(&parent_dao_address, &subspace_address2),
    ];
    let kg_data_subspaces = make_kg_data_with_subspaces(2, added_subspaces, vec![]);

    run_blocks(&mut storage, &mut cache, &vec![kg_data_spaces, kg_data_subspaces]);

    let parent = space_id_of(&parent_dao_address);
    assert!(storage.has_subspace(&parent, &space_id_of(&subspace_address1)));
    assert!(storage.has_subspace(&parent, &space_id_of(&subspace_address2)));
}

#[test]
fn test_subspace_indexing_removed_subspaces() {
    let mut storage = Storage::new();
    let mut cache = PropertiesCache::new();

    let parent_dao_address = generate_unique_address("13a");
    let subspace_address = generate_unique_address("13b");

    let spaces = vec![
        make_personal_space(&parent_dao_address),
        make_personal_space(&subspace_address),
    ];
    let kg_data_spaces = make_kg_data_with_spaces(1, vec![], spaces);

    let added_subspaces = vec![make_added_subspace(&parent_dao_address, &subspace_address)];
    let kg_data_add = make_kg_data_with_subspaces(2, added_subspaces, vec![]);

    let removed_subspaces = vec![make_removed_subspace(&parent_dao_address, &subspace_address)];
    let kg_data_remove = make_kg_data_with_subspaces(3, vec![], removed_subspaces);

    run_blocks(
        &mut storage,
        &mut cache,
        &vec![kg_data_spaces, kg_data_add, kg_data_remove],
    );

    let parent = space_id_of(&parent_dao_address);
    assert!(!storage.has_subspace(&parent, &space_id_of(&subspace_address)));
}

#[test]
fn test_subspace_indexing_mixed_operations() {
    let mut storage = Storage::new();
    let mut cache = PropertiesCache::new();

    let parent_dao_address = generate_unique_address("14a");
    let subspace_address1 = generate_unique_address("14b");
    let subspace_address2 = generate_unique_address("14c");
    let subspace_address3 = generate_unique_address("14d");

    let spaces = vec![
        make_personal_space(&parent_dao_address),
        make_personal_space(&subspace_address1),
        make_personal_space(&subspace_address2),
        make_personal_space(&subspace_address3),
    ];
    let kg_data_spaces = make_kg_data_with_spaces(1, vec![], spaces);

    let added_subspaces = vec![
        make_added_subspace(&parent_dao_address, &subspace_address1),
        make_added_subspace(&parent_dao_address, &subspace_address2),
        make_added_subspace(&parent_dao_address, &subspace_address3),
    ];
    let removed_subspaces = vec![make_removed_subspace(&parent_dao_address, &subspace_address1)];
    let kg_data_subspaces = make_kg_data_with_subspaces(2, added_subspaces, removed_subspaces);

    run_blocks(&mut storage, &mut cache, &vec![kg_data_spaces, kg_data_subspaces]);

    let parent = space_id_of(&parent_dao_address);
    assert!(!storage.has_subspace(&parent, &space_id_of(&subspace_address1)));
    assert!(storage.has_subspace(&parent, &space_id_of(&subspace_address2)));
    assert!(storage.has_subspace(&parent, &space_id_of(&subspace_address3)));
}

#[test]
fn test_subspace_indexing_multiple_parents() {
    let mut storage = Storage::new();
    let mut cache = PropertiesCache::new();

    let parent_dao_address1 = generate_unique_address("15a");
    let parent_dao_address2 = generate_unique_address("15b");
    let subspace_address = generate_unique_address("15c");

    let spaces = vec![
        make_personal_space(&parent_dao_address1),
        make_personal_space(&parent_dao_address2),
        make_personal_space(&subspace_address),
    ];
    let kg_data_spaces = make_kg_data_with_spaces(1, vec![], spaces);

    let added_subspaces = vec![
        make_added_subspace(&parent_dao_address1, &subspace_address),
        make_added_subspace(&parent_dao_address2, &subspace_address),
    ];
    let kg_data_subspaces = make_kg_data_with_subspaces(2, added_subspaces, vec![]);

    run_blocks(&mut storage, &mut cache, &vec![kg_data_spaces, kg_data_subspaces]);

    let child = space_id_of(&subspace_address);
    assert!(storage.has_subspace(&space_id_of(&parent_dao_address1), &child));
    assert!(storage.has_subspace(&space_id_of(&parent_dao_address2), &child));
}

#[test]
fn test_subspace_indexing_empty() {
    let mut storage = Storage::new();
    let mut cache = PropertiesCache::new();

    let kg_data = make_kg_data_with_subspaces(1, vec![], vec![]);
    run_blocks(&mut storage, &mut cache, &vec![kg_data]);

    assert_eq!(storage.subspaces.len(), 0);
}

#[test]
fn test_subspace_indexing_with_other_operations() {
    let mut storage = Storage::new();
    let mut cache = PropertiesCache::new();

    let dao_address = generate_unique_address("16a");
    let subspace_address = generate_unique_address("16b");
    let member_address = generate_unique_address("16c");

    let spaces = vec![
        make_personal_space(&dao_address),
        make_personal_space(&subspace_address),
    ];
    let added_subspaces = vec![make_added_subspace(&dao_address, &subspace_address)];
    let added_members = vec![make_added_member(&dao_address, &member_address)];

    let kg_data = KgData {
        block: make_block(1),
        edits: vec![],
        spaces,
        added_members,
        removed_members: vec![],
        added_editors: vec![],
        removed_editors: vec![],
        added_subspaces,
        removed_subspaces: vec![],
        executed_proposals: vec![],
        created_proposals: vec![],
    };
    run_blocks(&mut storage, &mut cache, &vec![kg_data]);

    let space_id = space_id_of(&dao_address);
    assert!(storage.has_subspace(&space_id, &space_id_of(&subspace_address)));
    assert!(storage.has_member(&space_id, &checksum_address(&member_address)));
}

#[test]
fn test_properties_cache_initialization_from_database() {
    let mut storage = Storage::new();
    let mut cache = PropertiesCache::new();

    let test_properties = vec![
        ("11111111-1111-1111-1111-111111111111", DataType::String),
        ("22222222-2222-2222-2222-222222222222", DataType::Number),
        ("33333333-3333-3333-3333-333333333333", DataType::Boolean),
        ("44444444-4444-4444-4444-444444444444", DataType::Time),
        ("55555555-5555-5555-5555-555555555555", DataType::Point),
        ("66666666-6666-6666-6666-666666666666", DataType::Relation),
    ];

    let mut property_ops = Vec::new();
    for (property_id, data_type) in &test_properties {
        let pb_data_type = match data_type {
            DataType::String => PbDataType::Text,
            DataType::Number => PbDataType::Number,
            DataType::Boolean => PbDataType::Checkbox,
            DataType::Time => PbDataType::Time,
            DataType::Point => PbDataType::Point,
            DataType::Relation => PbDataType::Relation,
        };
        property_ops.push(make_property_op(property_id, pb_data_type));
    }

    let edit = make_edit(
        "77777777-7777-7777-7777-777777777777",
        "Properties Cache Test Edit",
        "88888888-8888-8888-8888-888888888888",
        property_ops,
    );

    let item = PreprocessedEdit {
        edit: Some(Rc::new(edit)),
        is_errored: false,
        space_id: uid("99999999-9999-9999-9999-999999999999"),
        cid: "".to_string(),
    };

    let kg_data = make_kg_data_with_spaces(1, vec![item], vec![]);
    run_blocks(&mut storage, &mut cache, &vec![kg_data]);

    for (property_id, expected_data_type) in &test_properties {
        let property = storage.get_property(&uid(property_id)).unwrap();
        assert_eq!(property.data_type, *expected_data_type);
    }

    let initialized_cache = PropertiesCache::from_storage(&storage);

    for (property_id, expected_data_type) in &test_properties {
        let cached_data_type = initialized_cache.get(&uid(property_id)).unwrap();
        assert_eq!(
            cached_data_type, *expected_data_type,
            "Property {} should have data type {:?} in the cache",
            property_id, expected_data_type
        );
    }

    let non_existent_id = uid("aaaaaaaa-aaaa-aaaa-aaaa-aaaaaaaaaaaa");
    assert!(initialized_cache.get(&non_existent_id).is_none());

    let empty_cache = PropertiesCache::from_storage(&Storage::new());
    assert!(empty_cache.get(&uid(test_properties[0].0)).is_none());
}

#[test]
fn test_proposals_indexing() {
    let mut storage = Storage::new();
    let mut cache = PropertiesCache::new();

    let space_dao_address = "0x1234567890123456789012345678901234567890".to_string();
    let space_id = space_id_of(&space_dao_address);
    let proposal_id = "550e8400-e29b-41d4-a716-446655440001".to_string();
    let creator_address = "0xabcdef1234567890abcdef1234567890abcdef12".to_string();
    let member_address = "0x9876543210987654321098765432109876543210".to_string();

    let test_space = CreatedSpace::Public(PublicSpace {
        dao_address: space_dao_address.clone(),
        space_address: "0x1111111111111111111111111111111111111111".to_string(),
        membership_plugin: "0x2222222222222222222222222222222222222222".to_string(),
        governance_plugin: "0x3333333333333333333333333333333333333333".to_string(),
    });

    let publish_edit_proposal = ProposalCreated::PublishEdit {
        proposal_id: proposal_id.clone(),
        creator: creator_address.clone(),
        start_time: "1234567890".to_string(),
        end_time: "1234567999".to_string(),
        content_uri: "ipfs://QmTest123".to_string(),
        dao_address: space_dao_address.clone(),
        plugin_address: "0x4444444444444444444444444444444444444444".to_string(),
        edit_id: None,
    };

    let add_member_proposal = ProposalCreated::AddMember {
        id: kg_indexer::ids::derive_proposal_id(
            &space_dao_address,
            "550e8400-e29b-41d4-a716-446655440002",
            "0x4444444444444444444444444444444444444444",
        ),
        proposal_id: "550e8400-e29b-41d4-a716-446655440002".to_string(),
        creator: creator_address.clone(),
        start_time: "1234567890".to_string(),
        end_time: "1234567999".to_string(),
        member: member_address.clone(),
        dao_address: space_dao_address.clone(),
        plugin_address: "0x4444444444444444444444444444444444444444".to_string(),
        change_type: "add".to_string(),
    };

    let kg_data = KgData {
        block: BlockMetadata {
            cursor: String::from("1"),
            block_number: 100,
            timestamp: String::from("1234567890"),
        },
        edits: vec![],
        spaces: vec![test_space],
        added_editors: vec![],
        added_members: vec![],
        removed_editors: vec![],
        removed_members: vec![],
        added_subspaces: vec![],
        removed_subspaces: vec![],
        executed_proposals: vec![],
        created_proposals: vec![publish_edit_proposal, add_member_proposal],
    };

    run_blocks(&mut storage, &mut cache, &vec![kg_data]);

    let test_storage = TestStorage::new(storage);
    let proposals = test_storage.get_proposals_by_space(&space_id);
    assert_eq!(proposals.len(), 2, "Should have 2 proposals");

    let publish_proposal = proposals
        .iter()
        .find(|p| p.id == uid(&proposal_id))
        .expect("Publish edit proposal should exist");
    assert_eq!(publish_proposal.proposal_type, ProposalType::PublishEdit);
    assert_eq!(publish_proposal.creator, checksum_address(&creator_address));
    assert_eq!(publish_proposal.status, ProposalStatus::Created);
    assert_eq!(
        publish_proposal.content_uri.as_ref().unwrap(),
        "ipfs://QmTest123"
    );
    assert!(publish_proposal.address.is_none());

    let member_proposal = proposals
        .iter()
        .find(|p| p.proposal_type == ProposalType::AddMember)
        .expect("Add member proposal should exist");
    assert_eq!(member_proposal.creator, checksum_address(&creator_address));
    assert_eq!(member_proposal.status, ProposalStatus::Created);
    assert!(member_proposal.content_uri.is_none());
    assert_eq!(
        member_proposal.address.as_ref().unwrap(),
        &checksum_address(&member_address)
    );
}

#[test]
fn test_executed_proposals() {
    let mut storage = Storage::new();
    let mut cache = PropertiesCache::new();

    let space_dao_address = "0x1234567890123456789012345678901234567890".to_string();
    let space_id = space_id_of(&space_dao_address);
    let proposal_id = "550e8400-e29b-41d4-a716-446655440003".to_string();

    let test_space = CreatedSpace::Public(PublicSpace {
        dao_address: space_dao_address.clone(),
        space_address: "0x1111111111111111111111111111111111111111".to_string(),
        membership_plugin: "0x2222222222222222222222222222222222222222".to_string(),
        governance_plugin: "0x3333333333333333333333333333333333333333".to_string(),
    });

    let created_proposal = ProposalCreated::PublishEdit {
        proposal_id: proposal_id.clone(),
        creator: "0xabcdef1234567890abcdef1234567890abcdef12".to_string(),
        start_time: "1234567890".to_string(),
        end_time: "1234567999".to_string(),
        content_uri: "ipfs://QmTest123".to_string(),
        dao_address: space_dao_address.clone(),
        plugin_address: "0x4444444444444444444444444444444444444444".to_string(),
        edit_id: None,
    };

    let create_kg_data = KgData {
        block: BlockMetadata {
            cursor: String::from("1"),
            block_number: 100,
            timestamp: String::from("1234567890"),
        },
        edits: vec![],
        spaces: vec![test_space],
        added_editors: vec![],
        added_members: vec![],
        removed_editors: vec![],
        removed_members: vec![],
        added_subspaces: vec![],
        removed_subspaces: vec![],
        executed_proposals: vec![],
        created_proposals: vec![created_proposal],
    };

    run_blocks(&mut storage, &mut cache, &vec![create_kg_data]);

    {
        let test_storage = TestStorage::new(storage);
        let proposals = test_storage.get_proposals_by_space(&space_id);
        assert_eq!(proposals.len(), 1);
        assert_eq!(proposals[0].status, ProposalStatus::Created);
        storage = test_storage.into_storage();
    }

    let executed_proposal = ExecutedProposal {
        proposal_id: proposal_id.clone(),
        plugin_address: "0x4444444444444444444444444444444444444444".to_string(),
    };

    let execute_kg_data = KgData {
        block: BlockMetadata {
            cursor: String::from("2"),
            block_number: 101,
            timestamp: String::from("1234567891"),
        },
        edits: vec![],
        spaces: vec![],
        added_editors: vec![],
        added_members: vec![],
        removed_editors: vec![],
        removed_members: vec![],
        added_subspaces: vec![],
        removed_subspaces: vec![],
        executed_proposals: vec![executed_proposal],
        created_proposals: vec![],
    };

    run_blocks(&mut storage, &mut cache, &vec![execute_kg_data]);

    let test_storage = TestStorage::new(storage);
    let proposal = test_storage.get_proposal_by_id(&uid(&proposal_id)).unwrap();
    assert_eq!(proposal.status, ProposalStatus::Executed);
}
