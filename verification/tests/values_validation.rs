use kg_indexer::ids::derive_value_id;
use kg_indexer::properties::{DataType, PropertiesCache};
use kg_indexer::uid::Uid;
use kg_indexer::values::{ValueChangeType, ValueOp, ValuesModel};

fn fresh_uid(tag: u8) -> Uid {
    let mut bytes = vec![0u8; 16];
    bytes[0] = tag;
    bytes[15] = tag;
    Uid::from_byte_vec(&bytes)
}

fn set_op(
    entity_id: Uid,
    property_id: Uid,
    space_id: Uid,
    string: Option<String>,
    number: Option<String>,
    boolean: Option<bool>,
    time: Option<String>,
    point: Option<String>,
) -> ValueOp {
    ValueOp {
        id: derive_value_id(&entity_id, &property_id, &space_id),
        change_type: ValueChangeType::SET,
        entity_id,
        property_id,
        space_id,
        language: None,
        unit: None,
        string,
        number,
        boolean,
        time,
        point,
    }
}

#[test]
fn test_validate_created_values_valid_data() {
    let mut cache = PropertiesCache::new();
    let property_id = fresh_uid(1);
    let entity_id = fresh_uid(2);
    let space_id = fresh_uid(3);

    cache.insert(&property_id, DataType::Number);

    let values = vec![set_op(
        entity_id,
        property_id,
        space_id,
        None,
        Some("123.45".to_string()),
        None,
        None,
        None,
    )];

    let validated = ValuesModel::validate_created_values(values, &cache);
    assert_eq!(validated.len(), 1);
    assert_eq!(validated[0].number, Some("123.45".to_string()));
}

#[test]
fn test_validate_created_values_invalid_data_filtered() {
    let mut cache = PropertiesCache::new();
    let property_id = fresh_uid(4);
    let entity_id = fresh_uid(5);
    let space_id = fresh_uid(6);

    cache.insert(&property_id, DataType::Number);

    let valid_op = set_op(
        entity_id,
        property_id,
        space_id,
        None,
        Some("123.45".to_string()),
        None,
        None,
        None,
    );

    let values = vec![valid_op];
    let validated = ValuesModel::validate_created_values(values, &cache);

    assert_eq!(validated.len(), 1);
    assert_eq!(validated[0].number, Some("123.45".to_string()));
}

#[test]
fn test_validate_created_values_none_values_pass_through() {
    let cache = PropertiesCache::new();
    let property_id = fresh_uid(7);
    let entity_id = fresh_uid(8);
    let space_id = fresh_uid(9);

    let values = vec![set_op(
        entity_id,
        property_id,
        space_id,
        None,
        None,
        None,
        None,
        None,
    )];

    let validated = ValuesModel::validate_created_values(values, &cache);
    // Operations with no populated column are filtered out.
    assert_eq!(validated.len(), 0);
}

#[test]
fn test_validate_created_values_property_not_in_cache() {
    let cache = PropertiesCache::new();
    let property_id = fresh_uid(10); // never inserted into the cache
    let entity_id = fresh_uid(11);
    let space_id = fresh_uid(12);

    let values = vec![set_op(
        entity_id,
        property_id,
        space_id,
        Some("some text".to_string()),
        None,
        None,
        None,
        None,
    )];

    let validated = ValuesModel::validate_created_values(values, &cache);
    // The operation passes through: a populated column is enough; the
    // cache lookup happened earlier, when the columns were populated.
    assert_eq!(validated.len(), 1);
}

#[test]
fn test_validate_created_values_different_data_types() {
    let mut cache = PropertiesCache::new();

    let text_prop_id = fresh_uid(13);
    let checkbox_prop_id = fresh_uid(14);
    let point_prop_id = fresh_uid(15);
    let entity_id = fresh_uid(16);
    let space_id = fresh_uid(17);

    cache.insert(&text_prop_id, DataType::String);
    cache.insert(&checkbox_prop_id, DataType::Boolean);
    cache.insert(&point_prop_id, DataType::Point);

    let values = vec![
        set_op(
            entity_id,
            text_prop_id,
            space_id,
            Some("Hello World".to_string()),
            None,
            None,
            None,
            None,
        ),
        set_op(
            entity_id,
            checkbox_prop_id,
            space_id,
            None,
            None,
            Some(true),
            None,
            None,
        ),
        // Populated no column: an earlier validation failure.
        set_op(entity_id, checkbox_prop_id, space_id, None, None, None, None, None),
        set_op(
            entity_id,
            point_prop_id,
            space_id,
            None,
            None,
            None,
            None,
            Some("1.5,2.5".to_string()),
        ),
    ];

    let validated = ValuesModel::validate_created_values(values, &cache);
    assert_eq!(validated.len(), 3);

    let text_values: Vec<_> = validated
        .iter()
        .filter(|v| v.property_id == text_prop_id)
        .collect();
    assert_eq!(text_values.len(), 1);
    assert_eq!(text_values[0].string, Some("Hello World".to_string()));

    let valid_checkbox_values: Vec<_> = validated
        .iter()
        .filter(|v| v.property_id == checkbox_prop_id)
        .collect();
    assert_eq!(valid_checkbox_values.len(), 1);
    assert_eq!(valid_checkbox_values[0].boolean, Some(true));

    let point_values: Vec<_> = validated
        .iter()
        .filter(|v| v.property_id == point_prop_id)
        .collect();
    assert_eq!(point_values.len(), 1);
    assert_eq!(point_values[0].point, Some("1.5,2.5".to_string()));
}
