use kg_indexer::ids::{checksum_address, derive_proposal_id, derive_space_id, derive_value_id};
use kg_indexer::uid::{transform_id_bytes, Uid};

fn nil() -> Uid {
    Uid::nil()
}

#[test]
fn test_derive_space_id_deterministic() {
    let network = "mainnet";
    let dao_address = "0x1234567890123456789012345678901234567890";

    let id1 = derive_space_id(network, dao_address);
    let id2 = derive_space_id(network, dao_address);

    assert_eq!(id1, id2, "Same inputs should produce same UUID");
}

#[test]
fn test_derive_space_id_different_networks() {
    let dao_address = "0x1234567890123456789012345678901234567890";

    let id1 = derive_space_id("mainnet", dao_address);
    let id2 = derive_space_id("testnet", dao_address);

    assert_ne!(id1, id2, "Different networks should produce different UUIDs");
}

#[test]
fn test_derive_space_id_different_dao_addresses() {
    let network = "mainnet";

    let id1 = derive_space_id(network, "0x1234567890123456789012345678901234567890");
    let id2 = derive_space_id(network, "0x1234567890123456789012345678901234567891");

    assert_ne!(id1, id2, "Different DAO addresses should produce different UUIDs");
}

#[test]
fn test_derive_space_id_address_normalization() {
    let network = "mainnet";

    let id1 = derive_space_id(network, "0x1234567890123456789012345678901234567890");
    let id2 = derive_space_id(network, "0x1234567890123456789012345678901234567890");

    assert_eq!(id1, id2, "Same addresses should produce same UUID regardless of case");
}

#[test]
fn test_derive_space_id_edge_cases() {
    let id1 = derive_space_id("", "0x1234567890123456789012345678901234567890");

    let id2 = derive_space_id("a", "0x1234567890123456789012345678901234567890");

    let long_network = "very_long_network_name_that_might_cause_issues_if_not_handled_properly";
    let id3 = derive_space_id(long_network, "0x1234567890123456789012345678901234567890");

    assert_ne!(id1, id2, "Empty network and short network should produce different UUIDs");
    assert_ne!(id1, id3, "Empty network and long network should produce different UUIDs");
    assert_ne!(id2, id3, "Short network and long network should produce different UUIDs");
}

#[test]
fn test_derive_space_id_collision_resistance() {
    let network1 = "mainnet";
    let network2 = "testnet";
    let dao_address = "0x1234567890123456789012345678901234567890";

    let id1 = derive_space_id(network1, dao_address);
    let id2 = derive_space_id(network2, dao_address);

    assert_ne!(id1, id2, "Different networks should produce different UUIDs");

    let id3 = derive_space_id("main", "0x1234567890123456789012345678901234567890");
    let id4 = derive_space_id("mainnet", "0x1234567890123456789012345678901234567890");

    assert_ne!(id3, id4, "Different network lengths should not collide");
}

#[test]
fn test_derive_space_id_known_output() {
    let network = "ethereum";
    let dao_address = "0xabcdefabcdefabcdefabcdefabcdefabcdefabcd";

    let id = derive_space_id(network, dao_address);

    assert_ne!(id, nil(), "Generated UUID should not be nil");

    let id_again = derive_space_id(network, dao_address);
    assert_eq!(id, id_again, "Should produce identical UUID for identical inputs");
}

#[test]
fn test_derive_space_id_vs_proposal_id_different() {
    let dao_address = "0x1234567890123456789012345678901234567890";
    let network = "mainnet";
    let proposal_id = "mainnet";
    let plugin_address = dao_address;

    let space_id = derive_space_id(network, dao_address);
    let proposal_uuid = derive_proposal_id(dao_address, proposal_id, plugin_address);

    assert_ne!(
        space_id, proposal_uuid,
        "Space ID and proposal ID should be different even with similar inputs"
    );
}

#[test]
fn test_derive_proposal_id_deterministic() {
    let dao_address = "0x1234567890123456789012345678901234567890";
    let proposal_id = "123";
    let plugin_address = "0xabcdefabcdefabcdefabcdefabcdefabcdefabcd";

    let id1 = derive_proposal_id(dao_address, proposal_id, plugin_address);
    let id2 = derive_proposal_id(dao_address, proposal_id, plugin_address);

    assert_eq!(id1, id2, "Same inputs should produce same UUID");
}

#[test]
fn test_derive_proposal_id_different_proposal_ids() {
    let dao_address = "0x1234567890123456789012345678901234567890";
    let plugin_address = "0xabcdefabcdefabcdefabcdefabcdefabcdefabcd";

    let id1 = derive_proposal_id(dao_address, "123", plugin_address);
    let id2 = derive_proposal_id(dao_address, "124", plugin_address);

    assert_ne!(id1, id2, "Different proposal IDs should produce different UUIDs");
}

#[test]
fn test_derive_proposal_id_different_dao_addresses() {
    let proposal_id = "123";
    let plugin_address = "0xabcdefabcdefabcdefabcdefabcdefabcdefabcd";

    let id1 = derive_proposal_id(
        "0x1234567890123456789012345678901234567890",
        proposal_id,
        plugin_address,
    );
    let id2 = derive_proposal_id(
        "0x1234567890123456789012345678901234567891",
        proposal_id,
        plugin_address,
    );

    assert_ne!(id1, id2, "Different DAO addresses should produce different UUIDs");
}

#[test]
fn test_derive_proposal_id_different_plugin_addresses() {
    let dao_address = "0x1234567890123456789012345678901234567890";
    let proposal_id = "123";

    let id1 = derive_proposal_id(
        dao_address,
        proposal_id,
        "0xabcdefabcdefabcdefabcdefabcdefabcdefabcd",
    );
    let id2 = derive_proposal_id(
        dao_address,
        proposal_id,
        "0xabcdefabcdefabcdefabcdefabcdefabcdefabce",
    );

    assert_ne!(id1, id2, "Different plugin addresses should produce different UUIDs");
}

#[test]
fn test_derive_proposal_id_case_insensitive_addresses() {
    let proposal_id = "123";
    let plugin_address = "0xabcdefabcdefabcdefabcdefabcdefabcdefabcd";

    let id1 = derive_proposal_id(
        "0x1234567890123456789012345678901234567890",
        proposal_id,
        plugin_address,
    );
    let id2 = derive_proposal_id(
        "0x1234567890123456789012345678901234567890",
        proposal_id,
        plugin_address,
    );

    assert_eq!(id1, id2, "Same addresses should produce same UUID regardless of case");
}

#[test]
fn test_derive_proposal_id_edge_cases() {
    let id1 = derive_proposal_id(
        "0x1234567890123456789012345678901234567890",
        "",
        "0xabcdefabcdefabcdefabcdefabcdefabcdefabcd",
    );

    let long_proposal_id = "123456789012345678901234567890123456789012345678901234567890";
    let id2 = derive_proposal_id(
        "0x1234567890123456789012345678901234567890",
        long_proposal_id,
        "0xabcdefabcdefabcdefabcdefabcdefabcdefabcd",
    );

    assert_ne!(id1, id2, "Empty and long proposal IDs should produce different UUIDs");
}

#[test]
fn test_derive_proposal_id_collision_resistance() {
    let dao1 = "0x1234567890123456789012345678901234567890";
    let plugin1 = "0xabcdefabcdefabcdefabcdefabcdefabcdefabcd";
    let proposal_id = "123";

    let id1 = derive_proposal_id(dao1, proposal_id, plugin1);
    let id2 = derive_proposal_id(plugin1, proposal_id, dao1);

    assert_ne!(
        id1, id2,
        "Swapping DAO and plugin addresses should produce different UUIDs"
    );
}

#[test]
fn test_derive_proposal_id_known_output() {
    let dao_address = "0x1234567890123456789012345678901234567890";
    let proposal_id = "42";
    let plugin_address = "0xabcdefabcdefabcdefabcdefabcdefabcdefabcd";

    let id = derive_proposal_id(dao_address, proposal_id, plugin_address);

    assert_ne!(id, nil(), "Generated UUID should not be nil");

    let id_again = derive_proposal_id(dao_address, proposal_id, plugin_address);
    assert_eq!(id, id_again, "Should produce identical UUID for identical inputs");
}

#[test]
fn derive_space_id_exact_value() {
    // A digit-only address checksums to itself, so the seed is fixed
    // and the id is the MD5 of "geo:<address>" in UUIDv4 form.
    let id = derive_space_id("geo", "0x1234567890123456789012345678901234567890");
    assert_eq!(
        id,
        Uid::parse_str("7e61bd67-b4a8-4f50-9dbd-a25905a65456").unwrap()
    );
}

#[test]
fn derive_proposal_id_exact_value() {
    let id = derive_proposal_id(
        "0x1234567890123456789012345678901234567890",
        "42",
        "0x4444444444444444444444444444444444444444",
    );
    assert_eq!(
        id,
        Uid::parse_str("ba07499a-189d-4630-afd7-47d40d072adb").unwrap()
    );
}

#[test]
fn derive_value_id_exact_value() {
    let e = Uid::parse_str("550e8400-e29b-41d4-a716-446655440001").unwrap();
    let p = Uid::parse_str("6ba7b810-9dad-11d1-80b4-00c04fd430c2").unwrap();
    let s = Uid::parse_str("550e8400-e29b-41d4-a716-446655440007").unwrap();
    let id = derive_value_id(&e, &p, &s);
    assert_eq!(
        id,
        Uid::parse_str("480fad88-7e7c-4dad-9744-4a6020276e1a").unwrap()
    );
}

#[test]
fn derive_space_id_case_insensitive_runtime() {
    let lower = derive_space_id("geo", "0xabcdefabcdefabcdefabcdefabcdefabcdefabcd");
    let upper = derive_space_id("geo", "0xABCDEFABCDEFABCDEFABCDEFABCDEFABCDEFABCD");
    assert_eq!(lower, upper);
}

#[test]
fn checksum_address_known_vector() {
    // The canonical mixed-case form of this address, fixed by the
    // checksum scheme itself.
    assert_eq!(
        checksum_address("0x5aaeb6053f3e94c9b9a09f33669435e7ef1beaed"),
        "0x5aAeb6053F3E94C9b9A09f33669435E7Ef1BeAed"
    );
    // Re-encoding the checksummed form gives it back unchanged.
    assert_eq!(
        checksum_address("0x5aAeb6053F3E94C9b9A09f33669435E7Ef1BeAed"),
        "0x5aAeb6053F3E94C9b9A09f33669435E7Ef1BeAed"
    );
}

#[test]
fn transform_id_bytes_roundtrip() {
    let bytes: Vec<u8> = (1u8..=16u8).collect();
    let arr = transform_id_bytes(bytes.clone()).unwrap();
    assert_eq!(arr.to_vec(), bytes);
    let id = Uid::from_bytes(&arr);
    assert_eq!(id.to_bytes(), bytes);
}

#[test]
fn transform_id_bytes_rejects_other_lengths() {
    assert!(transform_id_bytes(vec![]).is_err());
    assert!(transform_id_bytes(vec![1, 2, 3]).is_err());
    assert!(transform_id_bytes((1u8..=15u8).collect()).is_err());
    assert!(transform_id_bytes((1u8..=17u8).collect()).is_err());
}

#[test]
fn parse_str_accepts_both_layouts() {
    let hyphenated = Uid::parse_str("550e8400-e29b-41d4-a716-446655440001").unwrap();
    let plain = Uid::parse_str("550e8400e29b41d4a716446655440001").unwrap();
    assert_eq!(hyphenated, plain);

    let upper = Uid::parse_str("550E8400-E29B-41D4-A716-446655440001").unwrap();
    assert_eq!(hyphenated, upper);

    assert!(Uid::parse_str("not-a-uuid").is_none());
    assert!(Uid::parse_str("550e8400-e29b-41d4-a716-44665544000").is_none());
    assert!(Uid::parse_str("550e8400-e29b-41d4-a716-4466554400012").is_none());
    assert!(Uid::parse_str("550e8400e29b41d4a71644665544000g").is_none());
}

#[test]
fn value_id_ignores_content() {
    // The synthetic value id depends on the triple alone: deriving it
    // before and after a value's content changes gives the same id, and
    // changing any leg of the triple changes it.
    let e = Uid::parse_str("550e8400-e29b-41d4-a716-446655440001").unwrap();
    let p = Uid::parse_str("6ba7b810-9dad-11d1-80b4-00c04fd430c2").unwrap();
    let s1 = Uid::parse_str("550e8400-e29b-41d4-a716-446655440007").unwrap();
    let s2 = Uid::parse_str("550e8400-e29b-41d4-a716-446655440008").unwrap();

    assert_eq!(derive_value_id(&e, &p, &s1), derive_value_id(&e, &p, &s1));
    assert_ne!(derive_value_id(&e, &p, &s1), derive_value_id(&e, &p, &s2));
    assert_ne!(derive_value_id(&e, &p, &s1), derive_value_id(&p, &e, &s1));
}

#[test]
fn parse_str_accepts_braced_and_urn_layouts() {
    let plain = Uid::parse_str("550e8400-e29b-41d4-a716-446655440001").unwrap();

    let braced = Uid::parse_str("{550e8400-e29b-41d4-a716-446655440001}").unwrap();
    assert_eq!(plain, braced);

    let urn = Uid::parse_str("urn:uuid:550e8400-e29b-41d4-a716-446655440001").unwrap();
    assert_eq!(plain, urn);

    let urn_upper = Uid::parse_str("URN:UUID:550e8400-e29b-41d4-a716-446655440001").unwrap();
    assert_eq!(plain, urn_upper);

    assert!(Uid::parse_str("{550e8400-e29b-41d4-a716-446655440001").is_none());
    assert!(Uid::parse_str("550e8400-e29b-41d4-a716-446655440001}").is_none());
    assert!(Uid::parse_str("arn:uuid:550e8400-e29b-41d4-a716-446655440001").is_none());
    assert!(Uid::parse_str("{550e8400e29b41d4a716446655440001extra}").is_none());
}
