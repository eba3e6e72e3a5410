use std::rc::Rc;

use kg_indexer::chain::{AddMemberProposalCreated, GeoOutput, PublishEditProposalCreated};
use kg_indexer::edit::{Edit, PreprocessedEdit};
use kg_indexer::preprocess::{map_created_proposals, CacheMap};
use kg_indexer::proposals::ProposalsModel;
use kg_indexer::uid::Uid;
use kg_indexer::ProposalCreated;

fn create_test_edit(id_bytes: Vec<u8>) -> Edit {
    Edit {
        id: id_bytes,
        name: "Test Edit".to_string(),
        ops: vec![],
        authors: vec![],
        language: None,
    }
}

fn create_test_proposal_created_event(
    proposal_id: &str,
    content_uri: &str,
) -> PublishEditProposalCreated {
    PublishEditProposalCreated {
        proposal_id: proposal_id.to_string(),
        creator: "0x1234567890123456789012345678901234567890".to_string(),
        start_time: "1000000000".to_string(),
        end_time: "2000000000".to_string(),
        content_uri: content_uri.to_string(),
        dao_address: "0xdao1234567890123456789012345678901234567890".to_string(),
        plugin_address: "0xplugin1234567890123456789012345678901234567890".to_string(),
    }
}

fn fresh_space_id(tag: u8) -> Uid {
    let mut bytes = vec![0u8; 16];
    bytes[15] = tag;
    Uid::from_byte_vec(&bytes)
}

#[test]
fn test_map_created_proposals_with_cache_success() {
    let edit_id_bytes = vec![
        0x01, 0x02, 0x03, 0x04, 0x05, 0x06, 0x07, 0x08, 0x09, 0x0a, 0x0b, 0x0c, 0x0d, 0x0e, 0x0f,
        0x10,
    ];
    let test_edit = create_test_edit(edit_id_bytes.clone());

    let preprocessed_edit = PreprocessedEdit {
        cid: "ipfs://QmTest123".to_string(),
        edit: Some(Rc::new(test_edit)),
        is_errored: false,
        space_id: fresh_space_id(1),
    };

    let mut cache_map = CacheMap::new();
    cache_map.insert("ipfs://QmTest123".to_string(), preprocessed_edit);

    let mut geo = GeoOutput::empty();
    geo.edits = vec![create_test_proposal_created_event(
        "proposal123",
        "ipfs://QmTest123",
    )];

    let result = map_created_proposals(&geo, &cache_map);

    assert_eq!(result.len(), 1);

    if let ProposalCreated::PublishEdit {
        edit_id,
        content_uri,
        proposal_id,
        ..
    } = &result[0]
    {
        assert_eq!(content_uri, "ipfs://QmTest123");
        assert_eq!(proposal_id, "proposal123");
        assert!(edit_id.is_some(), "Edit ID should be extracted from cache");

        let expected = Uid::from_byte_vec(&edit_id_bytes);
        assert_eq!(edit_id.unwrap(), expected);
    } else {
        panic!("Expected PublishEdit proposal");
    }
}

#[test]
fn test_map_created_proposals_with_cache_not_found() {
    let cache_map = CacheMap::new();

    let mut geo = GeoOutput::empty();
    geo.edits = vec![create_test_proposal_created_event(
        "proposal123",
        "ipfs://QmNotFound",
    )];

    let result = map_created_proposals(&geo, &cache_map);

    assert_eq!(result.len(), 1);

    if let ProposalCreated::PublishEdit {
        edit_id,
        content_uri,
        proposal_id,
        ..
    } = &result[0]
    {
        assert_eq!(content_uri, "ipfs://QmNotFound");
        assert_eq!(proposal_id, "proposal123");
        assert!(
            edit_id.is_none(),
            "Edit ID should be None when cache miss occurs"
        );
    } else {
        panic!("Expected PublishEdit proposal");
    }
}

#[test]
fn test_map_created_proposals_with_errored_cache_entry() {
    let preprocessed_edit = PreprocessedEdit {
        cid: "ipfs://QmErrored".to_string(),
        edit: None,
        is_errored: true,
        space_id: fresh_space_id(2),
    };

    let mut cache_map = CacheMap::new();
    cache_map.insert("ipfs://QmErrored".to_string(), preprocessed_edit);

    let mut geo = GeoOutput::empty();
    geo.edits = vec![create_test_proposal_created_event(
        "proposal123",
        "ipfs://QmErrored",
    )];

    let result = map_created_proposals(&geo, &cache_map);

    assert_eq!(result.len(), 1);

    if let ProposalCreated::PublishEdit {
        edit_id,
        content_uri,
        proposal_id,
        ..
    } = &result[0]
    {
        assert_eq!(content_uri, "ipfs://QmErrored");
        assert_eq!(proposal_id, "proposal123");
        assert!(
            edit_id.is_none(),
            "Edit ID should be None when cache entry is errored"
        );
    } else {
        panic!("Expected PublishEdit proposal");
    }
}

#[test]
fn test_map_created_proposals_with_invalid_edit_id() {
    let invalid_edit_id_bytes = vec![0x01, 0x02, 0x03];
    let test_edit = create_test_edit(invalid_edit_id_bytes);

    let preprocessed_edit = PreprocessedEdit {
        cid: "ipfs://QmInvalidId".to_string(),
        edit: Some(Rc::new(test_edit)),
        is_errored: false,
        space_id: fresh_space_id(3),
    };

    let mut cache_map = CacheMap::new();
    cache_map.insert("ipfs://QmInvalidId".to_string(), preprocessed_edit);

    let mut geo = GeoOutput::empty();
    geo.edits = vec![create_test_proposal_created_event(
        "proposal123",
        "ipfs://QmInvalidId",
    )];

    let result = map_created_proposals(&geo, &cache_map);

    assert_eq!(result.len(), 1);

    if let ProposalCreated::PublishEdit {
        edit_id,
        content_uri,
        proposal_id,
        ..
    } = &result[0]
    {
        assert_eq!(content_uri, "ipfs://QmInvalidId");
        assert_eq!(proposal_id, "proposal123");
        assert!(
            edit_id.is_none(),
            "Edit ID should be None when transformation fails"
        );
    } else {
        panic!("Expected PublishEdit proposal");
    }
}

#[test]
fn test_map_created_proposals_concurrent_cache_reads() {
    let edit_id_bytes_1 = vec![
        0x01, 0x02, 0x03, 0x04, 0x05, 0x06, 0x07, 0x08, 0x09, 0x0a, 0x0b, 0x0c, 0x0d, 0x0e, 0x0f,
        0x10,
    ];
    let edit_id_bytes_2 = vec![
        0x11, 0x12, 0x13, 0x14, 0x15, 0x16, 0x17, 0x18, 0x19, 0x1a, 0x1b, 0x1c, 0x1d, 0x1e, 0x1f,
        0x20,
    ];

    let test_edit_1 = create_test_edit(edit_id_bytes_1.clone());
    let test_edit_2 = create_test_edit(edit_id_bytes_2.clone());

    let preprocessed_edit_1 = PreprocessedEdit {
        cid: "ipfs://QmTest1".to_string(),
        edit: Some(Rc::new(test_edit_1)),
        is_errored: false,
        space_id: fresh_space_id(4),
    };
    let preprocessed_edit_2 = PreprocessedEdit {
        cid: "ipfs://QmTest2".to_string(),
        edit: Some(Rc::new(test_edit_2)),
        is_errored: false,
        space_id: fresh_space_id(5),
    };

    let mut cache_map = CacheMap::new();
    cache_map.insert("ipfs://QmTest1".to_string(), preprocessed_edit_1);
    cache_map.insert("ipfs://QmTest2".to_string(), preprocessed_edit_2);

    let mut geo = GeoOutput::empty();
    geo.edits = vec![
        create_test_proposal_created_event("proposal1", "ipfs://QmTest1"),
        create_test_proposal_created_event("proposal2", "ipfs://QmTest2"),
        create_test_proposal_created_event("proposal3", "ipfs://QmNotFound"),
    ];

    let result = map_created_proposals(&geo, &cache_map);

    assert_eq!(result.len(), 3);

    if let ProposalCreated::PublishEdit {
        edit_id,
        content_uri,
        proposal_id,
        ..
    } = &result[0]
    {
        assert_eq!(content_uri, "ipfs://QmTest1");
        assert_eq!(proposal_id, "proposal1");
        assert!(edit_id.is_some());
        let expected_1 = Uid::from_byte_vec(&edit_id_bytes_1);
        assert_eq!(edit_id.unwrap(), expected_1);
    } else {
        panic!("Expected PublishEdit proposal");
    }

    if let ProposalCreated::PublishEdit {
        edit_id,
        content_uri,
        proposal_id,
        ..
    } = &result[1]
    {
        assert_eq!(content_uri, "ipfs://QmTest2");
        assert_eq!(proposal_id, "proposal2");
        assert!(edit_id.is_some());
        let expected_2 = Uid::from_byte_vec(&edit_id_bytes_2);
        assert_eq!(edit_id.unwrap(), expected_2);
    } else {
        panic!("Expected PublishEdit proposal");
    }

    if let ProposalCreated::PublishEdit {
        edit_id,
        content_uri,
        proposal_id,
        ..
    } = &result[2]
    {
        assert_eq!(content_uri, "ipfs://QmNotFound");
        assert_eq!(proposal_id, "proposal3");
        assert!(edit_id.is_none());
    } else {
        panic!("Expected PublishEdit proposal");
    }
}

#[test]
fn test_map_created_proposals_with_mixed_proposal_types() {
    let edit_id_bytes = vec![
        0x01, 0x02, 0x03, 0x04, 0x05, 0x06, 0x07, 0x08, 0x09, 0x0a, 0x0b, 0x0c, 0x0d, 0x0e, 0x0f,
        0x10,
    ];
    let test_edit = create_test_edit(edit_id_bytes.clone());

    let preprocessed_edit = PreprocessedEdit {
        cid: "ipfs://QmEdit123".to_string(),
        edit: Some(Rc::new(test_edit)),
        is_errored: false,
        space_id: fresh_space_id(6),
    };

    let mut cache_map = CacheMap::new();
    cache_map.insert("ipfs://QmEdit123".to_string(), preprocessed_edit);

    let mut geo = GeoOutput::empty();
    geo.edits = vec![create_test_proposal_created_event(
        "edit_proposal",
        "ipfs://QmEdit123",
    )];
    geo.proposed_added_members = vec![AddMemberProposalCreated {
        proposal_id: "member_proposal".to_string(),
        creator: "0x1234567890123456789012345678901234567890".to_string(),
        start_time: "1000000000".to_string(),
        end_time: "2000000000".to_string(),
        member: "0xmember1234567890123456789012345678901234567890".to_string(),
        dao_address: "0xdao1234567890123456789012345678901234567890".to_string(),
        plugin_address: "0xplugin1234567890123456789012345678901234567890".to_string(),
        change_type: "add".to_string(),
    }];

    let result = map_created_proposals(&geo, &cache_map);

    assert_eq!(result.len(), 2);

    let publish_edit = result
        .iter()
        .find(|p| {
            matches!(p, ProposalCreated::PublishEdit { proposal_id, .. } if proposal_id == "edit_proposal")
        })
        .expect("Should find PublishEdit proposal");

    if let ProposalCreated::PublishEdit { edit_id, .. } = publish_edit {
        assert!(edit_id.is_some(), "PublishEdit should have edit_id from cache");
    }

    let add_member = result
        .iter()
        .find(|p| {
            matches!(p, ProposalCreated::AddMember { proposal_id, .. } if proposal_id == "member_proposal")
        })
        .expect("Should find AddMember proposal");

    if let ProposalCreated::AddMember {
        proposal_id,
        member,
        ..
    } = add_member
    {
        assert_eq!(proposal_id, "member_proposal");
        assert_eq!(member, "0xmember1234567890123456789012345678901234567890");
    }
}

#[test]
fn test_map_created_proposals_empty_edits() {
    let cache_map = CacheMap::new();

    let mut geo = GeoOutput::empty();
    geo.proposed_added_members = vec![AddMemberProposalCreated {
        proposal_id: "member_proposal".to_string(),
        creator: "0x1234567890123456789012345678901234567890".to_string(),
        start_time: "1000000000".to_string(),
        end_time: "2000000000".to_string(),
        member: "0xmember1234567890123456789012345678901234567890".to_string(),
        dao_address: "0xdao1234567890123456789012345678901234567890".to_string(),
        plugin_address: "0xplugin1234567890123456789012345678901234567890".to_string(),
        change_type: "add".to_string(),
    }];

    let result = map_created_proposals(&geo, &cache_map);

    assert_eq!(result.len(), 1);

    if let ProposalCreated::AddMember { proposal_id, .. } = &result[0] {
        assert_eq!(proposal_id, "member_proposal");
    } else {
        panic!("Expected AddMember proposal");
    }
}

#[test]
fn test_proposal_item_uses_edit_id_from_cache() {
    let edit_id_bytes = vec![
        0x01, 0x02, 0x03, 0x04, 0x05, 0x06, 0x07, 0x08, 0x09, 0x0a, 0x0b, 0x0c, 0x0d, 0x0e, 0x0f,
        0x10,
    ];
    let expected_edit_uid = Uid::from_byte_vec(&edit_id_bytes);
    let test_edit = create_test_edit(edit_id_bytes.clone());

    let preprocessed_edit = PreprocessedEdit {
        cid: "ipfs://QmTestEditId".to_string(),
        edit: Some(Rc::new(test_edit)),
        is_errored: false,
        space_id: fresh_space_id(7),
    };

    let mut cache_map = CacheMap::new();
    cache_map.insert("ipfs://QmTestEditId".to_string(), preprocessed_edit);

    let mut geo = GeoOutput::empty();
    geo.edits = vec![create_test_proposal_created_event(
        "different_proposal_id",
        "ipfs://QmTestEditId",
    )];

    let result = map_created_proposals(&geo, &cache_map);
    assert_eq!(result.len(), 1);

    if let ProposalCreated::PublishEdit {
        edit_id,
        proposal_id,
        ..
    } = &result[0]
    {
        assert_eq!(proposal_id, "different_proposal_id");
        assert!(edit_id.is_some());
        assert_eq!(edit_id.unwrap(), expected_edit_uid);
    } else {
        panic!("Expected PublishEdit proposal");
    }

    let proposal_items = ProposalsModel::map_created_proposals(&result, 100);

    assert_eq!(proposal_items.len(), 1);
    let proposal_item = &proposal_items[0];

    assert_eq!(
        proposal_item.id, expected_edit_uid,
        "the proposal row should use the edit id from the cache, not the proposal id"
    );

    assert!(
        Uid::parse_str("different_proposal_id").is_none(),
        "the on-chain proposal id does not even parse as a UUID"
    );
}
