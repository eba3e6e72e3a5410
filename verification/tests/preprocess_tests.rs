use kg_indexer::chain::{
    EditorAdded, EditorRemoved, GeoGovernancePluginCreated, GeoPersonalSpaceAdminPluginCreated,
    GeoSpaceCreated, MemberAdded, MemberRemoved, SubspaceAdded, SubspaceRemoved,
};
use kg_indexer::preprocess::{deduplicate_content_uris, map_editors_added, map_editors_removed,
    map_members_added, map_members_removed, map_subspaces_added, map_subspaces_removed,
    match_spaces_with_plugins};
use kg_indexer::{AddedMember, CreatedSpace};

fn create_test_space(dao_address: &str, space_address: &str) -> GeoSpaceCreated {
    GeoSpaceCreated {
        dao_address: dao_address.to_string(),
        space_address: space_address.to_string(),
    }
}

fn create_test_governance_plugin(
    dao_address: &str,
    main_voting_address: &str,
    member_access_address: &str,
) -> GeoGovernancePluginCreated {
    GeoGovernancePluginCreated {
        dao_address: dao_address.to_string(),
        main_voting_address: main_voting_address.to_string(),
        member_access_address: member_access_address.to_string(),
    }
}

fn create_test_personal_plugin(
    dao_address: &str,
    personal_admin_address: &str,
) -> GeoPersonalSpaceAdminPluginCreated {
    GeoPersonalSpaceAdminPluginCreated {
        dao_address: dao_address.to_string(),
        personal_admin_address: personal_admin_address.to_string(),
    }
}

fn create_test_editor_added(dao_address: &str, editor_address: &str) -> EditorAdded {
    EditorAdded {
        dao_address: dao_address.to_string(),
        editor_address: editor_address.to_string(),
        main_voting_plugin_address: "voting_plugin".to_string(),
        change_type: "0".to_string(),
    }
}

fn create_test_member_added(dao_address: &str, member_address: &str) -> MemberAdded {
    MemberAdded {
        dao_address: dao_address.to_string(),
        member_address: member_address.to_string(),
        main_voting_plugin_address: "voting_plugin".to_string(),
        change_type: "0".to_string(),
    }
}

fn create_test_subspace_added(dao_address: &str, subspace: &str) -> SubspaceAdded {
    SubspaceAdded {
        dao_address: dao_address.to_string(),
        subspace: subspace.to_string(),
        plugin_address: "plugin".to_string(),
        change_type: "0".to_string(),
    }
}

fn create_test_subspace_removed(dao_address: &str, subspace: &str) -> SubspaceRemoved {
    SubspaceRemoved {
        dao_address: dao_address.to_string(),
        subspace: subspace.to_string(),
        plugin_address: "plugin".to_string(),
        change_type: "0".to_string(),
    }
}

fn create_test_member_removed(dao_address: &str, member_address: &str) -> MemberRemoved {
    MemberRemoved {
        dao_address: dao_address.to_string(),
        member_address: member_address.to_string(),
        plugin_address: "plugin".to_string(),
        change_type: "0".to_string(),
    }
}

fn create_test_editor_removed(dao_address: &str, editor_address: &str) -> EditorRemoved {
    EditorRemoved {
        dao_address: dao_address.to_string(),
        editor_address: editor_address.to_string(),
        plugin_address: "plugin".to_string(),
        change_type: "0".to_string(),
    }
}

#[test]
fn test_match_public_space() {
    let spaces = vec![create_test_space("dao1", "space1")];
    let governance_plugins = vec![create_test_governance_plugin("dao1", "voting1", "member1")];
    let personal_plugins = vec![];

    let result = match_spaces_with_plugins(&spaces, &governance_plugins, &personal_plugins);

    assert_eq!(result.len(), 1);
    match &result[0] {
        CreatedSpace::Public(public_space) => {
            assert_eq!(public_space.dao_address, "dao1");
            assert_eq!(public_space.space_address, "space1");
            assert_eq!(public_space.governance_plugin, "voting1");
            assert_eq!(public_space.membership_plugin, "member1");
        }
        CreatedSpace::Personal(_) => panic!("Expected public space, got personal space"),
    }
}

#[test]
fn test_match_personal_space() {
    let spaces = vec![create_test_space("dao2", "space2")];
    let governance_plugins = vec![];
    let personal_plugins = vec![create_test_personal_plugin("dao2", "admin2")];

    let result = match_spaces_with_plugins(&spaces, &governance_plugins, &personal_plugins);

    assert_eq!(result.len(), 1);
    match &result[0] {
        CreatedSpace::Personal(personal_space) => {
            assert_eq!(personal_space.dao_address, "dao2");
            assert_eq!(personal_space.space_address, "space2");
            assert_eq!(personal_space.personal_plugin, "admin2");
        }
        CreatedSpace::Public(_) => panic!("Expected personal space, got public space"),
    }
}

#[test]
fn test_space_with_no_matching_plugin() {
    let spaces = vec![create_test_space("dao3", "space3")];
    let governance_plugins = vec![create_test_governance_plugin("dao1", "voting1", "member1")];
    let personal_plugins = vec![create_test_personal_plugin("dao2", "admin2")];

    let result = match_spaces_with_plugins(&spaces, &governance_plugins, &personal_plugins);

    assert_eq!(result.len(), 0);
}

#[test]
fn test_multiple_spaces_mixed_types() {
    let spaces = vec![
        create_test_space("dao1", "space1"),
        create_test_space("dao2", "space2"),
        create_test_space("dao3", "space3"),
    ];
    let governance_plugins = vec![create_test_governance_plugin("dao1", "voting1", "member1")];
    let personal_plugins = vec![create_test_personal_plugin("dao2", "admin2")];

    let result = match_spaces_with_plugins(&spaces, &governance_plugins, &personal_plugins);

    assert_eq!(result.len(), 2);

    match &result[0] {
        CreatedSpace::Public(public_space) => {
            assert_eq!(public_space.dao_address, "dao1");
            assert_eq!(public_space.space_address, "space1");
        }
        CreatedSpace::Personal(_) => panic!("Expected public space"),
    }

    match &result[1] {
        CreatedSpace::Personal(personal_space) => {
            assert_eq!(personal_space.dao_address, "dao2");
            assert_eq!(personal_space.space_address, "space2");
        }
        CreatedSpace::Public(_) => panic!("Expected personal space"),
    }
}

#[test]
fn test_governance_plugin_takes_precedence_over_personal_plugin() {
    let spaces = vec![create_test_space("dao1", "space1")];
    let governance_plugins = vec![create_test_governance_plugin("dao1", "voting1", "member1")];
    let personal_plugins = vec![create_test_personal_plugin("dao1", "admin1")];

    let result = match_spaces_with_plugins(&spaces, &governance_plugins, &personal_plugins);

    assert_eq!(result.len(), 1);
    match &result[0] {
        CreatedSpace::Public(public_space) => {
            assert_eq!(public_space.dao_address, "dao1");
            assert_eq!(public_space.governance_plugin, "voting1");
            assert_eq!(public_space.membership_plugin, "member1");
        }
        CreatedSpace::Personal(_) => {
            panic!("Expected public space (governance should take precedence)")
        }
    }
}

#[test]
fn test_empty_inputs() {
    let spaces = vec![];
    let governance_plugins = vec![];
    let personal_plugins = vec![];

    let result = match_spaces_with_plugins(&spaces, &governance_plugins, &personal_plugins);

    assert_eq!(result.len(), 0);
}

#[test]
fn test_multiple_plugins_same_dao_different_spaces() {
    let spaces = vec![
        create_test_space("dao1", "space1"),
        create_test_space("dao1", "space2"),
    ];
    let governance_plugins = vec![create_test_governance_plugin("dao1", "voting1", "member1")];
    let personal_plugins = vec![];

    let result = match_spaces_with_plugins(&spaces, &governance_plugins, &personal_plugins);

    assert_eq!(result.len(), 2);

    for space in &result {
        match space {
            CreatedSpace::Public(public_space) => {
                assert_eq!(public_space.dao_address, "dao1");
                assert_eq!(public_space.governance_plugin, "voting1");
                assert_eq!(public_space.membership_plugin, "member1");
            }
            CreatedSpace::Personal(_) => panic!("Expected public spaces"),
        }
    }
}

#[test]
fn test_map_editors_added_empty() {
    let editors = vec![];
    let result = map_editors_added(&editors);
    assert_eq!(result.len(), 0);
}

#[test]
fn test_map_editors_added_single() {
    let editors = vec![create_test_editor_added("dao1", "editor1")];
    let result = map_editors_added(&editors);

    assert_eq!(result.len(), 1);
    assert_eq!(result[0].dao_address, "dao1");
    assert_eq!(result[0].editor_address, "editor1");
}

#[test]
fn test_map_editors_added_multiple() {
    let editors = vec![
        create_test_editor_added("dao1", "editor1"),
        create_test_editor_added("dao2", "editor2"),
        create_test_editor_added("dao1", "editor3"),
    ];
    let result = map_editors_added(&editors);

    assert_eq!(result.len(), 3);
    assert_eq!(result[0].dao_address, "dao1");
    assert_eq!(result[0].editor_address, "editor1");
    assert_eq!(result[1].dao_address, "dao2");
    assert_eq!(result[1].editor_address, "editor2");
    assert_eq!(result[2].dao_address, "dao1");
    assert_eq!(result[2].editor_address, "editor3");
}

#[test]
fn test_map_members_added_empty() {
    let members = vec![];
    let result = map_members_added(&members);
    assert_eq!(result.len(), 0);
}

#[test]
fn test_map_members_added_single() {
    let members = vec![create_test_member_added("dao1", "member1")];
    let result = map_members_added(&members);

    assert_eq!(result.len(), 1);
    assert_eq!(result[0].dao_address, "dao1");
    assert_eq!(result[0].editor_address, "member1");
}

#[test]
fn test_map_members_added_multiple() {
    let members = vec![
        create_test_member_added("dao1", "member1"),
        create_test_member_added("dao2", "member2"),
        create_test_member_added("dao1", "member3"),
    ];
    let result = map_members_added(&members);

    assert_eq!(result.len(), 3);
    assert_eq!(result[0].dao_address, "dao1");
    assert_eq!(result[0].editor_address, "member1");
    assert_eq!(result[1].dao_address, "dao2");
    assert_eq!(result[1].editor_address, "member2");
    assert_eq!(result[2].dao_address, "dao1");
    assert_eq!(result[2].editor_address, "member3");
}

#[test]
fn test_editors_from_newly_created_spaces_added_to_members() {
    let spaces = vec![
        create_test_space("dao1", "space1"),
        create_test_space("dao2", "space2"),
    ];

    let governance_plugins = vec![create_test_governance_plugin("dao1", "member1", "voting1")];
    let personal_plugins = vec![create_test_personal_plugin("dao2", "admin2")];

    let editors = vec![
        create_test_editor_added("dao1", "editor1"),
        create_test_editor_added("dao1", "editor2"),
        create_test_editor_added("dao2", "editor3"),
        create_test_editor_added("dao3", "editor4"),
    ];

    let members = vec![create_test_member_added("dao1", "member1")];

    let created_spaces = match_spaces_with_plugins(&spaces, &governance_plugins, &personal_plugins);

    let added_editors = map_editors_added(&editors);
    let mut added_members = map_members_added(&members);

    let created_space_dao_addresses: Vec<String> = created_spaces
        .iter()
        .map(|space| match space {
            CreatedSpace::Personal(personal_space) => personal_space.dao_address.clone(),
            CreatedSpace::Public(public_space) => public_space.dao_address.clone(),
        })
        .collect();

    for editor in &added_editors {
        if created_space_dao_addresses.contains(&editor.dao_address) {
            added_members.push(AddedMember {
                dao_address: editor.dao_address.clone(),
                editor_address: editor.editor_address.clone(),
            });
        }
    }

    assert_eq!(created_spaces.len(), 2);
    assert_eq!(added_editors.len(), 4);

    assert_eq!(added_members.len(), 4);

    assert!(added_members
        .iter()
        .any(|m| m.dao_address == "dao1" && m.editor_address == "member1"));

    assert!(added_members
        .iter()
        .any(|m| m.dao_address == "dao1" && m.editor_address == "editor1"));
    assert!(added_members
        .iter()
        .any(|m| m.dao_address == "dao1" && m.editor_address == "editor2"));
    assert!(added_members
        .iter()
        .any(|m| m.dao_address == "dao2" && m.editor_address == "editor3"));

    assert!(!added_members
        .iter()
        .any(|m| m.dao_address == "dao3" && m.editor_address == "editor4"));
}

#[test]
fn test_map_subspaces_added_empty() {
    let subspaces = vec![];
    let result = map_subspaces_added(&subspaces);
    assert_eq!(result.len(), 0);
}

#[test]
fn test_map_subspaces_added_single() {
    let subspaces = vec![create_test_subspace_added("dao1", "subspace1")];
    let result = map_subspaces_added(&subspaces);

    assert_eq!(result.len(), 1);
    assert_eq!(result[0].dao_address, "dao1");
    assert_eq!(result[0].subspace_address, "subspace1");
}

#[test]
fn test_map_subspaces_added_multiple() {
    let subspaces = vec![
        create_test_subspace_added("dao1", "subspace1"),
        create_test_subspace_added("dao2", "subspace2"),
        create_test_subspace_added("dao1", "subspace3"),
    ];
    let result = map_subspaces_added(&subspaces);

    assert_eq!(result.len(), 3);
    assert_eq!(result[0].dao_address, "dao1");
    assert_eq!(result[0].subspace_address, "subspace1");
    assert_eq!(result[1].dao_address, "dao2");
    assert_eq!(result[1].subspace_address, "subspace2");
    assert_eq!(result[2].dao_address, "dao1");
    assert_eq!(result[2].subspace_address, "subspace3");
}

#[test]
fn test_map_subspaces_removed_empty() {
    let subspaces = vec![];
    let result = map_subspaces_removed(&subspaces);
    assert_eq!(result.len(), 0);
}

#[test]
fn test_map_subspaces_removed_single() {
    let subspaces = vec![create_test_subspace_removed("dao1", "subspace1")];
    let result = map_subspaces_removed(&subspaces);

    assert_eq!(result.len(), 1);
    assert_eq!(result[0].dao_address, "dao1");
    assert_eq!(result[0].subspace_address, "subspace1");
}

#[test]
fn test_map_subspaces_removed_multiple() {
    let subspaces = vec![
        create_test_subspace_removed("dao1", "subspace1"),
        create_test_subspace_removed("dao2", "subspace2"),
        create_test_subspace_removed("dao1", "subspace3"),
    ];
    let result = map_subspaces_removed(&subspaces);

    assert_eq!(result.len(), 3);
    assert_eq!(result[0].dao_address, "dao1");
    assert_eq!(result[0].subspace_address, "subspace1");
    assert_eq!(result[1].dao_address, "dao2");
    assert_eq!(result[1].subspace_address, "subspace2");
    assert_eq!(result[2].dao_address, "dao1");
    assert_eq!(result[2].subspace_address, "subspace3");
}

#[test]
fn test_map_members_removed_empty() {
    let members = vec![];
    let result = map_members_removed(&members);
    assert_eq!(result.len(), 0);
}

#[test]
fn test_map_members_removed_single() {
    let members = vec![create_test_member_removed("dao1", "member1")];
    let result = map_members_removed(&members);

    assert_eq!(result.len(), 1);
    assert_eq!(result[0].dao_address, "dao1");
    assert_eq!(result[0].editor_address, "member1");
}

#[test]
fn test_map_members_removed_multiple() {
    let members = vec![
        create_test_member_removed("dao1", "member1"),
        create_test_member_removed("dao2", "member2"),
        create_test_member_removed("dao1", "member3"),
    ];
    let result = map_members_removed(&members);

    assert_eq!(result.len(), 3);
    assert_eq!(result[0].dao_address, "dao1");
    assert_eq!(result[0].editor_address, "member1");
    assert_eq!(result[1].dao_address, "dao2");
    assert_eq!(result[1].editor_address, "member2");
    assert_eq!(result[2].dao_address, "dao1");
    assert_eq!(result[2].editor_address, "member3");
}

#[test]
fn test_map_editors_removed_empty() {
    let editors = vec![];
    let result = map_editors_removed(&editors);
    assert_eq!(result.len(), 0);
}

#[test]
fn test_map_editors_removed_single() {
    let editors = vec![create_test_editor_removed("dao1", "editor1")];
    let result = map_editors_removed(&editors);

    assert_eq!(result.len(), 1);
    assert_eq!(result[0].dao_address, "dao1");
    assert_eq!(result[0].editor_address, "editor1");
}

#[test]
fn test_map_editors_removed_multiple() {
    let editors = vec![
        create_test_editor_removed("dao1", "editor1"),
        create_test_editor_removed("dao2", "editor2"),
        create_test_editor_removed("dao1", "editor3"),
    ];
    let result = map_editors_removed(&editors);

    assert_eq!(result.len(), 3);
    assert_eq!(result[0].dao_address, "dao1");
    assert_eq!(result[0].editor_address, "editor1");
    assert_eq!(result[1].dao_address, "dao2");
    assert_eq!(result[1].editor_address, "editor2");
    assert_eq!(result[2].dao_address, "dao1");
    assert_eq!(result[2].editor_address, "editor3");
}

#[test]
fn test_deduplicate_content_uris() {
    let content_uris = vec![
        "ipfs://QmTest1".to_string(),
        "ipfs://QmTest2".to_string(),
        "ipfs://QmTest1".to_string(),
        "ipfs://QmTest3".to_string(),
        "ipfs://QmTest2".to_string(),
        "ipfs://QmTest1".to_string(),
    ];

    let result = deduplicate_content_uris(content_uris);

    assert_eq!(result.len(), 3, "Should have 3 unique URIs");

    assert!(result.contains(&"ipfs://QmTest1".to_string()));
    assert!(result.contains(&"ipfs://QmTest2".to_string()));
    assert!(result.contains(&"ipfs://QmTest3".to_string()));
}

#[test]
fn test_deduplicate_content_uris_empty() {
    let content_uris = vec![];
    let result = deduplicate_content_uris(content_uris);
    assert_eq!(result.len(), 0, "Empty input should return empty result");
}

#[test]
fn test_deduplicate_content_uris_no_duplicates() {
    let content_uris = vec![
        "ipfs://QmTest1".to_string(),
        "ipfs://QmTest2".to_string(),
        "ipfs://QmTest3".to_string(),
    ];

    let result = deduplicate_content_uris(content_uris.clone());

    assert_eq!(result.len(), 3, "Should have same number when no duplicates");

    for uri in content_uris {
        assert!(result.contains(&uri), "Should contain original URI: {}", uri);
    }
}
