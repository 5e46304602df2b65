use brewmble::config::{Config, ProfileError, TOKEN_PLACEHOLDER};
use brewmble::profiles::{NodeConfig, ProfileConfig, ProfileMap};

fn node(name: Option<&str>, address: &str, api_key: Option<&str>) -> NodeConfig {
    NodeConfig {
        name: name.map(|n| n.to_string()),
        address: address.to_string(),
        api_key: api_key.map(|k| k.to_string()),
        use_keyring: false,
    }
}

fn config_with_default_nodes(nodes: Vec<NodeConfig>) -> Config {
    let mut config = Config::default();
    config
        .profiles
        .insert("default".to_string(), ProfileConfig { nodes });
    config
}

#[test]
fn test_merge_nodes() {
    let mut config = config_with_default_nodes(vec![node(None, "1.1.1.1:8080", None)]);

    let discovered = vec![
        ("1.1.1.1:8080".to_string(), "node1".to_string()),
        ("2.2.2.2:8080".to_string(), "node2".to_string()),
    ];

    let updated = config.merge_nodes(discovered);
    assert!(updated);
    let nodes = &config.profiles.get("default").unwrap().nodes;
    assert_eq!(nodes.len(), 2);

    assert_eq!(nodes[0].address, "1.1.1.1:8080");
    assert_eq!(nodes[0].name, Some("node1".to_string()));
    assert_eq!(nodes[0].api_key, None);

    assert_eq!(nodes[1].address, "2.2.2.2:8080");
    assert_eq!(nodes[1].name, Some("node2".to_string()));
    assert_eq!(nodes[1].api_key, Some(TOKEN_PLACEHOLDER.to_string()));
}

#[test]
fn test_merge_nodes_updates_name_but_preserves_token() {
    let mut config =
        config_with_default_nodes(vec![node(Some("OldName"), "1.1.1.1:8080", Some("secret"))]);

    let discovered = vec![("1.1.1.1:8080".to_string(), "NewName".to_string())];

    let updated = config.merge_nodes(discovered);
    assert!(updated);
    let nodes = &config.profiles.get("default").unwrap().nodes;
    assert_eq!(nodes[0].name, Some("NewName".to_string()));
    assert_eq!(nodes[0].api_key, Some("secret".to_string()));
}

#[test]
fn test_merge_nodes_updates_custom_name() {
    let mut config = config_with_default_nodes(vec![node(Some("Custom"), "1.1.1.1:8080", None)]);

    let discovered = vec![("1.1.1.1:8080".to_string(), "node1".to_string())];

    let updated = config.merge_nodes(discovered);
    assert!(updated);
    let nodes = &config.profiles.get("default").unwrap().nodes;
    assert_eq!(nodes[0].name, Some("node1".to_string()));
}

#[test]
fn test_merge_nodes_cleans_id_prefix_from_config() {
    let mut config =
        config_with_default_nodes(vec![node(Some("id=raspi1"), "1.1.1.1:8080", None)]);

    let discovered = vec![("1.1.1.1:8080".to_string(), "raspi1".to_string())];

    let updated = config.merge_nodes(discovered);
    assert!(updated);
    let nodes = &config.profiles.get("default").unwrap().nodes;
    assert_eq!(nodes[0].name, Some("raspi1".to_string()));
}

#[test]
fn test_merge_nodes_prevents_duplicate_by_name() {
    let mut config =
        config_with_default_nodes(vec![node(Some("raspi1"), "1.1.1.1:8080", Some("secret"))]);

    let discovered = vec![("1.1.1.2:8080".to_string(), "raspi1".to_string())];

    let updated = config.merge_nodes(discovered);
    assert!(updated);
    let nodes = &config.profiles.get("default").unwrap().nodes;
    assert_eq!(nodes.len(), 1);
    assert_eq!(nodes[0].address, "1.1.1.2:8080");
    assert_eq!(nodes[0].name, Some("raspi1".to_string()));
    assert_eq!(nodes[0].api_key, Some("secret".to_string()));
}

#[test]
fn test_config_migration() {
    // A configuration as an older version wrote it: nodes at the top level,
    // no profiles, and the active profile defaulted.
    let mut config = Config::default();
    config.profiles.remove("default");
    config.nodes = vec![node(Some("legacy-node"), "1.2.3.4:8080", Some("secret-token"))];

    assert_eq!(config.nodes.len(), 1);
    assert!(config.profiles.is_empty());

    config.normalize();

    assert_eq!(config.nodes.len(), 0);
    assert_eq!(config.profiles.len(), 1);
    let profile = config.profiles.get("default").unwrap();
    assert_eq!(profile.nodes.len(), 1);
    assert_eq!(profile.nodes[0].name, Some("legacy-node".to_string()));
    assert_eq!(profile.nodes[0].api_key, Some("secret-token".to_string()));
}

#[test]
fn merge_twice_reports_no_change() {
    let mut config = config_with_default_nodes(vec![node(None, "1.1.1.1:8080", Some("k"))]);
    let found = vec![("1.1.1.1:8080".to_string(), "n1".to_string())];
    assert!(config.merge_nodes(found.clone()));
    assert!(!config.merge_nodes(found));
    let nodes = &config.profiles.get("default").unwrap().nodes;
    assert_eq!(nodes.len(), 1);
    assert_eq!(nodes[0].api_key, Some("k".to_string()));
}

#[test]
fn merge_with_empty_id_matches_by_address_and_clears_name() {
    let mut config = config_with_default_nodes(vec![node(Some("old"), "1.1.1.1:8080", None)]);
    assert!(config.merge_nodes(vec![("1.1.1.1:8080".to_string(), String::new())]));
    let nodes = &config.profiles.get("default").unwrap().nodes;
    assert_eq!(nodes.len(), 1);
    assert_eq!(nodes[0].name, None);
}

#[test]
fn merge_creates_missing_active_profile() {
    let mut config = Config::default();
    config.active_profile = "lab".to_string();
    assert!(!config.merge_nodes(Vec::new()));
    assert!(config.profiles.contains_key("lab"));
    assert_eq!(config.profiles.get("lab").unwrap().nodes.len(), 0);
}

#[test]
fn normalize_appends_legacy_nodes_and_creates_active_profile() {
    let mut config = config_with_default_nodes(vec![node(Some("a"), "1.1.1.1:1", None)]);
    config.active_profile = "work".to_string();
    config.nodes = vec![node(Some("b"), "2.2.2.2:2", None)];
    config.normalize();
    let default = config.profiles.get("default").unwrap();
    assert_eq!(default.nodes.len(), 2);
    assert_eq!(default.nodes[1].address, "2.2.2.2:2");
    assert!(config.profiles.contains_key("work"));
    assert!(config.nodes.is_empty());
}

#[test]
fn profile_commands() {
    let mut config = Config::default();
    assert_eq!(
        config.use_profile("lab".to_string()),
        Err(ProfileError::NotFound("lab".to_string()))
    );
    assert_eq!(config.create_profile("lab".to_string()), Ok(()));
    assert_eq!(
        config.create_profile("lab".to_string()),
        Err(ProfileError::AlreadyExists("lab".to_string()))
    );
    assert_eq!(config.use_profile("lab".to_string()), Ok(()));
    assert_eq!(config.active_profile, "lab");
    assert_eq!(config.delete_profile("lab"), Err(ProfileError::ActiveProtected));
    assert_eq!(config.delete_profile("default"), Err(ProfileError::DefaultProtected));
    assert_eq!(config.use_profile("default".to_string()), Ok(()));
    assert_eq!(config.delete_profile("lab"), Ok(()));
    assert!(!config.profiles.contains_key("lab"));
    assert_eq!(
        config.delete_profile("lab"),
        Err(ProfileError::NotFound("lab".to_string()))
    );
}

#[test]
fn profile_error_messages() {
    assert_eq!(
        ProfileError::NotFound("x".to_string()).message(),
        "Profile 'x' not found"
    );
    assert_eq!(
        ProfileError::AlreadyExists("x".to_string()).message(),
        "Profile 'x' already exists"
    );
    assert_eq!(
        ProfileError::DefaultProtected.message(),
        "Cannot delete the default profile"
    );
    assert_eq!(
        ProfileError::ActiveProtected.message(),
        "Cannot delete the active profile. Switch to another profile first."
    );
    assert_eq!(
        ProfileError::NodeNotFound {
            node: "n".to_string(),
            profile: "p".to_string()
        }
        .message(),
        "Node 'n' not found in profile 'p'"
    );
}

#[test]
fn profile_listing_marks_active() {
    let mut config = Config::default();
    config.create_profile("lab".to_string()).unwrap();
    let listing = config.profile_listing();
    assert_eq!(
        listing,
        vec![("default".to_string(), true), ("lab".to_string(), false)]
    );
}

#[test]
fn set_key_finds_node_and_marks_keyring() {
    let mut config =
        config_with_default_nodes(vec![node(Some("pi"), "1.1.1.1:8080", Some("plain"))]);
    let (profile, index) = config.key_target(None, "pi").unwrap();
    assert_eq!(profile, "default");
    assert_eq!(index, 0);
    assert_eq!(
        config.key_target(Some("other".to_string()), "pi"),
        Err(ProfileError::NotFound("other".to_string()))
    );
    assert_eq!(
        config.key_target(None, "9.9.9.9:1"),
        Err(ProfileError::NodeNotFound {
            node: "9.9.9.9:1".to_string(),
            profile: "default".to_string()
        })
    );
    config.mark_key_in_keyring(&profile, index);
    let n = &config.profiles.get("default").unwrap().nodes[0];
    assert!(n.use_keyring);
    assert_eq!(n.api_key, None);
    assert_eq!(n.keyring_account(), Some("1.1.1.1:8080".to_string()));
    assert_eq!(n.get_api_key(Some("from-keyring".to_string())), Some("from-keyring".to_string()));
}

#[test]
fn api_key_without_keyring_is_the_written_one() {
    let n = node(None, "h:1", Some("abc"));
    assert_eq!(n.keyring_account(), None);
    assert_eq!(n.get_api_key(Some("ignored".to_string())), Some("abc".to_string()));
}

#[test]
fn targets_fall_back_to_profile_addresses() {
    let config = config_with_default_nodes(vec![
        node(Some("a"), "1.1.1.1:1", None),
        node(None, "2.2.2.2:2", None),
    ]);
    assert_eq!(
        config.targets_or_profile(Vec::new()),
        vec!["1.1.1.1:1".to_string(), "2.2.2.2:2".to_string()]
    );
    assert_eq!(
        config.targets_or_profile(vec!["x:1".to_string()]),
        vec!["x:1".to_string()]
    );
    assert_eq!(config.find_node("a").unwrap().address, "1.1.1.1:1");
    assert_eq!(config.find_node("2.2.2.2:2").unwrap().name, None);
    assert!(config.find_node("zzz").is_none());
}

#[test]
fn normalize_twice_changes_nothing_more() {
    let mut config = Config::default();
    config.nodes = vec![node(Some("b"), "2.2.2.2:2", None)];
    config.normalize();
    config.normalize();
    assert_eq!(config.profiles.len(), 1);
    assert_eq!(config.profiles.get("default").unwrap().nodes.len(), 1);
}

#[test]
fn profile_map_reads_back_writes() {
    let mut m = ProfileMap::new();
    assert!(m.insert("a".to_string(), ProfileConfig { nodes: vec![node(None, "x:1", None)] }).is_none());
    assert!(m.insert("b".to_string(), ProfileConfig::new()).is_none());
    let old = m.insert("a".to_string(), ProfileConfig::new()).unwrap();
    assert_eq!(old.nodes.len(), 1);
    assert_eq!(m.get("a").unwrap().nodes.len(), 0);
    assert_eq!(m.keys(), vec!["a".to_string(), "b".to_string()]);
    assert_eq!(m.len(), 2);
    assert!(m.remove("a").is_some());
    assert!(m.get("a").is_none());
    assert!(m.remove("a").is_none());
    assert_eq!(m.len(), 1);
}

#[test]
fn merging_distinct_daemons_twice_changes_nothing() {
    let mut config = config_with_default_nodes(vec![
        node(Some("b"), "1.1.1.1:8080", Some("kb")),
        node(None, "2.2.2.2:8080", Some("ka")),
    ]);
    let found = vec![
        ("2.2.2.2:8080".to_string(), "a".to_string()),
        ("3.3.3.3:8080".to_string(), "b".to_string()),
        ("4.4.4.4:8080".to_string(), "c".to_string()),
    ];
    assert!(config.merge_nodes(found.clone()));
    let snapshot = |c: &Config| -> Vec<(Option<String>, String, Option<String>)> {
        c.profiles
            .get("default")
            .unwrap()
            .nodes
            .iter()
            .map(|n| (n.name.clone(), n.address.clone(), n.api_key.clone()))
            .collect()
    };
    let first = snapshot(&config);
    assert_eq!(first.len(), 3);
    assert!(!config.merge_nodes(found));
    assert_eq!(snapshot(&config), first);
}
