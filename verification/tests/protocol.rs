use oxide_kv::protocol::{
    config_quorum_reached, config_quorum_reached_index, Configuration, ServerId,
};
use oxide_kv::text_map::TextMap;

#[test]
fn configuration_simple_contains_and_addr_of() {
    let cfg = Configuration::Simple(vec![
        ServerId { node_id: "n1".into(), addr: "127.0.0.1:9001".into() },
        ServerId { node_id: "n2".into(), addr: "127.0.0.1:9002".into() },
    ]);
    assert!(cfg.contains("n1"));
    assert!(cfg.contains("n2"));
    assert!(!cfg.contains("n3"));
    assert_eq!(cfg.addr_of("n2"), Some("127.0.0.1:9002".to_string()));
    assert_eq!(cfg.addr_of("n3"), None);
    assert_eq!(cfg.size(), 2);
}

#[test]
fn configuration_joint_all_servers_is_union_without_dupes() {
    let cfg = Configuration::Joint {
        old: vec![
            ServerId { node_id: "n1".into(), addr: "127.0.0.1:9001".into() },
            ServerId { node_id: "n2".into(), addr: "127.0.0.1:9002".into() },
        ],
        new: vec![
            ServerId { node_id: "n1".into(), addr: "127.0.0.1:9001".into() },
            ServerId { node_id: "n2".into(), addr: "127.0.0.1:9002".into() },
            ServerId { node_id: "n3".into(), addr: "127.0.0.1:9003".into() },
        ],
    };
    let all = cfg.all_servers();
    assert_eq!(all.len(), 3);
    let ids: Vec<&str> = all.iter().map(|s| s.node_id.as_str()).collect();
    assert!(ids.contains(&"n1"));
    assert!(ids.contains(&"n2"));
    assert!(ids.contains(&"n3"));
    assert_eq!(cfg.size(), 3);
}

#[test]
fn config_quorum_simple_majority() {
    let cfg = Configuration::Simple(vec![
        ServerId { node_id: "n1".into(), addr: "a".into() },
        ServerId { node_id: "n2".into(), addr: "b".into() },
        ServerId { node_id: "n3".into(), addr: "c".into() },
    ]);
    let mut mi = TextMap::new();
    mi.insert("n2".into(), 5);
    mi.insert("n3".into(), 3);
    assert!(config_quorum_reached(
        &cfg,
        &mi,
        "n1",
        5,
        5
    ));
    mi.insert("n2".into(), 0);
    mi.insert("n3".into(), 0);
    assert!(!config_quorum_reached(
        &cfg,
        &mi,
        "n1",
        5,
        5
    ));
}

#[test]
fn config_quorum_joint_requires_both_majorities() {
    let cfg = Configuration::Joint {
        old: vec![
            ServerId { node_id: "n1".into(), addr: "a".into() },
            ServerId { node_id: "n2".into(), addr: "b".into() },
            ServerId { node_id: "n3".into(), addr: "c".into() },
        ],
        new: vec![
            ServerId { node_id: "n1".into(), addr: "a".into() },
            ServerId { node_id: "n2".into(), addr: "b".into() },
            ServerId { node_id: "n3".into(), addr: "c".into() },
            ServerId { node_id: "n4".into(), addr: "d".into() },
        ],
    };
    let mut mi = TextMap::new();
    mi.insert("n2".into(), 5);
    mi.insert("n3".into(), 5);
    assert!(config_quorum_reached(
        &cfg,
        &mi,
        "n1",
        5,
        5
    ));
    mi.insert("n3".into(), 0);
    assert!(!config_quorum_reached(
        &cfg,
        &mi,
        "n1",
        5,
        5
    ));
}

#[test]
fn the_highest_index_of_a_quorum_is_found() {
    let cfg = Configuration::Simple(vec![
        ServerId { node_id: "n1".into(), addr: "a".into() },
        ServerId { node_id: "n2".into(), addr: "b".into() },
        ServerId { node_id: "n3".into(), addr: "c".into() },
    ]);
    let mut mi = TextMap::new();
    mi.insert("n2".into(), 4);
    mi.insert("n3".into(), 2);
    assert_eq!(config_quorum_reached_index(&cfg, &mi, "n1", 9), 4);
    let none = TextMap::new();
    assert_eq!(config_quorum_reached_index(&cfg, &none, "n1", 9), 0);
}

#[test]
fn a_joint_quorum_takes_the_slower_side() {
    let old = vec![ServerId { node_id: "n1".into(), addr: "a".into() }];
    let new = vec![
        ServerId { node_id: "n1".into(), addr: "a".into() },
        ServerId { node_id: "n2".into(), addr: "b".into() },
    ];
    let cfg = Configuration::Joint { old, new };
    let mut mi = TextMap::new();
    mi.insert("n2".into(), 3);
    assert_eq!(config_quorum_reached_index(&cfg, &mi, "n1", 5), 3);
    assert_eq!(cfg.effective_servers(), cfg.all_servers());
}
