use cluster_client::store::{
    InMemoryNodeStore, NodeInfo, NodeRole, NodeStore, NodeStoreBackend, NodeStoreError,
};

fn node(id: u64, addr: &str, role: NodeRole) -> NodeInfo {
    NodeInfo { id, addr: addr.to_string(), role }
}

fn sorted_pairs(nodes: &[NodeInfo]) -> Vec<(u64, String, u8)> {
    let mut v: Vec<(u64, String, u8)> =
        nodes.iter().map(|n| (n.id, n.addr.clone(), n.role.value())).collect();
    v.sort();
    v
}

#[test]
fn role_new_accepts_fixed_range() {
    assert_eq!(NodeRole::new(0).unwrap(), NodeRole::Voter);
    assert_eq!(NodeRole::new(1).unwrap(), NodeRole::StandBy);
    assert_eq!(NodeRole::new(2).unwrap(), NodeRole::Spare);
    assert!(NodeRole::new(3).is_err());
    assert!(NodeRole::new(255).is_err());
}

#[test]
fn role_value_round_trip() {
    for v in 0u8..3 {
        assert_eq!(NodeRole::new(v).unwrap().value(), v);
    }
}

#[test]
fn role_names() {
    assert_eq!(NodeRole::Voter.name(), "voter");
    assert_eq!(NodeRole::StandBy.name(), "stand-by");
    assert_eq!(NodeRole::Spare.name(), "spare");
}

#[test]
fn validate_accepts_each_address_form() {
    assert!(node(1, "127.0.0.1:9001", NodeRole::Voter).validate().is_ok());
    assert!(node(1, "127.0.0.1:000080", NodeRole::Voter).validate().is_ok());
    assert!(node(1, "[::ffff:10.0.0.1]:9001", NodeRole::Voter).validate().is_ok());
    assert!(node(1, "[fe80::1%1]:80", NodeRole::Voter).validate().is_ok());
    assert!(node(1, "unix:/tmp/x.sock", NodeRole::Voter).validate().is_ok());
    assert!(node(1, "/var/run/db.sock", NodeRole::Voter).validate().is_ok());
    assert!(node(1, "@abstract-name", NodeRole::Voter).validate().is_ok());
}

#[test]
fn validate_rejects_bad_addresses() {
    for bad in [
        "",
        "not-an-address",
        "127.0.0.1",
        "127.0.0.1:",
        "127.0.0.1:65536",
        "256.0.0.1:80",
        "01.2.3.4:80",
        "1.2.3:80",
        "1.2.3.4.5:80",
        "x1.2.3.4:80",
        "1.2.3.4:80x",
    ] {
        let n = node(1, bad, NodeRole::Voter);
        assert!(
            matches!(n.validate(), Err(NodeStoreError::InvalidNode(_))),
            "accepted {:?}",
            bad
        );
    }
}

#[test]
fn validate_rejects_embedded_terminators() {
    assert!(node(1, "/tmp/a\nb", NodeRole::Voter).validate().is_err());
    assert!(node(1, "/tmp/a\0b", NodeRole::Voter).validate().is_err());
}

#[test]
fn set_all_then_get_all_round_trips_and_bumps_version() {
    let mut b = NodeStoreBackend::new();
    assert_eq!(b.version(), 0);
    let ns = vec![
        node(1, "127.0.0.1:9001", NodeRole::Voter),
        node(2, "127.0.0.1:9002", NodeRole::StandBy),
        node(3, "@spare", NodeRole::Spare),
    ];
    b.set_all(ns.clone()).unwrap();
    assert_eq!(b.version(), 1);
    assert_eq!(sorted_pairs(&b.get_all()), sorted_pairs(&ns));
}

#[test]
fn set_all_rejects_duplicate_id_without_mutation() {
    let mut b = NodeStoreBackend::new();
    b.set_all(vec![node(1, "127.0.0.1:9001", NodeRole::Voter)]).unwrap();
    let before = sorted_pairs(&b.get_all());
    let r = b.set_all(vec![
        node(7, "127.0.0.1:9007", NodeRole::Voter),
        node(7, "127.0.0.1:9008", NodeRole::Voter),
    ]);
    assert!(matches!(r, Err(NodeStoreError::InvalidNode(_))));
    assert_eq!(sorted_pairs(&b.get_all()), before);
    assert_eq!(b.version(), 1);
}

#[test]
fn set_all_rejects_duplicate_address_without_mutation() {
    let mut b = NodeStoreBackend::new();
    b.set_all(vec![node(1, "127.0.0.1:9001", NodeRole::Voter)]).unwrap();
    let r = b.set_all(vec![
        node(7, "127.0.0.1:9007", NodeRole::Voter),
        node(8, "127.0.0.1:9007", NodeRole::Voter),
    ]);
    assert!(matches!(r, Err(NodeStoreError::InvalidNode(_))));
    assert_eq!(b.version(), 1);
    assert_eq!(b.get_all().len(), 1);
}

#[test]
fn set_if_version_applies_only_on_matching_version() {
    let mut b = NodeStoreBackend::new();
    b.set_all(vec![node(1, "127.0.0.1:9001", NodeRole::Voter)]).unwrap();
    let v = b.version();
    // A concurrent mutation between read and call changes the version.
    b.upsert(node(2, "127.0.0.1:9002", NodeRole::Voter)).unwrap();
    let stale = b.set_if_version(vec![node(3, "127.0.0.1:9003", NodeRole::Voter)], v);
    assert!(matches!(stale, Err(NodeStoreError::VersionConflict)));
    assert_eq!(b.get_all().len(), 2);
    let fresh = b.set_if_version(vec![node(3, "127.0.0.1:9003", NodeRole::Voter)], b.version());
    assert!(fresh.is_ok());
    assert_eq!(b.get_all().len(), 1);
    assert_eq!(b.version(), 3);
}

#[test]
fn upsert_changing_address_removes_old_mapping() {
    let mut b = NodeStoreBackend::new();
    b.upsert(node(1, "127.0.0.1:9001", NodeRole::Voter)).unwrap();
    assert!(b.get_by_address("127.0.0.1:9001").is_some());
    b.upsert(node(1, "127.0.0.1:9002", NodeRole::Voter)).unwrap();
    assert!(b.get_by_address("127.0.0.1:9001").is_none());
    let found = b.get_by_address("127.0.0.1:9002").unwrap();
    assert_eq!(found.id, 1);
    assert_eq!(b.get_all().len(), 1);
}

#[test]
fn upsert_rejects_taking_anothers_address() {
    let mut b = NodeStoreBackend::new();
    b.upsert(node(1, "127.0.0.1:9001", NodeRole::Voter)).unwrap();
    b.upsert(node(2, "127.0.0.1:9002", NodeRole::Voter)).unwrap();
    let v = b.version();
    let r = b.upsert(node(2, "127.0.0.1:9001", NodeRole::Voter));
    assert!(matches!(r, Err(NodeStoreError::InvalidNode(_))));
    assert_eq!(b.version(), v);
    assert_eq!(b.get_by_address("127.0.0.1:9001").unwrap().id, 1);
}

#[test]
fn upsert_updates_role_in_place() {
    let mut b = NodeStoreBackend::new();
    b.upsert(node(1, "127.0.0.1:9001", NodeRole::Spare)).unwrap();
    b.upsert(node(1, "127.0.0.1:9001", NodeRole::Voter)).unwrap();
    assert_eq!(b.get_by_id(1).unwrap().role, NodeRole::Voter);
    assert_eq!(b.get_all().len(), 1);
    assert_eq!(b.version(), 2);
}

#[test]
fn remove_reports_existence_and_bumps_version_once() {
    let mut b = NodeStoreBackend::new();
    b.upsert(node(1, "127.0.0.1:9001", NodeRole::Voter)).unwrap();
    assert!(b.remove(1));
    assert_eq!(b.version(), 2);
    assert!(!b.remove(1));
    assert_eq!(b.version(), 2);
    assert!(b.get_by_id(1).is_none());
}

#[test]
fn get_by_id_and_address_find_the_record() {
    let mut b = NodeStoreBackend::new();
    b.set_all(vec![
        node(1, "127.0.0.1:9001", NodeRole::Voter),
        node(2, "@two", NodeRole::StandBy),
    ])
    .unwrap();
    assert_eq!(b.get_by_id(2).unwrap().addr, "@two");
    assert_eq!(b.get_by_address("@two").unwrap().id, 2);
    assert!(b.get_by_id(9).is_none());
    assert!(b.get_by_address("@nine").is_none());
}

#[test]
fn from_nodes_validates_and_starts_at_version_zero() {
    let b = NodeStoreBackend::from_nodes(vec![node(1, "127.0.0.1:9001", NodeRole::Voter)])
        .unwrap();
    assert_eq!(b.version(), 0);
    assert_eq!(b.get_all().len(), 1);
    let bad = NodeStoreBackend::from_nodes(vec![
        node(1, "127.0.0.1:9001", NodeRole::Voter),
        node(1, "127.0.0.1:9002", NodeRole::Voter),
    ]);
    assert!(bad.is_err());
}

#[test]
fn in_memory_store_implements_the_capability_set() {
    let mut s = InMemoryNodeStore::new();
    assert_eq!(s.version().unwrap(), 0);
    s.set_all(vec![node(1, "127.0.0.1:9001", NodeRole::Voter)]).unwrap();
    assert_eq!(s.version().unwrap(), 1);
    assert_eq!(s.get_all().unwrap().len(), 1);
    assert_eq!(s.get_by_id(1).unwrap().unwrap().addr, "127.0.0.1:9001");
    assert!(s.get_by_address("127.0.0.1:9001").unwrap().is_some());
    s.upsert(node(2, "@two", NodeRole::Spare)).unwrap();
    assert_eq!(s.remove(2).unwrap(), true);
    let v = s.version().unwrap();
    assert!(matches!(
        s.set_if_version(vec![], v.wrapping_add(1)),
        Err(NodeStoreError::VersionConflict)
    ));
    s.set_if_version(vec![], v).unwrap();
    assert_eq!(s.get_all().unwrap().len(), 0);
}
