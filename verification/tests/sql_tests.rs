use cluster_client::sqlstore::{rows_to_nodes, DatabaseNodeStore};
use cluster_client::store::{NodeRole, NodeStoreError};

#[test]
fn database_store_opens_in_memory_and_starts_empty() {
    let s = DatabaseNodeStore::new(":memory:").unwrap();
    let nodes = s.get_all().unwrap();
    assert!(nodes.is_empty());
}

#[test]
fn rows_decode_to_records() {
    let rows = vec![
        (1i64, "127.0.0.1:9001".to_string(), 0i64),
        (2i64, "@two".to_string(), 1i64),
        (3i64, "/three.sock".to_string(), 2i64),
    ];
    let nodes = rows_to_nodes(rows).unwrap();
    assert_eq!(nodes.len(), 3);
    assert_eq!(nodes[0].id, 1);
    assert_eq!(nodes[0].role, NodeRole::Voter);
    assert_eq!(nodes[1].role, NodeRole::StandBy);
    assert_eq!(nodes[2].role, NodeRole::Spare);
    assert_eq!(nodes[2].addr, "/three.sock");
}

#[test]
fn rows_with_a_bad_role_are_rejected_whole() {
    let rows = vec![
        (1i64, "127.0.0.1:9001".to_string(), 0i64),
        (2i64, "@two".to_string(), 3i64),
    ];
    assert!(matches!(rows_to_nodes(rows), Err(NodeStoreError::Store(_))));
}

#[test]
fn rows_with_a_negative_id_are_rejected_whole() {
    let rows = vec![(-1i64, "@neg".to_string(), 0i64)];
    assert!(matches!(rows_to_nodes(rows), Err(NodeStoreError::Store(_))));
}
