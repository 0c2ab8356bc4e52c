use cluster_client::snapshot::{parse_snapshot, render_snapshot};
use cluster_client::store::{NodeInfo, NodeRole, NodeStoreBackend, NodeStoreError};

fn rec(id: u64, addr: &str, role: NodeRole) -> NodeInfo {
    NodeInfo { id, addr: addr.to_string(), role }
}

#[test]
fn render_produces_expected_text() {
    let nodes = vec![
        rec(1, "127.0.0.1:9001", NodeRole::Voter),
        rec(42, "unix:/tmp/x.sock", NodeRole::StandBy),
        rec(7, "@abs", NodeRole::Spare),
    ];
    let text = render_snapshot(&nodes);
    assert_eq!(text, "1 0 127.0.0.1:9001\n42 1 unix:/tmp/x.sock\n7 2 @abs\n");
}

#[test]
fn render_of_empty_list_is_empty() {
    let nodes: Vec<NodeInfo> = Vec::new();
    assert_eq!(render_snapshot(&nodes), "");
}

#[test]
fn parse_recovers_rendered_records() {
    let nodes = vec![
        rec(1, "127.0.0.1:9001", NodeRole::Voter),
        rec(18446744073709551615, "/path with spaces/x.sock", NodeRole::Spare),
    ];
    let text = render_snapshot(&nodes);
    let back = parse_snapshot(&text).unwrap();
    assert_eq!(back, nodes);
}

#[test]
fn reopening_a_file_backed_snapshot_reproduces_the_node_set() {
    // A file-backed store persists by writing the rendered snapshot and
    // loads by decoding it, so the rendered text is exactly what a
    // reopened store instance sees.
    let mut b = NodeStoreBackend::new();
    b.upsert(rec(1, "127.0.0.1:9001", NodeRole::Voter)).unwrap();
    b.upsert(rec(2, "unix:/tmp/y.sock", NodeRole::StandBy)).unwrap();
    let persisted = render_snapshot(&b.get_all());
    let reloaded = NodeStoreBackend::from_nodes(parse_snapshot(&persisted).unwrap()).unwrap();
    assert_eq!(reloaded.get_all(), b.get_all());
}

#[test]
fn parse_rejects_unterminated_snapshot() {
    assert!(matches!(
        parse_snapshot("1 0 127.0.0.1:9001"),
        Err(NodeStoreError::Serialization(_))
    ));
}

#[test]
fn parse_rejects_malformed_lines() {
    for bad in [
        "1\n",
        "1 0\n",
        "x 0 @a\n",
        "1 9 @a\n",
        "1 x @a\n",
        "1 0 \n",
        "18446744073709551616 0 @a\n",
    ] {
        assert!(
            matches!(parse_snapshot(bad), Err(NodeStoreError::Serialization(_))),
            "accepted {:?}",
            bad
        );
    }
}

#[test]
fn parse_accepts_the_largest_id() {
    let back = parse_snapshot("18446744073709551615 0 @a\n").unwrap();
    assert_eq!(back.len(), 1);
    assert_eq!(back[0].id, u64::MAX);
}
