use cluster_client::config::{Config, TrailingStrategy};
use cluster_client::connector::{next_backoff, ConnectError, Connector, Dialer, LeaderTracker, Protocol};
use cluster_client::store::{InMemoryNodeStore, NodeInfo, NodeRole, NodeStore};

fn member(id: u64, addr: &str) -> NodeInfo {
    NodeInfo { id, addr: addr.to_string(), role: NodeRole::Voter }
}

fn store_with(addrs: &[&str]) -> InMemoryNodeStore {
    let mut s = InMemoryNodeStore::new();
    let nodes: Vec<NodeInfo> =
        addrs.iter().enumerate().map(|(i, a)| member(i as u64 + 1, a)).collect();
    s.set_all(nodes).unwrap();
    s
}

/// A scripted fake dialer: fails for the first `fail_first` dial calls,
/// then succeeds; records every dial target and every sleep.
struct ScriptedDialer {
    fail_first: usize,
    calls: Vec<String>,
    sleeps: Vec<u64>,
    cancelled: bool,
}

impl ScriptedDialer {
    fn failing_first(n: usize) -> Self {
        ScriptedDialer { fail_first: n, calls: Vec::new(), sleeps: Vec::new(), cancelled: false }
    }
}

impl Dialer for ScriptedDialer {
    type Conn = u32;

    fn dial(&mut self, addr: &str) -> Result<u32, String> {
        self.calls.push(addr.to_string());
        if self.calls.len() <= self.fail_first {
            Err(format!("refused: {}", addr))
        } else {
            Ok(7)
        }
    }

    fn is_cancelled(&mut self) -> bool {
        self.cancelled
    }

    fn sleep_ms(&mut self, ms: u64) {
        self.sleeps.push(ms);
    }
}

#[test]
fn connect_retries_until_a_dial_succeeds_and_tracks_the_leader() {
    let store = store_with(&["127.0.0.1:9001"]);
    let config = Config::new()
        .with_backoff_factor(100)
        .with_backoff_cap(1000)
        .with_retry_limit(3)
        .with_defaults();
    let mut c = Connector::new(1, store, config);
    let mut d = ScriptedDialer::failing_first(2);
    let p = c.connect(&mut d).unwrap();
    assert_eq!(p.addr, "127.0.0.1:9001");
    assert!(p.last_error.is_none());
    assert_eq!(c.tracker.leader(), Some("127.0.0.1:9001".to_string()));
    assert_eq!(d.calls.len(), 3);
    assert_eq!(d.sleeps, vec![100, 200]);
}

#[test]
fn connect_exhausts_after_exactly_the_retry_limit_passes() {
    let store = store_with(&["127.0.0.1:9001", "127.0.0.1:9002"]);
    let config = Config::new()
        .with_backoff_factor(100)
        .with_backoff_cap(1000)
        .with_retry_limit(2)
        .with_defaults();
    let mut c = Connector::new(1, store, config);
    let mut d = ScriptedDialer::failing_first(usize::MAX);
    match c.connect(&mut d) {
        Err(ConnectError::RetriesExhausted(errs)) => {
            assert_eq!(errs.len(), 2);
            assert_eq!(errs[0], "refused: 127.0.0.1:9001");
            assert_eq!(errs[1], "refused: 127.0.0.1:9002");
        }
        other => panic!("expected exhaustion, got {:?}", other.map(|p| p.addr)),
    }
    // Two full passes over both candidates, one backoff wait between them.
    assert_eq!(d.calls.len(), 4);
    assert_eq!(d.sleeps, vec![100]);
    assert!(c.tracker.leader().is_none());
}

#[test]
fn connect_prefers_the_tracked_leader_address() {
    let store = store_with(&["127.0.0.1:9001", "127.0.0.1:9002"]);
    let config = Config::new().with_retry_limit(1).with_defaults();
    let mut c = Connector::new(1, store, config);
    c.tracker.set_leader("127.0.0.1:9002".to_string());
    let mut d = ScriptedDialer::failing_first(0);
    let p = c.connect(&mut d).unwrap();
    assert_eq!(p.addr, "127.0.0.1:9002");
    assert_eq!(d.calls, vec!["127.0.0.1:9002".to_string()]);
}

#[test]
fn cancelled_connect_fails_promptly_without_dialing() {
    let store = store_with(&["127.0.0.1:9001"]);
    let config = Config::new().with_retry_limit(10).with_defaults();
    let mut c = Connector::new(1, store, config);
    let mut d = ScriptedDialer::failing_first(usize::MAX);
    d.cancelled = true;
    assert!(matches!(c.connect(&mut d), Err(ConnectError::Cancelled)));
    assert_eq!(d.calls.len(), 0);
    assert_eq!(d.sleeps.len(), 0);
}

#[test]
fn backoff_doubles_and_caps() {
    assert_eq!(next_backoff(100, 1000), 200);
    assert_eq!(next_backoff(400, 1000), 800);
    assert_eq!(next_backoff(800, 1000), 1000);
    assert_eq!(next_backoff(1000, 1000), 1000);
    assert_eq!(next_backoff(0, 1000), 0);
}

#[test]
fn config_defaults_fill_only_unset_options() {
    let c = Config::new().with_defaults();
    assert_eq!(c.dial_timeout_ms, 5000);
    assert_eq!(c.attempt_timeout_ms, 15000);
    assert_eq!(c.backoff_factor_ms, 100);
    assert_eq!(c.backoff_cap_ms, 1000);
    assert_eq!(c.retry_limit, Some(10));
    assert_eq!(c.concurrent_leader_conns, 10);
    assert!(!c.permit_shared);
    let custom = Config::new()
        .with_dial_timeout(1)
        .with_attempt_timeout(2)
        .with_backoff_factor(3)
        .with_backoff_cap(4)
        .with_retry_limit(5)
        .with_concurrent_leader_conns(6)
        .with_permit_shared(true)
        .with_defaults();
    assert_eq!(custom.dial_timeout_ms, 1);
    assert_eq!(custom.attempt_timeout_ms, 2);
    assert_eq!(custom.backoff_factor_ms, 3);
    assert_eq!(custom.backoff_cap_ms, 4);
    assert_eq!(custom.retry_limit, Some(5));
    assert_eq!(custom.concurrent_leader_conns, 6);
    assert!(custom.permit_shared);
}

#[test]
fn leader_tracker_session_handles_report_liveness() {
    let mut t = LeaderTracker::new();
    assert!(t.leader().is_none());
    assert!(!t.session_alive());
    let g1 = t.bind_session();
    assert!(t.session_alive());
    let g2 = t.bind_session();
    // Destroying the superseded session does not kill the new handle.
    t.invalidate_session(g1);
    assert!(t.session_alive());
    t.invalidate_session(g2);
    assert!(!t.session_alive());
}

#[test]
fn protocol_records_and_clears_errors() {
    let mut p = Protocol::new(99u32, "127.0.0.1:9001".to_string());
    assert_eq!(p.version, 0);
    assert!(p.last_error.is_none());
    p.set_version(1);
    p.record_error("broken pipe".to_string());
    assert_eq!(p.last_error.as_deref(), Some("broken pipe"));
    p.clear_error();
    assert!(p.last_error.is_none());
    assert_eq!(p.close(), 99);
}

#[test]
fn trailing_strategy_codes_round_trip() {
    assert_eq!(TrailingStrategy::Static.to_c_int(), 0);
    assert_eq!(TrailingStrategy::Dynamic.to_c_int(), 1);
    assert_eq!(TrailingStrategy::from_c_int(0), Some(TrailingStrategy::Static));
    assert_eq!(TrailingStrategy::from_c_int(1), Some(TrailingStrategy::Dynamic));
    assert_eq!(TrailingStrategy::from_c_int(2), None);
    assert_eq!(TrailingStrategy::from_c_int(-1), None);
}
