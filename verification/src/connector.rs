//! The connector: resolves the current leader and dials it under the
//! configured retry/backoff policy, together with the leader tracker it
//! updates and the per-connection session state it produces.
//!
//! Dialing itself is pluggable: the connector drives any `Dialer`, so a
//! real transport and a test fake are treated alike. Within one call
//! dials are attempted one candidate at a time, which keeps every attempt
//! inside the configured concurrency bound.

use vstd::prelude::*;
use crate::config::Config;
use crate::store::NodeInfoV;
use crate::store::NodeStore;

verus! {

/// A unified transport address: a TCP address-and-port, or a Unix-domain
/// socket that may be unnamed; an unnamed one displays distinctly from a
/// path-based one.
#[derive(Clone, Debug, PartialEq, Eq)]
pub enum Addr {
    Tcp(String),
    Unix(Option<String>),
}

impl Addr {
    /// The display text of this address.
    pub open spec fn spec_text(&self) -> Seq<char> {
        match self {
            Addr::Tcp(a) => a@,
            Addr::Unix(Some(p)) => "unix:"@ + p@,
            Addr::Unix(None) => "unix:<unnamed>"@,
        }
    }

    /// Renders the address for display.
    pub fn to_text(&self) -> (r: String)
        ensures
            r@ == self.spec_text(),
    {
        match self {
            Addr::Tcp(a) => a.clone(),
            Addr::Unix(Some(p)) => String::from_str("unix:").concat(p.as_str()),
            Addr::Unix(None) => String::from_str("unix:<unnamed>"),
        }
    }
}

/// The pluggable dialing capability the connector drives: opening a
/// connection to an address, observing the cancellation signal, and
/// waiting out a backoff delay. Implementations decide what a
/// connection is and how dialing can fail.
pub trait Dialer {
    type Conn;

    /// Attempts to open one connection to `addr`, within the configured
    /// per-attempt timeout.
    fn dial(&mut self, addr: &str) -> (r: Result<Self::Conn, String>);

    /// Whether the cancellation signal for this connect attempt has
    /// fired.
    fn is_cancelled(&mut self) -> (r: bool);

    /// Waits out a backoff delay.
    fn sleep_ms(&mut self, ms: u64);
}

/// The live per-connection state: the negotiated wire-protocol version,
/// the owned connection, the peer address, and the last observed network
/// error (cleared on each new successful exchange). Its lifetime is one
/// physical connection.
#[derive(Debug)]
pub struct Protocol<C> {
    pub version: u64,
    pub conn: C,
    pub addr: String,
    pub last_error: Option<String>,
}

impl<C> Protocol<C> {
    /// Wraps a fresh connection; no version is negotiated yet and no
    /// error has been observed.
    pub fn new(conn: C, addr: String) -> (r: Self)
        ensures
            r.version == 0,
            r.addr@ == addr@,
            r.last_error is None,
    {
        Protocol { version: 0, conn, addr, last_error: None }
    }

    /// Records the negotiated wire-protocol version.
    pub fn set_version(&mut self, version: u64)
        ensures
            final(self).version == version,
            final(self).conn == old(self).conn,
            final(self).addr == old(self).addr,
            final(self).last_error == old(self).last_error,
    {
        self.version = version;
    }

    /// Records an observed network error; the session itself never
    /// retries.
    pub fn record_error(&mut self, err: String)
        ensures
            final(self).last_error == Some(err),
            final(self).version == old(self).version,
            final(self).conn == old(self).conn,
            final(self).addr == old(self).addr,
    {
        self.last_error = Some(err);
    }

    /// Clears the recorded error after a successful exchange.
    pub fn clear_error(&mut self)
        ensures
            final(self).last_error is None,
            final(self).version == old(self).version,
            final(self).conn == old(self).conn,
            final(self).addr == old(self).addr,
    {
        self.last_error = None;
    }

    /// Tears the session down, releasing the owned connection.
    pub fn close(self) -> (c: C)
        ensures
            c == self.conn,
    {
        self.conn
    }
}

/// A session wrapper for a connection that several logical clients are
/// permitted to share.
#[derive(Debug)]
pub struct SharedProtocol<C> {
    pub proto: Protocol<C>,
}

/// The best-known leader address plus a non-owning session handle: the
/// tracker can outlive any one connection attempt, and a dead handle
/// means "no active leader connection", never an error.
#[derive(Debug)]
pub struct LeaderTracker {
    last_known_leader_addr: Option<String>,
    session_gen: u64,
    session_live: bool,
}

impl LeaderTracker {
    /// The tracked leader address, as a character sequence.
    pub closed spec fn leader_view(&self) -> Option<Seq<char>> {
        match self.last_known_leader_addr {
            Some(a) => Some(a@),
            None => None,
        }
    }

    /// The current session generation.
    pub closed spec fn gen_view(&self) -> u64 {
        self.session_gen
    }

    /// Whether a session handle is currently live.
    pub closed spec fn session_alive_view(&self) -> bool {
        self.session_live
    }

    /// A tracker with no known leader and no session.
    pub fn new() -> (r: Self)
        ensures
            r.leader_view() is None,
            !r.session_alive_view(),
            r.gen_view() == 0,
    {
        LeaderTracker { last_known_leader_addr: None, session_gen: 0, session_live: false }
    }

    /// The last-known leader address, if any.
    pub fn leader(&self) -> (r: Option<String>)
        ensures
            r is Some <==> self.leader_view() is Some,
            r matches Some(a) ==> self.leader_view() == Some(a@),
    {
        match &self.last_known_leader_addr {
            Some(a) => Some(a.clone()),
            None => None,
        }
    }

    /// Records the address that most recently accepted a connection;
    /// racing writers resolve last-write-wins.
    pub fn set_leader(&mut self, addr: String)
        ensures
            final(self).leader_view() == Some(addr@),
            final(self).gen_view() == old(self).gen_view(),
            final(self).session_alive_view() == old(self).session_alive_view(),
    {
        self.last_known_leader_addr = Some(addr);
    }

    /// Hands out a fresh live session handle, superseding any earlier
    /// one.
    pub fn bind_session(&mut self) -> (generation: u64)
        requires
            old(self).gen_view() < u64::MAX,
        ensures
            generation == final(self).gen_view(),
            final(self).gen_view() == old(self).gen_view() + 1,
            final(self).session_alive_view(),
            final(self).leader_view() == old(self).leader_view(),
    {
        self.session_gen = self.session_gen + 1;
        self.session_live = true;
        self.session_gen
    }

    /// Invalidates the handle of the given generation, as the owning
    /// session does on destruction; a superseded generation changes
    /// nothing.
    pub fn invalidate_session(&mut self, generation: u64)
        ensures
            final(self).gen_view() == old(self).gen_view(),
            final(self).leader_view() == old(self).leader_view(),
            final(self).session_alive_view() == (old(self).session_alive_view() && generation
                != old(self).gen_view()),
    {
        if generation == self.session_gen {
            self.session_live = false;
        }
    }

    /// Whether the current session handle is live.
    pub fn session_alive(&self) -> (r: bool)
        ensures
            r == self.session_alive_view(),
    {
        self.session_live
    }
}

/// How a connect attempt fails: the cancellation signal fired, or every
/// candidate failed on every pass up to the retry limit, with the last
/// observed error per candidate.
#[derive(Debug)]
pub enum ConnectError {
    Cancelled,
    RetriesExhausted(Vec<String>),
}

/// The delay after the next full pass: the current delay doubled, capped.
pub open spec fn spec_next_backoff(cur: nat, cap: nat) -> nat {
    if 2 * cur <= cap {
        2 * cur
    } else {
        cap
    }
}

/// Doubles a backoff delay, honoring the ceiling.
pub fn next_backoff(cur: u64, cap: u64) -> (r: u64)
    ensures
        r as nat == spec_next_backoff(cur as nat, cap as nat),
        r <= cap || r == cur * 2,
{
    if cur >= cap {
        cap
    } else if cur > cap - cur {
        cap
    } else {
        cur + cur
    }
}

/// The candidate address list for one connect attempt: the last-known
/// leader first, if set, then every member in store order.
pub open spec fn spec_candidates(leader: Option<Seq<char>>, ns: Seq<NodeInfoV>) -> Seq<Seq<char>> {
    (match leader {
        Some(a) => seq![a],
        None => Seq::<Seq<char>>::empty(),
    }) + Seq::new(ns.len(), |i: int| ns[i].addr)
}

/// Orchestrates dialing for one client: consults the node store and the
/// leader tracker to pick targets and produces a live session.
pub struct Connector<S: NodeStore> {
    pub client_id: u64,
    pub store: S,
    pub tracker: LeaderTracker,
    pub config: Config,
}

impl<S: NodeStore> Connector<S> {
    /// A connector over the given store and policy, with a fresh
    /// tracker.
    pub fn new(client_id: u64, store: S, config: Config) -> (r: Self)
        ensures
            r.client_id == client_id,
            r.store == store,
            r.config == config,
            r.tracker.leader_view() is None,
    {
        Connector { client_id, store, tracker: LeaderTracker::new(), config }
    }

    /// Builds the candidate list: the last-known leader address first,
    /// then all members in the store's natural order.
    fn build_candidates(&self) -> (r: Vec<String>)
        requires
            self.store.inv(),
        ensures
            r.deep_view() == spec_candidates(self.tracker.leader_view(), self.store.model().nodes),
    {
        let ghost goal = spec_candidates(self.tracker.leader_view(), self.store.model().nodes);
        let mut out: Vec<String> = Vec::new();
        match self.tracker.leader() {
            Some(a) => {
                out.push(a);
            },
            None => {},
        }
        let ghost base = out.deep_view().len() as int;
        let members = match self.store.get_all() {
            Ok(v) => v,
            // `NodeStore::get_all` owes success, so this arm cannot be
            // reached.
            Err(_) => {
                proof {
                    assert(false);
                }
                Vec::new()
            },
        };
        let ghost ms = members.deep_view();
        let mut i: usize = 0;
        proof {
            assert(forall|k: int| 0 <= k < base ==> #[trigger] out.deep_view()[k] == goal[k]);
        }
        while i < members.len()
            invariant
                i <= members.len(),
                ms == members.deep_view(),
                goal.len() == base + ms.len(),
                0 <= base,
                out.deep_view().len() == base + i,
                forall|k: int| 0 <= k < base + i ==> #[trigger] out.deep_view()[k] == goal[k],
                forall|k: int| 0 <= k < ms.len() ==> goal[base + k] == #[trigger] ms[k].addr,
            decreases members.len() - i,
        {
            let cur = &members[i];
            proof {
                assert(ms[i as int] == cur@);
            }
            let ghost prev = out.deep_view();
            out.push(cur.addr.clone());
            proof {
                assert forall|k: int| 0 <= k < base + i + 1 implies #[trigger] out.deep_view()[k]
                    == goal[k] by {
                    if k < base + i {
                        assert(out.deep_view()[k] == prev[k]);
                    } else {
                        assert(out.deep_view()[k] == cur.addr@);
                        assert(goal[base + i as int] == ms[i as int].addr);
                    }
                }
            }
            i = i + 1;
        }
        assert(out.deep_view() =~= goal);
        out
    }

    /// Dials toward the current leader: tries the leader first, then
    /// every member, within `attempt_timeout` each; between full passes
    /// it backs off exponentially from `backoff_factor` up to
    /// `backoff_cap`; it stops at `retry_limit` passes (an unset limit is
    /// treated as the largest representable number of passes) or when the
    /// cancellation signal fires. On success the tracker's leader address
    /// is updated to the address that accepted. On exhaustion the error
    /// carries one last-observed message per candidate.
    pub fn connect<D: Dialer>(&mut self, dialer: &mut D) -> (r: Result<
        Protocol<<D as Dialer>::Conn>,
        ConnectError,
    >)
        requires
            old(self).store.inv(),
        ensures
            final(self).store == old(self).store,
            final(self).config == old(self).config,
            final(self).client_id == old(self).client_id,
            r matches Ok(p) ==> (spec_candidates(
                old(self).tracker.leader_view(),
                old(self).store.model().nodes,
            ).contains(p.addr@) && final(self).tracker.leader_view() == Some(p.addr@)
                && p.last_error is None && p.version == 0 && final(self).tracker.gen_view()
                == old(self).tracker.gen_view() && final(self).tracker.session_alive_view()
                == old(self).tracker.session_alive_view()),
            r matches Err(e) ==> (final(self).tracker == old(self).tracker && (e
                matches ConnectError::RetriesExhausted(errs) ==> errs.len() == spec_candidates(
                old(self).tracker.leader_view(),
                old(self).store.model().nodes,
            ).len())),
    {
        let ghost goal = spec_candidates(
            old(self).tracker.leader_view(),
            old(self).store.model().nodes,
        );
        let cands = self.build_candidates();
        let ncand = cands.len();
        let mut last_errs: Vec<String> = Vec::new();
        let mut q: usize = 0;
        while q < ncand
            invariant
                q <= ncand,
                last_errs.len() == q,
            decreases ncand - q,
        {
            last_errs.push("not attempted".to_owned());
            q = q + 1;
        }
        let limit: u32 = match self.config.retry_limit {
            Some(l) => l,
            None => u32::MAX,
        };
        let cap = self.config.backoff_cap_ms;
        let factor = self.config.backoff_factor_ms;
        let mut delay: u64 = if factor <= cap {
            factor
        } else {
            cap
        };
        let mut pass: u32 = 0;
        while pass < limit
            invariant
                *self == *old(self),
                old(self).store.inv(),
                goal == spec_candidates(
                    old(self).tracker.leader_view(),
                    old(self).store.model().nodes,
                ),
                cands.deep_view() == goal,
                ncand == cands.len(),
                last_errs.len() == ncand,
                pass <= limit,
            decreases limit - pass,
        {
            if dialer.is_cancelled() {
                return Err(ConnectError::Cancelled);
            }
            let mut i: usize = 0;
            let mut errs_pass: Vec<String> = Vec::new();
            while i < ncand
                invariant
                    *self == *old(self),
                    old(self).store.inv(),
                    goal == spec_candidates(
                        old(self).tracker.leader_view(),
                        old(self).store.model().nodes,
                    ),
                    cands.deep_view() == goal,
                    ncand == cands.len(),
                    i <= ncand,
                    errs_pass.len() == i,
                decreases ncand - i,
            {
                if dialer.is_cancelled() {
                    return Err(ConnectError::Cancelled);
                }
                match dialer.dial(cands[i].as_str()) {
                    Ok(conn) => {
                        let addr = cands[i].clone();
                        proof {
                            assert(cands.deep_view()[i as int] == cands[i as int]@);
                            assert(goal[i as int] == addr@);
                            assert(goal.contains(addr@));
                        }
                        self.tracker.set_leader(addr.clone());
                        let p = Protocol::new(conn, addr);
                        return Ok(p);
                    },
                    Err(e) => {
                        errs_pass.push(e);
                    },
                }
                i = i + 1;
            }
            last_errs = errs_pass;
            pass = pass + 1;
            if pass < limit {
                if dialer.is_cancelled() {
                    return Err(ConnectError::Cancelled);
                }
                dialer.sleep_ms(delay);
                delay = next_backoff(delay, cap);
            }
        }
        Err(ConnectError::RetriesExhausted(last_errs))
    }
}

} // verus!
