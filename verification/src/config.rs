//! The immutable connection policy object, built by incremental option
//! setting and a final fill-with-defaults step, plus the snapshot
//! trailing strategy accepted by the consensus engine handle.

use vstd::prelude::*;

verus! {

/// How the consensus engine trims its log behind a snapshot.
#[derive(Clone, Copy, Debug, PartialEq, Eq, Structural)]
pub enum TrailingStrategy {
    Static,
    Dynamic,
}

impl TrailingStrategy {
    /// The integer code the engine's C interface uses for this strategy.
    pub open spec fn spec_code(self) -> i32 {
        match self {
            TrailingStrategy::Static => 0,
            TrailingStrategy::Dynamic => 1,
        }
    }

    /// Encodes the strategy for the engine's C interface.
    pub fn to_c_int(self) -> (r: i32)
        ensures
            r == self.spec_code(),
    {
        match self {
            TrailingStrategy::Static => 0,
            TrailingStrategy::Dynamic => 1,
        }
    }

    /// Decodes a strategy from the engine's integer code; codes outside
    /// the fixed range decode to nothing.
    pub fn from_c_int(value: i32) -> (r: Option<Self>)
        ensures
            r is Some <==> 0 <= value <= 1,
            r matches Some(s) ==> s.spec_code() == value,
    {
        match value {
            0 => Some(TrailingStrategy::Static),
            1 => Some(TrailingStrategy::Dynamic),
            _ => None,
        }
    }
}

/// Connection policy: timeouts and backoff in milliseconds, the retry
/// budget, the concurrency bound on leader dials, and whether one
/// physical connection may be shared. Unset options are zero or `None`
/// until `with_defaults` fills them.
#[derive(Clone, Copy, Debug)]
pub struct Config {
    pub dial_timeout_ms: u64,
    pub attempt_timeout_ms: u64,
    pub backoff_factor_ms: u64,
    pub backoff_cap_ms: u64,
    pub retry_limit: Option<u32>,
    pub concurrent_leader_conns: u64,
    pub permit_shared: bool,
}

impl Config {
    /// A configuration with every option unset.
    pub fn new() -> (r: Self)
        ensures
            r.dial_timeout_ms == 0,
            r.attempt_timeout_ms == 0,
            r.backoff_factor_ms == 0,
            r.backoff_cap_ms == 0,
            r.retry_limit is None,
            r.concurrent_leader_conns == 0,
            !r.permit_shared,
    {
        Config {
            dial_timeout_ms: 0,
            attempt_timeout_ms: 0,
            backoff_factor_ms: 0,
            backoff_cap_ms: 0,
            retry_limit: None,
            concurrent_leader_conns: 0,
            permit_shared: false,
        }
    }

    /// Sets the overall dial timeout.
    pub fn with_dial_timeout(self, timeout_ms: u64) -> (r: Self)
        ensures
            r == (Config { dial_timeout_ms: timeout_ms, ..self }),
    {
        Config { dial_timeout_ms: timeout_ms, ..self }
    }

    /// Sets the per-attempt timeout.
    pub fn with_attempt_timeout(self, timeout_ms: u64) -> (r: Self)
        ensures
            r == (Config { attempt_timeout_ms: timeout_ms, ..self }),
    {
        Config { attempt_timeout_ms: timeout_ms, ..self }
    }

    /// Sets the starting backoff delay.
    pub fn with_backoff_factor(self, factor_ms: u64) -> (r: Self)
        ensures
            r == (Config { backoff_factor_ms: factor_ms, ..self }),
    {
        Config { backoff_factor_ms: factor_ms, ..self }
    }

    /// Sets the backoff ceiling.
    pub fn with_backoff_cap(self, cap_ms: u64) -> (r: Self)
        ensures
            r == (Config { backoff_cap_ms: cap_ms, ..self }),
    {
        Config { backoff_cap_ms: cap_ms, ..self }
    }

    /// Sets the retry budget: how many full passes over the candidate
    /// list a connect attempt may make.
    pub fn with_retry_limit(self, limit: u32) -> (r: Self)
        ensures
            r == (Config { retry_limit: Some(limit), ..self }),
    {
        Config { retry_limit: Some(limit), ..self }
    }

    /// Sets the bound on concurrent leader connection attempts.
    pub fn with_concurrent_leader_conns(self, conns: u64) -> (r: Self)
        ensures
            r == (Config { concurrent_leader_conns: conns, ..self }),
    {
        Config { concurrent_leader_conns: conns, ..self }
    }

    /// Sets whether one physical connection may serve several logical
    /// clients.
    pub fn with_permit_shared(self, permit: bool) -> (r: Self)
        ensures
            r == (Config { permit_shared: permit, ..self }),
    {
        Config { permit_shared: permit, ..self }
    }

    /// Fills every option still unset with its default: dial timeout
    /// 5 s, attempt timeout 15 s, backoff factor 100 ms, backoff cap
    /// 1 s, retry limit 10, concurrent leader connections 10.
    pub fn with_defaults(self) -> (r: Self)
        ensures
            r.dial_timeout_ms == if self.dial_timeout_ms == 0 {
                5000u64
            } else {
                self.dial_timeout_ms
            },
            r.attempt_timeout_ms == if self.attempt_timeout_ms == 0 {
                15000u64
            } else {
                self.attempt_timeout_ms
            },
            r.backoff_factor_ms == if self.backoff_factor_ms == 0 {
                100u64
            } else {
                self.backoff_factor_ms
            },
            r.backoff_cap_ms == if self.backoff_cap_ms == 0 {
                1000u64
            } else {
                self.backoff_cap_ms
            },
            r.retry_limit == if self.retry_limit is None {
                Some(10u32)
            } else {
                self.retry_limit
            },
            r.concurrent_leader_conns == if self.concurrent_leader_conns == 0 {
                10u64
            } else {
                self.concurrent_leader_conns
            },
            r.permit_shared == self.permit_shared,
    {
        let mut c = self;
        if c.dial_timeout_ms == 0 {
            c.dial_timeout_ms = 5000;
        }
        if c.attempt_timeout_ms == 0 {
            c.attempt_timeout_ms = 15000;
        }
        if c.backoff_factor_ms == 0 {
            c.backoff_factor_ms = 100;
        }
        if c.backoff_cap_ms == 0 {
            c.backoff_cap_ms = 1000;
        }
        if c.retry_limit.is_none() {
            c.retry_limit = Some(10);
        }
        if c.concurrent_leader_conns == 0 {
            c.concurrent_leader_conns = 10;
        }
        c
    }
}

} // verus!
