//! Per-symbol health accounting and the derived health score.
//!
//! All clock-dependent operations take the current time as an argument
//! (milliseconds since the Unix epoch), so every derivation here is a pure
//! function of the record and the given instant.

use vstd::prelude::*;

verus! {

/// Saturating subtraction on naturals.
pub open spec fn sat_sub(a: nat, b: nat) -> nat {
    if a >= b {
        (a - b) as nat
    } else {
        0
    }
}

/// Saturating increment of a 64-bit counter.
pub open spec fn sat_inc(a: u64) -> u64 {
    if a < u64::MAX {
        (a + 1) as u64
    } else {
        u64::MAX
    }
}

/// Health classification of a symbol, derived from its health score.
#[derive(Debug, Clone, Copy, PartialEq, Eq, Structural)]
pub enum HealthStatus {
    Good,
    Warn,
    Fail,
}

/// Mutable per-symbol health record. Timestamps are milliseconds since
/// the Unix epoch; the message rate is in thousandths of messages per
/// second.
#[derive(Debug, Clone)]
pub struct SymbolHealth {
    pub symbol: String,
    pub connected: bool,
    pub last_msg_ts_ms: Option<u64>,
    pub total_msgs: u64,
    pub checksum_ok: u64,
    pub checksum_fail: u64,
    pub last_checksum_mismatch_ms: Option<u64>,
    pub consecutive_fails: u64,
    pub reconnect_count: u64,
    pub msg_rate_milli: u64,
}

/// The checksum success rate in basis points: `ok / (ok + fail)`, scaled
/// by 10000, and 10000 (a rate of one) when nothing was verified yet.
pub open spec fn spec_ok_rate_bps(h: SymbolHealth) -> nat {
    let total = h.checksum_ok + h.checksum_fail;
    if total == 0 {
        10000
    } else {
        (h.checksum_ok * 10000) as nat / total as nat
    }
}

/// Whether the symbol is stale at `now_ms`: no message ever, or the last
/// one more than 60 seconds ago.
pub open spec fn spec_stale(h: SymbolHealth, now_ms: u64) -> bool {
    match h.last_msg_ts_ms {
        Option::None => true,
        Option::Some(t) => now_ms > t && now_ms - t > 60000,
    }
}

/// The health score at `now_ms`: start at 100; subtract the failure rate
/// in percent when it exceeds one percent; subtract 5 for each of the
/// last consecutive failures (at most 10 counted); subtract 50 when not
/// connected; subtract 30 when stale. Saturates at 0.
pub open spec fn spec_health_score(h: SymbolHealth, now_ms: u64) -> nat {
    let total = h.checksum_ok + h.checksum_fail;
    let s1 = if total > 0 && h.checksum_fail * 100 > total {
        sat_sub(100, (h.checksum_fail * 100) as nat / total as nat)
    } else {
        100
    };
    let s2 = if h.consecutive_fails > 0 {
        sat_sub(s1, 5 * (if h.consecutive_fails < 10 { h.consecutive_fails as nat } else { 10 }))
    } else {
        s1
    };
    let s3 = if !h.connected {
        sat_sub(s2, 50)
    } else {
        s2
    };
    if spec_stale(h, now_ms) {
        sat_sub(s3, 30)
    } else {
        s3
    }
}

/// The status a score maps to: 90 and above is good, 70 and above warns,
/// anything lower fails.
pub open spec fn spec_status(h: SymbolHealth, now_ms: u64) -> HealthStatus {
    let score = spec_health_score(h, now_ms);
    if score >= 90 {
        HealthStatus::Good
    } else if score >= 70 {
        HealthStatus::Warn
    } else {
        HealthStatus::Fail
    }
}

impl SymbolHealth {
    /// A fresh record for a symbol: disconnected, nothing counted.
    pub fn new(symbol: String) -> (r: SymbolHealth)
        ensures
            r.symbol == symbol,
            !r.connected,
            r.last_msg_ts_ms is None,
            r.total_msgs == 0,
            r.checksum_ok == 0,
            r.checksum_fail == 0,
            r.last_checksum_mismatch_ms is None,
            r.consecutive_fails == 0,
            r.reconnect_count == 0,
            r.msg_rate_milli == 0,
    {
        SymbolHealth {
            symbol,
            connected: false,
            last_msg_ts_ms: None,
            total_msgs: 0,
            checksum_ok: 0,
            checksum_fail: 0,
            last_checksum_mismatch_ms: None,
            consecutive_fails: 0,
            reconnect_count: 0,
            msg_rate_milli: 0,
        }
    }

    /// The checksum success rate in basis points; always between 0 and
    /// 10000, and exactly 10000 when nothing was verified yet.
    pub fn checksum_ok_rate(&self) -> (r: u64)
        ensures
            r == spec_ok_rate_bps(*self),
            r <= 10000,
    {
        if self.checksum_ok == 0 && self.checksum_fail == 0 {
            10000
        } else {
            let total = (self.checksum_ok as u128) + (self.checksum_fail as u128);
            let r = (self.checksum_ok as u128) * 10000 / total;
            proof {
                assert(self.checksum_ok * 10000 <= total * 10000) by (nonlinear_arith)
                    requires self.checksum_ok <= total,
                ;
                assert((self.checksum_ok * 10000) as nat / (total as nat) <= 10000)
                    by (nonlinear_arith)
                    requires
                        total > 0,
                        self.checksum_ok * 10000 <= total * 10000,
                ;
            }
            r as u64
        }
    }

    /// The health score at `now_ms`; always between 0 and 100.
    pub fn health_score(&self, now_ms: u64) -> (r: u8)
        ensures
            r as nat == spec_health_score(*self, now_ms),
            r <= 100,
    {
        let mut score: u8 = 100;
        let total = (self.checksum_ok as u128) + (self.checksum_fail as u128);
        if total > 0 && (self.checksum_fail as u128) * 100 > total {
            let d = (self.checksum_fail as u128) * 100 / total;
            proof {
                assert(self.checksum_fail * 100 <= total * 100) by (nonlinear_arith)
                    requires self.checksum_fail <= total,
                ;
                assert((self.checksum_fail * 100) as nat / (total as nat) <= 100)
                    by (nonlinear_arith)
                    requires
                        total > 0,
                        self.checksum_fail * 100 <= total * 100,
                ;
            }
            let d8 = d as u8;
            score = if score >= d8 {
                score - d8
            } else {
                0
            };
        }
        if self.consecutive_fails > 0 {
            let capped: u64 = if self.consecutive_fails < 10 {
                self.consecutive_fails
            } else {
                10
            };
            let d8 = (capped * 5) as u8;
            score = if score >= d8 {
                score - d8
            } else {
                0
            };
        }
        if !self.connected {
            score = if score >= 50 {
                score - 50
            } else {
                0
            };
        }
        let stale = match self.last_msg_ts_ms {
            None => true,
            Some(t) => now_ms > t && now_ms - t > 60000,
        };
        if stale {
            score = if score >= 30 {
                score - 30
            } else {
                0
            };
        }
        score
    }

    /// The status at `now_ms` under the fixed thresholds.
    pub fn status(&self, now_ms: u64) -> (r: HealthStatus)
        ensures
            r == spec_status(*self, now_ms),
    {
        let score = self.health_score(now_ms);
        if score >= 90 {
            HealthStatus::Good
        } else if score >= 70 {
            HealthStatus::Warn
        } else {
            HealthStatus::Fail
        }
    }

    /// Records a successful checksum: bumps the success counter and
    /// resets the consecutive-failure streak.
    pub fn record_checksum_ok(&mut self)
        ensures
            final(self).checksum_ok == sat_inc(old(self).checksum_ok),
            final(self).consecutive_fails == 0,
            *final(self) == (SymbolHealth {
                checksum_ok: final(self).checksum_ok,
                consecutive_fails: 0,
                ..*old(self)
            }),
    {
        self.checksum_ok = if self.checksum_ok < u64::MAX {
            self.checksum_ok + 1
        } else {
            u64::MAX
        };
        self.consecutive_fails = 0;
    }

    /// Records a failed checksum at `now_ms`: bumps both failure
    /// counters and stamps the mismatch time.
    pub fn record_checksum_fail(&mut self, now_ms: u64)
        ensures
            final(self).checksum_fail == sat_inc(old(self).checksum_fail),
            final(self).consecutive_fails == sat_inc(old(self).consecutive_fails),
            final(self).last_checksum_mismatch_ms == Some(now_ms),
            *final(self) == (SymbolHealth {
                checksum_fail: final(self).checksum_fail,
                consecutive_fails: final(self).consecutive_fails,
                last_checksum_mismatch_ms: Some(now_ms),
                ..*old(self)
            }),
    {
        self.checksum_fail = if self.checksum_fail < u64::MAX {
            self.checksum_fail + 1
        } else {
            u64::MAX
        };
        self.consecutive_fails = if self.consecutive_fails < u64::MAX {
            self.consecutive_fails + 1
        } else {
            u64::MAX
        };
        self.last_checksum_mismatch_ms = Some(now_ms);
    }

    /// Records an arriving message at `now_ms`.
    pub fn record_message(&mut self, now_ms: u64)
        ensures
            final(self).total_msgs == sat_inc(old(self).total_msgs),
            final(self).last_msg_ts_ms == Some(now_ms),
            *final(self) == (SymbolHealth {
                total_msgs: final(self).total_msgs,
                last_msg_ts_ms: Some(now_ms),
                ..*old(self)
            }),
    {
        self.total_msgs = if self.total_msgs < u64::MAX {
            self.total_msgs + 1
        } else {
            u64::MAX
        };
        self.last_msg_ts_ms = Some(now_ms);
    }

    /// Sets the message-rate estimate (thousandths of messages/second).
    pub fn update_msg_rate(&mut self, rate_milli: u64)
        ensures
            *final(self) == (SymbolHealth { msg_rate_milli: rate_milli, ..*old(self) }),
    {
        self.msg_rate_milli = rate_milli;
    }
}

/// The worse of two statuses.
pub open spec fn worst_status(a: HealthStatus, b: HealthStatus) -> HealthStatus {
    if a is Fail || b is Fail {
        HealthStatus::Fail
    } else if a is Warn || b is Warn {
        HealthStatus::Warn
    } else {
        HealthStatus::Good
    }
}

/// The worst status across a list of symbols; good when none is tracked.
pub open spec fn spec_overall_status(hs: Seq<SymbolHealth>, now_ms: u64) -> HealthStatus
    decreases hs.len(),
{
    if hs.len() == 0 {
        HealthStatus::Good
    } else {
        worst_status(spec_overall_status(hs.drop_last(), now_ms), spec_status(hs.last(), now_ms))
    }
}

/// Aggregate health: the worst per-symbol status and the records.
#[derive(Debug, Clone)]
pub struct OverallHealth {
    pub status: HealthStatus,
    pub symbols: Vec<SymbolHealth>,
    pub uptime_seconds: u64,
}

/// Computes the worst status across the given symbols at `now_ms`;
/// good when none is tracked.
pub fn overall_status(symbols: &Vec<SymbolHealth>, now_ms: u64) -> (r: HealthStatus)
    ensures
        r == spec_overall_status(symbols@, now_ms),
{
    let mut r = HealthStatus::Good;
    let mut i: usize = 0;
    while i < symbols.len()
        invariant
            i <= symbols@.len(),
            r == spec_overall_status(symbols@.take(i as int), now_ms),
        decreases symbols@.len() - i,
    {
        proof {
            assert(symbols@.take(i + 1).drop_last() =~= symbols@.take(i as int));
            assert(symbols@.take(i + 1).last() == symbols@[i as int]);
        }
        let s = symbols[i].status(now_ms);
        r = match (r, s) {
            (HealthStatus::Fail, _) => HealthStatus::Fail,
            (_, HealthStatus::Fail) => HealthStatus::Fail,
            (HealthStatus::Warn, _) => HealthStatus::Warn,
            (_, HealthStatus::Warn) => HealthStatus::Warn,
            _ => HealthStatus::Good,
        };
        i = i + 1;
    }
    proof {
        assert(symbols@.take(symbols@.len() as int) =~= symbols@);
    }
    r
}

/// Builds the aggregate health record at `now_ms`.
pub fn overall_health(symbols: Vec<SymbolHealth>, now_ms: u64, uptime_seconds: u64) -> (r: OverallHealth)
    ensures
        r.status == spec_overall_status(symbols@, now_ms),
        r.symbols@ == symbols@,
        r.uptime_seconds == uptime_seconds,
{
    let status = overall_status(&symbols, now_ms);
    OverallHealth { status, symbols, uptime_seconds }
}

} // verus!
