//! The per-symbol integrity proof: the diagnostic record attached to each
//! checksum verification, with a rolling latency window.

use vstd::prelude::*;
use crate::decimal::Decimal;
use crate::orderbook::{Orderbook, min_len};
use crate::checksum::{build_checksum_string, compute_crc32, crc32_of, spec_checksum_chars,
    checksum_asks, checksum_bids};
use crate::digits::hex8;

verus! {

/// A sequence is sorted ascending.
pub open spec fn sorted(s: Seq<u64>) -> bool {
    forall|i: int, j: int| 0 <= i < j < s.len() ==> s[i] <= s[j]
}

/// The sum of a sequence of samples.
pub open spec fn sum_seq(s: Seq<u64>) -> nat
    decreases s.len(),
{
    if s.len() == 0 {
        0
    } else {
        (sum_seq(s.drop_last()) + s.last()) as nat
    }
}

/// Inserts a sample into a sorted list, keeping it sorted.
fn sorted_insert(r: &mut Vec<u64>, x: u64)
    requires
        sorted(old(r)@),
    ensures
        sorted(final(r)@),
        final(r)@.to_multiset() == old(r)@.to_multiset().insert(x),
        final(r)@.len() == old(r)@.len() + 1,
{
    let mut i: usize = 0;
    while i < r.len() && r[i] <= x
        invariant
            sorted(r@),
            r@ == old(r)@,
            i <= r@.len(),
            forall|j: int| 0 <= j < i ==> (#[trigger] r@[j]) <= x,
        decreases r@.len() - i,
    {
        i = i + 1;
    }
    let ghost s1 = r@;
    proof {
        assert forall|j: int| i <= j < s1.len() implies (#[trigger] s1[j]) > x by {
            if j > i {
                assert(s1[i as int] <= s1[j]);
            }
        }
    }
    r.insert(i, x);
    proof {
        broadcast use vstd::seq_lib::group_to_multiset_ensures;

        let s2 = r@;
        assert(s2 =~= s1.insert(i as int, x));
        assert forall|a: int, b: int| 0 <= a < b < s2.len()
            implies (#[trigger] s2[a]) <= (#[trigger] s2[b]) by {
            if a < i && b < i {
                assert(s2[a] == s1[a] && s2[b] == s1[b]);
            } else if a < i && b == i {
                assert(s2[a] == s1[a]);
            } else if a < i && b > i {
                assert(s2[a] == s1[a] && s2[b] == s1[b - 1]);
            } else if a == i {
                assert(s2[b] == s1[b - 1]);
            } else {
                assert(s2[a] == s1[a - 1] && s2[b] == s1[b - 1]);
            }
        }
        assert(s2.remove(i as int) =~= s1);
        assert(s2[i as int] == x);
        assert(s1.to_multiset() =~= s2.to_multiset().remove(x));
        assert(s2.contains(x)) by {
            assert(s2[i as int] == x);
        }
        assert(s2.to_multiset().count(x) > 0);
        assert(s2.to_multiset() =~= s1.to_multiset().insert(x)) by {
            assert forall|y: u64| s2.to_multiset().count(y)
                == #[trigger] s1.to_multiset().insert(x).count(y) by {
                if y == x {
                    assert(s2.to_multiset().remove(x).count(x) == s2.to_multiset().count(x) - 1);
                } else {
                    assert(s2.to_multiset().remove(x).count(y) == s2.to_multiset().count(y));
                }
            }
        }
    }
}

/// Sorts the samples ascending.
fn sort_samples(v: &Vec<u64>) -> (r: Vec<u64>)
    ensures
        sorted(r@),
        r@.to_multiset() == v@.to_multiset(),
        r@.len() == v@.len(),
{
    let mut out: Vec<u64> = Vec::new();
    let mut i: usize = 0;
    proof {
        broadcast use vstd::seq_lib::group_to_multiset_ensures;

        assert(v@.take(0) =~= Seq::<u64>::empty());
        assert(out@.to_multiset() =~= v@.take(0).to_multiset());
    }
    while i < v.len()
        invariant
            i <= v@.len(),
            sorted(out@),
            out@.len() == i,
            out@.to_multiset() == v@.take(i as int).to_multiset(),
        decreases v@.len() - i,
    {
        proof {
            broadcast use vstd::seq_lib::group_to_multiset_ensures;

            assert(v@.take(i + 1) =~= v@.take(i as int).push(v@[i as int]));
            assert(v@.take(i + 1).to_multiset() =~= v@.take(i as int).to_multiset().insert(
                v@[i as int]));
        }
        sorted_insert(&mut out, v[i]);
        i = i + 1;
    }
    proof {
        assert(v@.take(v@.len() as int) =~= v@);
    }
    out
}

/// Latency summary over the rolling window.
#[derive(Debug, Clone)]
pub struct LatencyStats {
    pub last_ms: u64,
    pub avg_ms_milli: u128,
    pub p95_ms: u64,
}

/// Diagnostic snapshot attached to each verification of one symbol.
#[derive(Debug, Clone)]
pub struct IntegrityProof {
    pub expected_checksum: u32,
    pub computed_checksum: u32,
    pub checksum_preview: String,
    pub checksum_len: usize,
    pub top_asks: Vec<(Decimal, Decimal)>,
    pub top_bids: Vec<(Decimal, Decimal)>,
    pub verify_latency_ms: u64,
    pub last_verify_ts_ms: u64,
    pub last_mismatch_ts_ms: Option<u64>,
    pub diagnosis: Option<String>,
    pub latency_history: Vec<u64>,
}

impl IntegrityProof {
    /// The rolling window holds at most 1000 samples.
    pub open spec fn wf(self) -> bool {
        self.latency_history@.len() <= 1000
    }

    /// A fresh proof record at `now_ms`, with nothing verified yet.
    pub fn new(now_ms: u64) -> (r: IntegrityProof)
        ensures
            r.wf(),
            r.expected_checksum == 0,
            r.computed_checksum == 0,
            r.checksum_preview@ == Seq::<char>::empty(),
            r.checksum_len == 0,
            r.top_asks@.len() == 0,
            r.top_bids@.len() == 0,
            r.verify_latency_ms == 0,
            r.last_verify_ts_ms == now_ms,
            r.last_mismatch_ts_ms is None,
            r.diagnosis is None,
            r.latency_history@.len() == 0,
    {
        IntegrityProof {
            expected_checksum: 0,
            computed_checksum: 0,
            checksum_preview: String::new(),
            checksum_len: 0,
            top_asks: Vec::new(),
            top_bids: Vec::new(),
            verify_latency_ms: 0,
            last_verify_ts_ms: now_ms,
            last_mismatch_ts_ms: None,
            diagnosis: None,
            latency_history: Vec::new(),
        }
    }

    /// Whether the last verification matched.
    pub fn is_match(&self) -> (r: bool)
        ensures
            r == (self.expected_checksum == self.computed_checksum),
    {
        self.expected_checksum == self.computed_checksum
    }

    /// Records a verification latency in the rolling window, evicting
    /// the oldest sample beyond 1000.
    pub fn record_latency(&mut self, latency_ms: u64)
        requires
            old(self).wf(),
        ensures
            final(self).wf(),
            final(self).verify_latency_ms == latency_ms,
            final(self).latency_history@ == (if old(self).latency_history@.len() < 1000 {
                old(self).latency_history@.push(latency_ms)
            } else {
                old(self).latency_history@.skip(1).push(latency_ms)
            }),
            *final(self) == (IntegrityProof {
                verify_latency_ms: latency_ms,
                latency_history: final(self).latency_history,
                ..*old(self)
            }),
    {
        self.verify_latency_ms = latency_ms;
        if self.latency_history.len() == 1000 {
            let ghost h0 = self.latency_history@;
            self.latency_history.remove(0);
            proof {
                assert(self.latency_history@ =~= h0.skip(1));
            }
        }
        self.latency_history.push(latency_ms);
    }

    /// The latency summary: the last sample, the window average in
    /// thousandths of a millisecond, and the 95th-percentile sample of
    /// the sorted window. An empty window reports the last latency.
    pub fn latency_stats(&self) -> (r: LatencyStats)
        requires
            self.wf(),
        ensures
            r.last_ms == self.verify_latency_ms,
            self.latency_history@.len() == 0 ==> r.avg_ms_milli == self.verify_latency_ms * 1000
                && r.p95_ms == self.verify_latency_ms,
            self.latency_history@.len() > 0 ==> {
                &&& r.avg_ms_milli == sum_seq(self.latency_history@) * 1000
                    / self.latency_history@.len()
                &&& exists|s: Seq<u64>|
                    {
                        &&& s.to_multiset() == self.latency_history@.to_multiset()
                        &&& #[trigger] sorted(s)
                        &&& s.len() == self.latency_history@.len()
                        &&& r.p95_ms == s[p95_index(s.len()) as int]
                    }
            },
    {
        if self.latency_history.len() == 0 {
            return LatencyStats {
                last_ms: self.verify_latency_ms,
                avg_ms_milli: (self.verify_latency_ms as u128) * 1000,
                p95_ms: self.verify_latency_ms,
            };
        }
        let sorted_v = sort_samples(&self.latency_history);
        let n = sorted_v.len();
        let mut sum: u128 = 0;
        let mut i: usize = 0;
        proof {
            assert(self.latency_history@.take(0) =~= Seq::<u64>::empty());
        }
        while i < self.latency_history.len()
            invariant
                i <= self.latency_history@.len() <= 1000,
                sum == sum_seq(self.latency_history@.take(i as int)),
                sum <= i * (u64::MAX as nat),
            decreases self.latency_history@.len() - i,
        {
            proof {
                assert(self.latency_history@.take(i + 1).drop_last()
                    =~= self.latency_history@.take(i as int));
                assert(self.latency_history@.take(i + 1).last()
                    == self.latency_history@[i as int]);
            }
            sum = sum + (self.latency_history[i] as u128);
            i = i + 1;
        }
        proof {
            assert(self.latency_history@.take(self.latency_history@.len() as int)
                =~= self.latency_history@);
        }
        let avg = sum * 1000 / (self.latency_history.len() as u128);
        let idx = n * 95 / 100;
        let idx = if idx < n {
            idx
        } else {
            n - 1
        };
        proof {
            assert(n * 95 / 100 < n) by (nonlinear_arith)
                requires n >= 1,
            ;
            assert(idx == p95_index(n as nat));
        }
        let p95 = sorted_v[idx];
        proof {
            let s = sorted_v@;
            assert(sorted(s) && s.to_multiset() == self.latency_history@.to_multiset()
                && s.len() == self.latency_history@.len()
                && p95 == s[p95_index(s.len()) as int]);
        }
        LatencyStats { last_ms: self.verify_latency_ms, avg_ms_milli: avg, p95_ms: p95 }
    }
}

/// The index of the 95th-percentile sample in a sorted window.
pub open spec fn p95_index(len: nat) -> nat {
    if len * 95 / 100 < len {
        len * 95 / 100
    } else {
        (len - 1) as nat
    }
}

/// The mismatch diagnosis text for a pair of checksums.
pub open spec fn spec_diagnosis(expected: u32, computed: u32) -> Seq<char> {
    "Expected 0x"@ + hex8(expected) + " but computed 0x"@ + hex8(computed)
}

/// Verifies the book against an expected checksum and refreshes the
/// integrity proof: the checksum pair, a 64-character preview of the
/// canonical string and its length, the top-10 slices, the latency and
/// the verification time; on a mismatch also the mismatch time and a
/// diagnosis line. Returns whether the checksums matched.
pub fn update_integrity_proof(
    record: &mut IntegrityProof,
    book: &Orderbook,
    expected_checksum: u32,
    price_precision: u32,
    qty_precision: u32,
    latency_ms: u64,
    now_ms: u64,
) -> (r: bool)
    requires
        old(record).wf(),
        book.wf(),
        price_precision <= 19,
        qty_precision <= 19,
    ensures
        final(record).wf(),
        r == (expected_checksum == crc32_of(spec_checksum_chars(
            *book, price_precision as nat, qty_precision as nat))),
        final(record).expected_checksum == expected_checksum,
        final(record).computed_checksum == crc32_of(spec_checksum_chars(
            *book, price_precision as nat, qty_precision as nat)),
        final(record).checksum_preview@ == spec_checksum_chars(
            *book, price_precision as nat, qty_precision as nat).take(min_len(
                spec_checksum_chars(*book, price_precision as nat, qty_precision as nat).len(),
                64) as int),
        final(record).checksum_len == spec_checksum_chars(
            *book, price_precision as nat, qty_precision as nat).len(),
        final(record).top_asks@ == checksum_asks(*book),
        final(record).top_bids@.len() == min_len(book.bids@.len(), 10),
        forall|k: int| 0 <= k < final(record).top_bids@.len()
            ==> #[trigger] final(record).top_bids@[k] == checksum_bids(*book)[k],
        final(record).verify_latency_ms == latency_ms,
        final(record).last_verify_ts_ms == now_ms,
        !r ==> final(record).last_mismatch_ts_ms == Some(now_ms)
            && match final(record).diagnosis {
                Some(d) => d@ == spec_diagnosis(expected_checksum, final(record).computed_checksum),
                None => false,
            },
        r ==> final(record).last_mismatch_ts_ms == old(record).last_mismatch_ts_ms
            && final(record).diagnosis == old(record).diagnosis,
        final(record).latency_history == old(record).latency_history,
{
    let s = build_checksum_string(book, price_precision, qty_precision);
    let computed = compute_crc32(s.as_str());
    let n = s.unicode_len();
    let cut = if n < 64 {
        n
    } else {
        64
    };
    let preview = s.substring_char(0, cut).to_owned();
    record.expected_checksum = expected_checksum;
    record.computed_checksum = computed;
    record.checksum_preview = preview;
    record.checksum_len = n;
    record.top_asks = book.asks_vec(Some(10));
    record.top_bids = book.bids_vec(Some(10));
    record.verify_latency_ms = latency_ms;
    record.last_verify_ts_ms = now_ms;
    let is_match = computed == expected_checksum;
    if !is_match {
        record.last_mismatch_ts_ms = Some(now_ms);
        let mut diag = String::new();
        diag.append("Expected 0x");
        let he = crate::digits::u32_to_hex8(expected_checksum);
        diag.append(he.as_str());
        diag.append(" but computed 0x");
        let hc = crate::digits::u32_to_hex8(computed);
        diag.append(hc.as_str());
        proof {
            assert(diag@ =~= spec_diagnosis(expected_checksum, computed));
        }
        record.diagnosis = Some(diag);
    }
    proof {
        assert(record.top_asks@ == checksum_asks(*book));
    }
    is_match
}

} // verus!
