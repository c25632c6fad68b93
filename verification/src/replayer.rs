//! Deterministic replay of a recorded frame stream with fault injection.
//!
//! Frames are held in memory with their timestamps in nanoseconds; pacing
//! compares a caller-supplied elapsed time against the recorded offsets,
//! so emission is a pure function of the recording, the configuration and
//! the elapsed times handed in. Fault rules fire on book-update frames,
//! counted per symbol from one.

use vstd::prelude::*;
use crate::types::{ReplayConfig, ReplayMode, FaultRule, FaultType};
use crate::decimal::{spec_parse_decimal, parse_decimal, rescaled_units, rescale_units_exec};
use crate::digits::{dec_digits, padded_digits, pow10, u128_to_string, u64_to_padded_string};
use crate::health::sat_sub;
use crate::strutil::push_char;

verus! {

/// What the frame classifier reads: the symbol of the first book payload
/// when the frame is a book-channel JSON object, by content alone.
pub uninterp spec fn book_update_symbol(frame: Seq<char>) -> Option<Seq<char>>;

/// Relies on serde_json: parses the frame and reads the `channel` field
/// and `data[0].symbol`.
#[verifier::external_body]
fn classify_book_frame(frame: &str) -> (r: Option<String>)
    ensures
        r is Some <==> book_update_symbol(frame@) is Some,
        r is Some ==> r->Some_0@ == book_update_symbol(frame@)->Some_0,
{
    let v: serde_json::Value = serde_json::from_str(frame).ok()?;
    if v.get("channel").and_then(|c| c.as_str()) != Some("book") {
        return None;
    }
    Some(v.pointer("/data/0/symbol")?.as_str()?.to_string())
}

/// What the first level's quantity reads as text: the `qty` of the first
/// ask level (or, with no asks, the first bid level) of the first payload.
pub uninterp spec fn first_level_qty(frame: Seq<char>) -> Option<Seq<char>>;

/// Relies on serde_json: reads `data[0].asks[0].qty` as text, falling
/// back to `data[0].bids[0].qty` when the ask quantity is absent or not
/// a string or number.
#[verifier::external_body]
fn get_first_qty(frame: &str) -> (r: Option<String>)
    ensures
        r is Some <==> first_level_qty(frame@) is Some,
        r is Some ==> r->Some_0@ == first_level_qty(frame@)->Some_0,
{
    let v: serde_json::Value = serde_json::from_str(frame).ok()?;
    let read = |p: &str| match v.pointer(p) {
        Some(serde_json::Value::String(s)) => Some(s.clone()),
        Some(serde_json::Value::Number(n)) => Some(n.to_string()),
        _ => None,
    };
    read("/data/0/asks/0/qty").or_else(|| read("/data/0/bids/0/qty"))
}

/// What the frame becomes when that quantity is replaced by the given
/// text as a JSON string and the object is serialized again.
pub uninterp spec fn with_first_qty(frame: Seq<char>, q: Seq<char>) -> Option<Seq<char>>;

/// Relies on serde_json: writes the quantity back into the spot the
/// reader picked (ask side first, else bid side) and serializes the
/// document.
#[verifier::external_body]
fn set_first_qty(frame: &str, q: &str) -> (r: Option<String>)
    ensures
        r is Some <==> with_first_qty(frame@, q@) is Some,
        r is Some ==> r->Some_0@ == with_first_qty(frame@, q@)->Some_0,
{
    let mut v: serde_json::Value = serde_json::from_str(frame).ok()?;
    let usable = |p: &str| matches!(
        v.pointer(p),
        Some(serde_json::Value::String(_)) | Some(serde_json::Value::Number(_))
    );
    let p = if usable("/data/0/asks/0/qty") {
        "/data/0/asks/0/qty"
    } else {
        "/data/0/bids/0/qty"
    };
    *v.pointer_mut(p)? = serde_json::Value::String(q.to_string());
    serde_json::to_string(&v).ok()
}

/// What chrono reads from an RFC 3339 timestamp: nanoseconds since the
/// Unix epoch, a function of the text alone.
pub uninterp spec fn rfc3339_nanos_of(s: Seq<char>) -> Option<i64>;

/// Relies on chrono's `DateTime::parse_from_rfc3339` and
/// `timestamp_nanos_opt`.
#[verifier::external_body]
fn parse_rfc3339_nanos(s: &str) -> (r: Option<i64>)
    ensures
        r is Some <==> rfc3339_nanos_of(s@) is Some,
        r is Some ==> r->Some_0 == rfc3339_nanos_of(s@)->Some_0,
{
    chrono::DateTime::parse_from_rfc3339(s).ok()?.timestamp_nanos_opt()
}

/// The quantity after a mutation fault: the old text parsed as a decimal,
/// rounded to eight places, shifted by `delta_ticks` ticks of `10^-8` and
/// clamped at zero, rendered with exactly eight fractional digits.
pub open spec fn spec_mutated_qty(q: Seq<char>, delta_ticks: i32) -> Option<Seq<char>> {
    match spec_parse_decimal(q) {
        None => None,
        Some(d) => {
            let u8s = rescaled_units(d, 8);
            let nu: nat = if delta_ticks >= 0 {
                (u8s + delta_ticks) as nat
            } else {
                sat_sub(u8s, (-(delta_ticks as int)) as nat)
            };
            Some(dec_digits((nu / pow10(8)) as nat) + seq!['.'] + padded_digits((nu % pow10(8)) as nat, 8))
        },
    }
}

/// Computes the mutated quantity text; `None` when the old text does not
/// parse as a decimal.
pub fn compute_mutated_qty(q: &str, delta_ticks: i32) -> (r: Option<String>)
    ensures
        match r {
            Some(t) => spec_mutated_qty(q@, delta_ticks) == Some(t@),
            None => spec_mutated_qty(q@, delta_ticks) is None,
        },
{
    let d = match parse_decimal(q) {
        Some(d) => d,
        None => {
            return None;
        },
    };
    let u8s = rescale_units_exec(&d, 8);
    proof {
        crate::decimal::lemma_pow10_19_value();
    }
    let nu: u128 = if delta_ticks >= 0 {
        u8s + (delta_ticks as u128)
    } else {
        let sub = (-(delta_ticks as i64)) as u128;
        if u8s < sub {
            0
        } else {
            u8s - sub
        }
    };
    proof {
        assert(pow10(8) == 100000000) by {
            reveal_with_fuel(pow10, 10);
        }
    }
    let int_part = nu / 100000000;
    let frac_part = (nu % 100000000) as u64;
    let mut out = u128_to_string(int_part);
    push_char(&mut out, '.');
    let frac = u64_to_padded_string(frac_part, 8);
    out.append(frac.as_str());
    proof {
        assert(out@ =~= spec_mutated_qty(q@, delta_ticks)->Some_0);
    }
    Some(out)
}

/// The frame a mutation fault emits: the first quantity rewritten when
/// every step succeeds, the frame unchanged otherwise.
pub open spec fn spec_mutate_frame(frame: Seq<char>, delta_ticks: i32) -> Seq<char> {
    match first_level_qty(frame) {
        None => frame,
        Some(q) => match spec_mutated_qty(q, delta_ticks) {
            None => frame,
            Some(nq) => match with_first_qty(frame, nq) {
                None => frame,
                Some(f2) => f2,
            },
        },
    }
}

/// Applies a quantity-mutation fault to a frame.
fn mutate_frame(frame: &String, delta_ticks: i32) -> (r: String)
    ensures
        r@ == spec_mutate_frame(frame@, delta_ticks),
{
    let q = match get_first_qty(frame.as_str()) {
        Some(q) => q,
        None => {
            return frame.clone();
        },
    };
    let nq = match compute_mutated_qty(q.as_str(), delta_ticks) {
        Some(nq) => nq,
        None => {
            return frame.clone();
        },
    };
    match set_first_qty(frame.as_str(), nq.as_str()) {
        Some(f2) => f2,
        None => frame.clone(),
    }
}

/// The per-symbol book-update counters as a map; later entries win.
pub open spec fn counts_map(s: Seq<(String, usize)>) -> Map<Seq<char>, nat>
    decreases s.len(),
{
    if s.len() == 0 {
        Map::empty()
    } else {
        counts_map(s.drop_last()).insert(s.last().0@, s.last().1 as nat)
    }
}

/// The count a symbol is at, zero when the symbol is new.
pub open spec fn count_of(m: Map<Seq<char>, nat>, sym: Seq<char>) -> nat {
    if m.dom().contains(sym) {
        m[sym]
    } else {
        0
    }
}

/// Counter entries never exceed their position by more than one, so a
/// bump cannot overflow while the list is shorter than the recording.
pub open spec fn counts_wf(s: Seq<(String, usize)>) -> bool {
    forall|i: int| 0 <= i < s.len() ==> (#[trigger] s[i]).1 <= i + 1
}

proof fn lemma_counts_bound(s: Seq<(String, usize)>, sym: Seq<char>)
    requires
        counts_wf(s),
    ensures
        count_of(counts_map(s), sym) <= s.len(),
    decreases s.len(),
{
    if s.len() > 0 {
        assert(s[s.len() - 1].1 <= s.len());
        let dl = s.drop_last();
        assert(counts_wf(dl)) by {
            assert(forall|i: int| 0 <= i < dl.len() ==> dl[i] == s[i]);
        }
        lemma_counts_bound(dl, sym);
    }
}

/// Looks up the current count of a symbol.
fn lookup_count(counts: &Vec<(String, usize)>, sym: &str) -> (r: usize)
    ensures
        r == count_of(counts_map(counts@), sym@),
{
    let ghost full = counts@;
    let mut i: usize = counts.len();
    proof {
        assert(full.take(i as int) =~= full);
    }
    while i > 0
        invariant
            i <= counts@.len(),
            counts@ == full,
            count_of(counts_map(full), sym@) == count_of(counts_map(full.take(i as int)), sym@),
        decreases i,
    {
        proof {
            assert(full.take(i as int).drop_last() =~= full.take(i - 1));
            assert(full.take(i as int).last() == full[i - 1]);
        }
        if crate::strutil::str_eq(counts[i - 1].0.as_str(), sym) {
            return counts[i - 1].1;
        }
        i = i - 1;
    }
    proof {
        assert(full.take(0) =~= Seq::<(String, usize)>::empty());
    }
    0
}

/// Bumps a symbol's counter, returning the new count.
fn bump_count(counts: &mut Vec<(String, usize)>, sym: String) -> (r: usize)
    requires
        counts_wf(old(counts)@),
        old(counts)@.len() < usize::MAX,
    ensures
        counts_wf(final(counts)@),
        final(counts)@.len() == old(counts)@.len() + 1,
        r == count_of(counts_map(old(counts)@), sym@) + 1,
        counts_map(final(counts)@) == counts_map(old(counts)@).insert(sym@, r as nat),
{
    let c = lookup_count(counts, sym.as_str());
    proof {
        lemma_counts_bound(counts@, sym@);
    }
    let r = c + 1;
    let ghost before = counts@;
    counts.push((sym, r));
    proof {
        assert(counts@.drop_last() =~= before);
        assert(counts_wf(counts@)) by {
            assert(forall|i: int| 0 <= i < before.len() ==> counts@[i] == before[i]);
            assert(counts@[counts@.len() - 1].1 == r);
        }
    }
    r
}

/// The ghost state of a replayer.
pub struct ReplayModel {
    pub frames: Seq<(i64, Seq<char>)>,
    pub idx: nat,
    pub started: bool,
    pub first_nanos: i64,
    pub mode: ReplayMode,
    pub rule: FaultRule,
    pub counts: Map<Seq<char>, nat>,
    pub buffer: Option<Seq<char>>,
}

/// The speed multiplier a mode carries (in thousandths).
pub open spec fn milli_of(mode: ReplayMode) -> u64 {
    match mode {
        ReplayMode::Speed { milli } => milli,
        _ => 1000,
    }
}

/// Whether a frame is due for emission at the given elapsed time.
pub open spec fn frame_due(
    mode: ReplayMode,
    started: bool,
    elapsed_ns: u64,
    frame_ns: i64,
    first_ns: i64,
) -> bool {
    if !started {
        true
    } else {
        let offset: nat = if frame_ns >= first_ns {
            (frame_ns - first_ns) as nat
        } else {
            0
        };
        match mode {
            ReplayMode::Realtime => elapsed_ns >= offset,
            ReplayMode::Speed { milli } => elapsed_ns * milli >= offset * 1000,
            ReplayMode::AsFast => true,
        }
    }
}

/// Whether a fault rule fires on the `cnt`-th book update of a symbol.
pub open spec fn fault_fires(rule: FaultRule, cnt: nat) -> bool {
    match rule {
        FaultRule::Every { n, fault } => n > 0 && cnt % (n as nat) == 0,
        FaultRule::OnceAt { index, fault } => cnt == index,
        FaultRule::NoFault => false,
    }
}

/// The fault a rule carries.
pub open spec fn fault_of(rule: FaultRule) -> FaultType {
    match rule {
        FaultRule::Every { n, fault } => fault,
        FaultRule::OnceAt { index, fault } => fault,
        FaultRule::NoFault => FaultType::Drop,
    }
}

/// One call of `next_frame` on the model: the state afterwards and what
/// it returns. A buffered frame is emitted first; a frame not yet due
/// yields nothing; fault rules are consulted on book updates, with a
/// dropped frame falling through to the next one.
pub open spec fn spec_next(m: ReplayModel, elapsed_ns: u64) -> (ReplayModel, Option<Seq<char>>)
    decreases m.frames.len() - m.idx,
{
    if m.buffer is Some {
        (ReplayModel { buffer: None, ..m }, Some(m.buffer->Some_0))
    } else if m.idx >= m.frames.len() {
        (m, None)
    } else {
        let fns = m.frames[m.idx as int].0;
        let data = m.frames[m.idx as int].1;
        if !frame_due(m.mode, m.started, elapsed_ns, fns, m.first_nanos) {
            (m, None)
        } else {
            match book_update_symbol(data) {
                None => (ReplayModel { idx: m.idx + 1, ..m }, Some(data)),
                Some(sym) => {
                    let cnt = count_of(m.counts, sym) + 1;
                    let m1 = ReplayModel { counts: m.counts.insert(sym, cnt), idx: m.idx + 1, ..m };
                    if fault_fires(m.rule, cnt) {
                        match fault_of(m.rule) {
                            FaultType::Drop => spec_next(m1, elapsed_ns),
                            FaultType::Reorder => {
                                if m.idx + 1 < m.frames.len() {
                                    (ReplayModel { idx: m.idx + 2, buffer: Some(data), ..m1 },
                                        Some(m.frames[m.idx + 1int].1))
                                } else {
                                    (m1, Some(data))
                                }
                            },
                            FaultType::MutateQty { delta_ticks } => {
                                (m1, Some(spec_mutate_frame(data, delta_ticks)))
                            },
                        }
                    } else {
                        (m1, Some(data))
                    }
                },
            }
        }
    }
}

/// Replays a recording held in memory, pacing against caller-supplied
/// elapsed times and applying the configured fault rule.
pub struct Replayer {
    pub frames: Vec<(i64, String)>,
    pub current_index: usize,
    pub started: bool,
    pub first_frame_nanos: i64,
    pub config: ReplayConfig,
    pub book_update_counts: Vec<(String, usize)>,
    pub next_frame_buffer: Option<String>,
}

impl Replayer {
    /// The view of the frame list.
    pub open spec fn frames_view(self) -> Seq<(i64, Seq<char>)> {
        self.frames@.map_values(|f: (i64, String)| (f.0, f.1@))
    }

    /// The ghost state this replayer is at.
    pub open spec fn model(self) -> ReplayModel {
        ReplayModel {
            frames: self.frames_view(),
            idx: self.current_index as nat,
            started: self.started,
            first_nanos: self.first_frame_nanos,
            mode: self.config.mode,
            rule: self.config.fault,
            counts: counts_map(self.book_update_counts@),
            buffer: match self.next_frame_buffer {
                Some(b) => Some(b@),
                None => None,
            },
        }
    }

    /// The position is within the recording and the counters are sound.
    pub open spec fn wf(self) -> bool {
        &&& self.current_index <= self.frames@.len()
        &&& counts_wf(self.book_update_counts@)
        &&& self.book_update_counts@.len() <= self.current_index
    }

    /// Wraps an already-loaded recording.
    pub fn new(frames: Vec<(i64, String)>, config: ReplayConfig) -> (r: Replayer)
        ensures
            r.wf(),
            r.frames == frames,
            r.config == config,
            r.model() == (ReplayModel {
                frames: r.frames_view(),
                idx: 0,
                started: false,
                first_nanos: 0,
                mode: config.mode,
                rule: config.fault,
                counts: Map::<Seq<char>, nat>::empty(),
                buffer: None,
            }),
    {
        let r = Replayer {
            frames,
            current_index: 0,
            started: false,
            first_frame_nanos: 0,
            config,
            book_update_counts: Vec::new(),
            next_frame_buffer: None,
        };
        proof {
            assert(counts_map(r.book_update_counts@) =~= Map::<Seq<char>, nat>::empty());
        }
        r
    }

    /// Starts pacing: emission offsets are measured from the first
    /// frame's timestamp.
    pub fn start(&mut self)
        requires
            old(self).wf(),
        ensures
            final(self).wf(),
            final(self).started,
            final(self).first_frame_nanos == (if old(self).frames@.len() > 0 {
                old(self).frames@[0].0
            } else {
                old(self).first_frame_nanos
            }),
            *final(self) == (Replayer {
                started: true,
                first_frame_nanos: final(self).first_frame_nanos,
                ..*old(self)
            }),
    {
        self.started = true;
        if self.frames.len() > 0 {
            self.first_frame_nanos = self.frames[0].0;
        }
    }

    /// Whether the recording is exhausted.
    pub fn is_done(&self) -> (r: bool)
        ensures
            r == (self.current_index >= self.frames@.len() && self.next_frame_buffer is None),
    {
        self.current_index >= self.frames.len() && self.next_frame_buffer.is_none()
    }

    /// Replay progress in thousandths (1000 on an empty recording).
    pub fn progress_permille(&self) -> (r: u64)
        requires
            self.wf(),
        ensures
            self.frames@.len() == 0 ==> r == 1000,
            self.frames@.len() > 0 ==> r == (self.current_index * 1000) as int / self.frames@.len() as int,
    {
        if self.frames.len() == 0 {
            1000
        } else {
            let r128 = (self.current_index as u128) * 1000 / (self.frames.len() as u128);
            proof {
                assert(self.current_index * 1000 <= self.frames@.len() * 1000) by (nonlinear_arith)
                    requires self.current_index <= self.frames@.len(),
                ;
                assert((self.current_index * 1000) as int / self.frames@.len() as int <= 1000)
                    by (nonlinear_arith)
                    requires
                        self.frames@.len() >= 1,
                        self.current_index * 1000 <= self.frames@.len() * 1000,
                ;
            }
            r128 as u64
        }
    }

    /// Emits the next frame at the given elapsed time (nanoseconds since
    /// `start`), or nothing when no frame is due yet or the recording is
    /// exhausted. Behaves exactly as one step of [`spec_next`].
    pub fn next_frame(&mut self, elapsed_ns: u64) -> (r: Option<String>)
        requires
            old(self).wf(),
        ensures
            final(self).wf(),
            spec_next(old(self).model(), elapsed_ns) == (final(self).model(),
                match r {
                    Some(f) => Some(f@),
                    None => None::<Seq<char>>,
                }),
    {
        if self.next_frame_buffer.is_some() {
            let b = match &self.next_frame_buffer {
                Some(b) => b.clone(),
                None => String::new(),
            };
            self.next_frame_buffer = None;
            return Some(b);
        }
        loop
            invariant
                self.wf(),
                self.next_frame_buffer is None,
                spec_next(old(self).model(), elapsed_ns) == spec_next(self.model(), elapsed_ns),
            decreases self.frames@.len() - self.current_index,
        {
            let ghost m = self.model();
            if self.current_index >= self.frames.len() {
                return None;
            }
            let fns = self.frames[self.current_index].0;
            let ghost data_spec = self.frames_view()[self.current_index as int].1;
            // Pacing.
            let due: bool = if !self.started {
                true
            } else {
                let off: u128 = if fns >= self.first_frame_nanos {
                    ((fns as i128) - (self.first_frame_nanos as i128)) as u128
                } else {
                    0
                };
                proof {
                    assert(off <= u64::MAX as u128);
                    assert((elapsed_ns as nat) * (milli_of(self.config.mode) as nat)
                        <= (u64::MAX as nat) * (u64::MAX as nat)) by (nonlinear_arith)
                        requires
                            elapsed_ns <= u64::MAX,
                            milli_of(self.config.mode) <= u64::MAX,
                    ;
                }
                match self.config.mode {
                    ReplayMode::Realtime => (elapsed_ns as u128) >= off,
                    ReplayMode::Speed { milli } => {
                        (elapsed_ns as u128) * (milli as u128) >= off * 1000
                    },
                    ReplayMode::AsFast => true,
                }
            };
            proof {
                assert(due == frame_due(m.mode, m.started, elapsed_ns, fns, m.first_nanos));
            }
            if !due {
                return None;
            }
            let sym_opt = classify_book_frame(self.frames[self.current_index].1.as_str());
            match sym_opt {
                None => {
                    let out = self.frames[self.current_index].1.clone();
                    self.current_index = self.current_index + 1;
                    proof {
                        assert(self.model() == (ReplayModel { idx: m.idx + 1, ..m }));
                        assert(spec_next(m, elapsed_ns) == (self.model(), Some(data_spec)));
                    }
                    return Some(out);
                },
                Some(sym) => {
                    let ghost sym_view = sym@;
                    let cnt = bump_count(&mut self.book_update_counts, sym);
                    self.current_index = self.current_index + 1;
                    let ghost m1 = ReplayModel {
                        counts: m.counts.insert(sym_view, cnt as nat),
                        idx: m.idx + 1,
                        ..m
                    };
                    proof {
                        assert(self.model() == m1);
                    }
                    let fires: bool = match self.config.fault {
                        FaultRule::Every { n, fault: _ } => n > 0 && cnt % n == 0,
                        FaultRule::OnceAt { index, fault: _ } => cnt == index,
                        FaultRule::NoFault => false,
                    };
                    proof {
                        assert(fires == fault_fires(m.rule, cnt as nat));
                    }
                    if fires {
                        let fault = match self.config.fault {
                            FaultRule::Every { n: _, fault } => fault,
                            FaultRule::OnceAt { index: _, fault } => fault,
                            FaultRule::NoFault => FaultType::Drop,
                        };
                        match fault {
                            FaultType::Drop => {
                                proof {
                                    assert(spec_next(m, elapsed_ns) == spec_next(m1, elapsed_ns));
                                }
                            },
                            FaultType::Reorder => {
                                if self.current_index < self.frames.len() {
                                    let out = self.frames[self.current_index].1.clone();
                                    self.next_frame_buffer = Some(
                                        self.frames[self.current_index - 1].1.clone());
                                    self.current_index = self.current_index + 1;
                                    proof {
                                        assert(self.model() == (ReplayModel {
                                            idx: m.idx + 2,
                                            buffer: Some(data_spec),
                                            ..m1
                                        }));
                                        assert(spec_next(m, elapsed_ns)
                                            == (self.model(), Some(out@)));
                                    }
                                    return Some(out);
                                } else {
                                    let out = self.frames[self.current_index - 1].1.clone();
                                    proof {
                                        assert(spec_next(m, elapsed_ns)
                                            == (self.model(), Some(data_spec)));
                                    }
                                    return Some(out);
                                }
                            },
                            FaultType::MutateQty { delta_ticks } => {
                                let out = mutate_frame(
                                    &self.frames[self.current_index - 1].1, delta_ticks);
                                proof {
                                    assert(spec_next(m, elapsed_ns) == (self.model(),
                                        Some(spec_mutate_frame(data_spec, delta_ticks))));
                                }
                                return Some(out);
                            },
                        }
                    } else {
                        let out = self.frames[self.current_index - 1].1.clone();
                        proof {
                            assert(spec_next(m, elapsed_ns) == (self.model(), Some(data_spec)));
                        }
                        return Some(out);
                    }
                },
            }
        }
    }
}

/// Law: with no fault rule and as-fast pacing, each call emits exactly
/// the next recorded frame, in order — replay returns the recording.
pub proof fn lemma_replay_passthrough(m: ReplayModel, elapsed_ns: u64)
    requires
        m.rule == FaultRule::NoFault,
        m.mode == ReplayMode::AsFast,
        m.buffer is None,
        m.idx < m.frames.len(),
    ensures
        spec_next(m, elapsed_ns).1 == Some(m.frames[m.idx as int].1),
        spec_next(m, elapsed_ns).0.idx == m.idx + 1,
        spec_next(m, elapsed_ns).0.frames == m.frames,
        spec_next(m, elapsed_ns).0.rule == m.rule,
        spec_next(m, elapsed_ns).0.mode == m.mode,
        spec_next(m, elapsed_ns).0.buffer is None,
{
}

/// What a recording's lines load to: blank lines are skipped, every
/// other line must parse as a recorded frame with a readable timestamp.
pub open spec fn spec_load_frames(lines: Seq<Seq<char>>) -> Option<Seq<(i64, Seq<char>)>>
    decreases lines.len(),
{
    if lines.len() == 0 {
        Some(Seq::empty())
    } else {
        match spec_load_frames(lines.drop_last()) {
            None => None,
            Some(fs) => {
                let line = lines.last();
                if crate::strutil::spec_trim(line).len() == 0 {
                    Some(fs)
                } else {
                    match crate::codec::spec_parse_line(line) {
                        None => None,
                        Some((ts, raw, de)) => match rfc3339_nanos_of(ts) {
                            None => None,
                            Some(ns) => Some(fs.push((ns, raw))),
                        },
                    }
                }
            },
        }
    }
}

proof fn lemma_load_none_extends(lines: Seq<Seq<char>>, k: int)
    requires
        0 <= k <= lines.len(),
        spec_load_frames(lines.take(k)) is None,
    ensures
        spec_load_frames(lines) is None,
    decreases lines.len() - k,
{
    if k < lines.len() {
        assert(lines.take(k + 1).drop_last() =~= lines.take(k));
        lemma_load_none_extends(lines, k + 1);
    } else {
        assert(lines.take(k) =~= lines);
    }
}

impl Replayer {
    /// Loads a recording from its text: splits it into lines, skips blank
    /// ones, and reads each remaining line as a recorded frame. `None`
    /// when any line fails to parse or carries an unreadable timestamp.
    pub fn from_recording(text: &str, config: ReplayConfig) -> (r: Option<Replayer>)
        ensures
            match r {
                Some(rp) => {
                    &&& rp.wf()
                    &&& spec_load_frames(crate::strutil::split_lines_spec(text@))
                        == Some(rp.frames_view())
                    &&& rp.config == config
                    &&& rp.model() == (ReplayModel {
                        frames: rp.frames_view(),
                        idx: 0,
                        started: false,
                        first_nanos: 0,
                        mode: config.mode,
                        rule: config.fault,
                        counts: Map::<Seq<char>, nat>::empty(),
                        buffer: None,
                    })
                },
                None => spec_load_frames(crate::strutil::split_lines_spec(text@)) is None,
            },
    {
        let lines = crate::strutil::split_lines(text);
        let ghost lviews = crate::strutil::strings_view(lines@);
        let mut frames: Vec<(i64, String)> = Vec::new();
        let mut i: usize = 0;
        proof {
            assert(lviews.take(0) =~= Seq::<Seq<char>>::empty());
            assert(frames@.map_values(|f: (i64, String)| (f.0, f.1@))
                =~= Seq::<(i64, Seq<char>)>::empty());
        }
        while i < lines.len()
            invariant
                i <= lines@.len(),
                lviews == crate::strutil::strings_view(lines@),
                lviews == crate::strutil::split_lines_spec(text@),
                spec_load_frames(lviews.take(i as int))
                    == Some(frames@.map_values(|f: (i64, String)| (f.0, f.1@))),
            decreases lines@.len() - i,
        {
            proof {
                assert(lviews.take(i + 1).drop_last() =~= lviews.take(i as int));
                assert(lviews.take(i + 1).last() == lviews[i as int]);
                assert(lviews[i as int] == lines@[i as int]@);
            }
            let t = crate::strutil::trim(lines[i].as_str());
            if t.unicode_len() == 0 {
                i = i + 1;
                continue;
            }
            match crate::codec::parse_recorded_line(lines[i].as_str()) {
                None => {
                    proof {
                        assert(crate::strutil::spec_trim(lviews[i as int]).len() != 0);
                        assert(crate::codec::spec_parse_line(lviews[i as int]) is None);
                        assert(spec_load_frames(lviews.take(i + 1)) is None);
                        lemma_load_none_extends(lviews, i + 1);
                    }
                    return None;
                },
                Some(f) => {
                    match parse_rfc3339_nanos(f.ts_text.as_str()) {
                        None => {
                            proof {
                                assert(crate::strutil::spec_trim(lviews[i as int]).len() != 0);
                                assert(crate::codec::spec_parse_line(lviews[i as int]) is Some);
                                assert(rfc3339_nanos_of(
                                    crate::codec::spec_parse_line(lviews[i as int])->Some_0.0)
                                    is None);
                                assert(spec_load_frames(lviews.take(i + 1)) is None);
                                lemma_load_none_extends(lviews, i + 1);
                            }
                            return None;
                        },
                        Some(ns) => {
                            let ghost before = frames@;
                            frames.push((ns, f.raw_frame));
                            proof {
                                assert(frames@.map_values(|f: (i64, String)| (f.0, f.1@))
                                    =~= before.map_values(|f: (i64, String)| (f.0, f.1@))
                                        .push((ns, frames@.last().1@)));
                            }
                        },
                    }
                },
            }
            i = i + 1;
        }
        proof {
            assert(lviews.take(lines@.len() as int) =~= lviews);
        }
        let rp = Replayer::new(frames, config);
        Some(rp)
    }
}

/// Law: loading the encoded lines of a list of frames gives back exactly
/// those frames' raw texts with their timestamps, in order — the
/// recorder/replayer round trip, frame by frame.
pub proof fn lemma_load_encoded_lines(frames: Seq<(Seq<char>, Seq<char>, Option<Seq<char>>)>)
    requires
        forall|i: int| 0 <= i < frames.len()
            ==> rfc3339_nanos_of((#[trigger] frames[i]).0) is Some,
    ensures
        spec_load_frames(frames.map_values(
            |f: (Seq<char>, Seq<char>, Option<Seq<char>>)|
                crate::codec::spec_frame_line(f.0, f.1, f.2)))
            == Some(frames.map_values(
                |f: (Seq<char>, Seq<char>, Option<Seq<char>>)|
                    (rfc3339_nanos_of(f.0)->Some_0, f.1))),
    decreases frames.len(),
{
    let lines = frames.map_values(
        |f: (Seq<char>, Seq<char>, Option<Seq<char>>)|
            crate::codec::spec_frame_line(f.0, f.1, f.2));
    let loaded = frames.map_values(
        |f: (Seq<char>, Seq<char>, Option<Seq<char>>)|
            (rfc3339_nanos_of(f.0)->Some_0, f.1));
    if frames.len() > 0 {
        let dl = frames.drop_last();
        lemma_load_encoded_lines(dl);
        let last = frames.last();
        assert(lines.drop_last() =~= dl.map_values(
            |f: (Seq<char>, Seq<char>, Option<Seq<char>>)|
                crate::codec::spec_frame_line(f.0, f.1, f.2)));
        assert(lines.last() == crate::codec::spec_frame_line(last.0, last.1, last.2));
        crate::codec::lemma_line_round_trip(last.0, last.1, last.2);
        let line = lines.last();
        // A line that parses is not blank.
        assert(crate::strutil::spec_trim(line).len() != 0) by {
            if crate::strutil::spec_trim(line).len() == 0 {
                reveal_strlit("{\"ts\":\"");
                assert(!crate::codec::lit_at(crate::strutil::spec_trim(line), 0, "{\"ts\":\""@));
                assert(crate::codec::spec_parse_line(line) is None);
            }
        }
        assert(loaded.drop_last() =~= dl.map_values(
            |f: (Seq<char>, Seq<char>, Option<Seq<char>>)|
                (rfc3339_nanos_of(f.0)->Some_0, f.1)));
        assert(spec_load_frames(lines) == Some(loaded)) by {
            assert(loaded =~= loaded.drop_last().push((rfc3339_nanos_of(last.0)->Some_0, last.1)));
        }
    } else {
        assert(lines =~= Seq::<Seq<char>>::empty());
        assert(loaded =~= Seq::<(i64, Seq<char>)>::empty());
    }
}

} // verus!
