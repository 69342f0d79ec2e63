//! References kept from TDC edges: a periodic one (scan lines, frames) and a
//! non-periodic one (laser or photon triggers), with the unwrapping of times
//! that overflow.
use vstd::prelude::*;
use crate::packet::{Packet, packet_at, is_header, id_of, word_of, tdc_type_of, tdc_coarse_of, tdc_fine_of, tdc_fine_ticks};
use crate::packet::TDC_OVERFLOW;

verus! {

/// The four TDC edge kinds and their wire values.
#[derive(Debug, Clone, Copy, PartialEq, Eq, Structural)]
pub enum TdcType {
    TdcOneRisingEdge,
    TdcOneFallingEdge,
    TdcTwoRisingEdge,
    TdcTwoFallingEdge,
    NoTdc,
}

impl TdcType {
    pub open spec fn value(self) -> u8 {
        match self {
            TdcType::TdcOneRisingEdge => 15,
            TdcType::TdcOneFallingEdge => 10,
            TdcType::TdcTwoRisingEdge => 14,
            TdcType::TdcTwoFallingEdge => 11,
            TdcType::NoTdc => 0,
        }
    }

    /// The other edge of the same input.
    pub open spec fn complement(self) -> TdcType {
        match self {
            TdcType::TdcOneRisingEdge => TdcType::TdcOneFallingEdge,
            TdcType::TdcOneFallingEdge => TdcType::TdcOneRisingEdge,
            TdcType::TdcTwoRisingEdge => TdcType::TdcTwoFallingEdge,
            TdcType::TdcTwoFallingEdge => TdcType::TdcTwoRisingEdge,
            TdcType::NoTdc => TdcType::NoTdc,
        }
    }

    /// The value carried in the type field of a TDC packet.
    pub fn associate_value(&self) -> (r: u8)
        ensures
            r == self.value(),
    {
        match self {
            TdcType::TdcOneRisingEdge => 15,
            TdcType::TdcOneFallingEdge => 10,
            TdcType::TdcTwoRisingEdge => 14,
            TdcType::TdcTwoFallingEdge => 11,
            TdcType::NoTdc => 0,
        }
    }

    pub fn complement_type(&self) -> (r: TdcType)
        ensures
            r == self.complement(),
    {
        match self {
            TdcType::TdcOneRisingEdge => TdcType::TdcOneFallingEdge,
            TdcType::TdcOneFallingEdge => TdcType::TdcOneRisingEdge,
            TdcType::TdcTwoRisingEdge => TdcType::TdcTwoFallingEdge,
            TdcType::TdcTwoFallingEdge => TdcType::TdcTwoRisingEdge,
            TdcType::NoTdc => TdcType::NoTdc,
        }
    }
}

/// Unwraps a counter that restarts at zero after `modulus` ticks: a raw value
/// below the previous one counts one wrap.
#[derive(Debug, Clone, Copy, PartialEq, Eq, Structural)]
pub struct WrapCounter {
    pub modulus: u64,
    pub last_raw: u64,
    pub wraps: u64,
}

impl WrapCounter {
    pub open spec fn wf(self) -> bool {
        &&& self.modulus > 0
        &&& self.last_raw < self.modulus
        &&& (self.wraps + 2) * self.modulus <= u64::MAX
    }

    /// The unwrapped value of the last raw value seen.
    pub open spec fn last(self) -> int {
        self.wraps * self.modulus + self.last_raw
    }

    /// Whether the counter can take one more wrap.
    pub open spec fn has_room(self) -> bool {
        (self.wraps + 3) * self.modulus <= u64::MAX
    }

    /// Whether the counter can take one more wrap.
    pub fn room(&self) -> (r: bool)
        requires
            self.wf(),
        ensures
            r == self.has_room(),
    {
        proof {
            let m = self.modulus as int;
            let w = self.wraps as int;
        }
        match self.wraps.checked_add(3) {
            Some(w3) => match w3.checked_mul(self.modulus) {
                Some(_) => true,
                None => false,
            },
            None => {
                assert((self.wraps + 3) * self.modulus >= self.wraps + 3) by (nonlinear_arith)
                    requires
                        self.modulus >= 1,
                ;
                false
            },
        }
    }

    pub fn new(modulus: u64) -> (r: WrapCounter)
        requires
            0 < modulus <= u64::MAX / 2,
        ensures
            r.wf(),
            r.modulus == modulus,
            r.last_raw == 0,
            r.wraps == 0,
    {
        let r = WrapCounter { modulus, last_raw: 0, wraps: 0 };
        assert((r.wraps + 2) * r.modulus == 2 * modulus);
        r
    }

    /// Takes the next raw value and returns it unwrapped.
    pub fn advance(&mut self, raw: u64) -> (t: u64)
        requires
            old(self).wf(),
            old(self).has_room(),
            raw < old(self).modulus,
        ensures
            final(self).wf(),
            final(self).modulus == old(self).modulus,
            final(self).last_raw == raw,
            final(self).wraps == old(self).wraps + (if raw < old(self).last_raw { 1int } else { 0 }),
            t == final(self).last(),
            t >= old(self).last(),
    {
        proof {
            let m = self.modulus as int;
            let w = self.wraps as int;
            assert(w + 3 <= (w + 3) * m) by (nonlinear_arith)
                requires
                    m >= 1,
                    w >= 0,
            ;
        }
        if raw < self.last_raw {
            self.wraps = self.wraps + 1;
        }
        self.last_raw = raw;
        proof {
            let m = self.modulus as int;
            let w = self.wraps as int;
            assert(w * m + raw < (w + 1) * m) by (nonlinear_arith)
                requires
                    raw < m,
            ;
            assert((w + 1) * m <= (w + 2) * m) by (nonlinear_arith)
                requires
                    m > 0,
            ;
            let ow = old(self).wraps as int;
            let ol = old(self).last_raw as int;
            assert(ow * m + ol < (ow + 1) * m) by (nonlinear_arith)
                requires
                    ol < m,
            ;
        }
        self.wraps * self.modulus + raw
    }
}

/// Unwrapped times never go back: each value handed out by a counter is at least
/// the one before, also across a wrap of the raw counter.
pub proof fn lemma_unwrapped_times_monotone(c: WrapCounter, raw1: u64, raw2: u64)
    requires
        c.wf(),
        raw1 < c.modulus,
        raw2 < c.modulus,
        (c.wraps + 4) * c.modulus <= u64::MAX,
    ensures
        ({
            let w1 = c.wraps + (if raw1 < c.last_raw { 1int } else { 0 });
            let w2 = w1 + (if raw2 < raw1 { 1int } else { 0 });
            c.last() <= w1 * c.modulus + raw1 <= w2 * c.modulus + raw2
        }),
{
    let m = c.modulus as int;
    let w1 = c.wraps + (if raw1 < c.last_raw { 1int } else { 0 });
    let w2 = w1 + (if raw2 < raw1 { 1int } else { 0 });
    assert(c.wraps * m + c.last_raw <= w1 * m + raw1) by (nonlinear_arith)
        requires
            w1 == c.wraps || (w1 == c.wraps + 1 && raw1 < c.last_raw),
            w1 == c.wraps ==> raw1 >= c.last_raw,
            c.last_raw < m,
    ;
    assert(w1 * m + raw1 <= w2 * m + raw2) by (nonlinear_arith)
        requires
            w2 == w1 || (w2 == w1 + 1 && raw2 < raw1),
            w2 == w1 ==> raw2 >= raw1,
            raw1 < m,
    ;
}

/// Unwraps a clock whose events come nearly, but not exactly, in time order.
/// A raw value more than half a wrap below the reference starts a new wrap; a
/// raw value more than half a wrap above it is a late event from the wrap
/// before; anything else belongs to the current wrap and moves the reference.
#[derive(Debug, Clone, Copy, PartialEq, Eq, Structural)]
pub struct Unwrapper {
    pub modulus: u64,
    pub last_raw: u64,
    pub wraps: u64,
}

impl Unwrapper {
    pub open spec fn wf(self) -> bool {
        &&& self.modulus > 1
        &&& self.last_raw < self.modulus
        &&& (self.wraps + 2) * self.modulus <= u64::MAX
    }

    /// The unwrapped value of the reference.
    pub open spec fn reference(self) -> int {
        self.wraps * self.modulus + self.last_raw
    }

    /// Whether a raw value starts a new wrap.
    pub open spec fn wraps_at(self, raw: u64) -> bool {
        raw + self.modulus / 2 < self.last_raw && (self.wraps + 3) * self.modulus <= u64::MAX
    }

    /// Whether a raw value is a late event of the wrap before.
    pub open spec fn late_at(self, raw: u64) -> bool {
        !self.wraps_at(raw) && raw > self.last_raw + self.modulus / 2 && self.wraps > 0
    }

    /// The unwrapped value of `raw`.
    pub open spec fn value(self, raw: u64) -> int {
        if self.wraps_at(raw) {
            (self.wraps + 1) * self.modulus + raw
        } else if self.late_at(raw) {
            (self.wraps - 1) * self.modulus + raw
        } else {
            self.wraps * self.modulus + raw
        }
    }

    /// The unwrapper after `raw`.
    pub open spec fn next(self, raw: u64) -> Unwrapper {
        if self.wraps_at(raw) {
            Unwrapper { last_raw: raw, wraps: (self.wraps + 1) as u64, ..self }
        } else if self.late_at(raw) {
            self
        } else {
            Unwrapper { last_raw: raw, ..self }
        }
    }

    pub fn new(modulus: u64) -> (r: Unwrapper)
        requires
            1 < modulus <= u64::MAX / 2,
        ensures
            r.wf(),
            r == (Unwrapper { modulus, last_raw: 0, wraps: 0 }),
    {
        let r = Unwrapper { modulus, last_raw: 0, wraps: 0 };
        assert((r.wraps + 2) * r.modulus == 2 * modulus);
        r
    }

    /// Unwraps `raw`, a value of the clock below its modulus.
    pub fn unwrap(&mut self, raw: u64) -> (t: u64)
        requires
            old(self).wf(),
            raw < old(self).modulus,
        ensures
            final(self).wf(),
            *final(self) == old(self).next(raw),
            t == old(self).value(raw),
            t % old(self).modulus == raw,
    {
        let m = self.modulus;
        let w = self.wraps;
        proof {
            assert(w * m + 2 * m <= u64::MAX) by (nonlinear_arith)
                requires
                    (w + 2) * m <= u64::MAX,
            ;
        }
        let room = match w.checked_add(3) {
            Some(w3) => w3.checked_mul(m).is_some(),
            None => false,
        };
        proof {
            if !room && w + 3 <= u64::MAX {
                assert((w + 3) * m > u64::MAX);
            }
            if w + 3 > u64::MAX {
                assert((w + 3) * m >= w + 3) by (nonlinear_arith)
                    requires
                        m >= 1,
                ;
            }
        }
        let half = m / 2;
        if raw < self.last_raw && self.last_raw - raw > half && room {
            self.wraps = w + 1;
            self.last_raw = raw;
            proof {
                assert(((w + 1) * m + raw) % (m as int) == raw) by (nonlinear_arith)
                    requires
                        raw < m,
                        m > 1,
                ;
                assert((w + 3) * m == (w + 1) * m + 2 * m) by (nonlinear_arith);
            }
            (w + 1) * m + raw
        } else if raw > self.last_raw && raw - self.last_raw > half && w > 0 {
            proof {
                assert(((w - 1) * m + raw) % (m as int) == raw) by (nonlinear_arith)
                    requires
                        raw < m,
                        m > 1,
                        w >= 1,
                ;
                assert((w - 1) * m <= w * m) by (nonlinear_arith)
                    requires
                        w >= 1,
                        m > 1,
                ;
            }
            (w - 1) * m + raw
        } else {
            self.last_raw = raw;
            proof {
                assert((w * m + raw) % (m as int) == raw) by (nonlinear_arith)
                    requires
                        raw < m,
                        m > 1,
                ;
            }
            w * m + raw
        }
    }
}

/// Unwrapped times of events in time order never go back: when the next raw
/// value is at most half a wrap after the reference, or starts a new wrap, its
/// unwrapped value is at least the reference and becomes the new reference.
pub proof fn lemma_unwrapper_monotone(u: Unwrapper, raw: u64)
    requires
        u.wf(),
        raw < u.modulus,
        (u.last_raw <= raw <= u.last_raw + u.modulus / 2) || u.wraps_at(raw),
    ensures
        u.value(raw) >= u.reference(),
        u.next(raw).reference() == u.value(raw),
{
    let m = u.modulus as int;
    if u.wraps_at(raw) {
        assert((u.wraps + 1) * m == u.wraps * m + m) by (nonlinear_arith);
        assert(u.wraps + 3 <= (u.wraps + 3) * m) by (nonlinear_arith)
            requires
                m >= 1,
        ;
        assert(u.next(raw).wraps == u.wraps + 1);
    } else {
        assert(!u.late_at(raw));
        assert(u.next(raw) == (Unwrapper { last_raw: raw, ..u }));
    }
}

/// How many periods one walks back from the edge at `tdc` to reach an edge not
/// after `ele`.
pub open spec fn back_count(ele: u64, tdc: u64, period: u64) -> int {
    if ele >= tdc {
        0
    } else {
        (tdc - ele) / (period as int) + (if (tdc - ele) % (period as int) == 0 { 0int } else { 1 })
    }
}

/// The back count when `ele` falls in `[edge + delay, edge + delay + width)` of
/// the edge reached by walking back from `tdc`.
pub open spec fn tr_window(ele: u64, tdc: u64, period: u64, delay: u64, width: u64) -> Option<int> {
    let k = back_count(ele, tdc, period);
    let diff = ele - (tdc - k * period);
    if delay <= diff < delay + width {
        Some(k)
    } else {
        None
    }
}

/// Walks back from the last edge at `tdc` in steps of `period` to the last edge
/// not after `ele`, and returns how many steps it took when `ele` lies in
/// `[edge + delay, edge + delay + width)`.
pub fn tr_check_if_in(ele: u64, tdc: u64, period: u64, delay: u64, width: u64) -> (r: Option<u64>)
    requires
        period > 0,
    ensures
        r matches Some(k) ==> tr_window(ele, tdc, period, delay, width) == Some(k as int),
        r is None <==> tr_window(ele, tdc, period, delay, width) is None,
        tdc - back_count(ele, tdc, period) * period <= ele,
        back_count(ele, tdc, period) > 0 ==> tdc - (back_count(ele, tdc, period) - 1) * period > ele,
{
    let k: u64;
    let diff: u64;
    if ele >= tdc {
        k = 0;
        diff = ele - tdc;
    } else {
        let gap = tdc - ele;
        let q = gap / period;
        let rem = gap % period;
        proof {
            assert(gap == q * period + rem) by (nonlinear_arith)
                requires
                    q == gap / period,
                    rem == gap % period,
                    period > 0,
            ;
        }
        if rem == 0 {
            k = q;
            diff = 0;
        } else {
            assert(q < u64::MAX) by (nonlinear_arith)
                requires
                    gap == q * period + rem,
                    0 < rem < period,
                    gap <= u64::MAX,
            ;
            k = q + 1;
            diff = period - rem;
        }
        proof {
            assert(k * period - gap == diff) by (nonlinear_arith)
                requires
                    gap == q * period + rem,
                    rem == 0 ==> k == q && diff == 0,
                    rem != 0 ==> k == q + 1 && diff == period - rem,
            ;
            assert(k > 0 ==> (k - 1) * period < gap) by (nonlinear_arith)
                requires
                    gap == q * period + rem,
                    rem < period,
                    rem == 0 ==> k == q,
                    rem != 0 ==> k == q + 1,
                    gap > 0,
            ;
        }
    }
    assert(diff == ele - (tdc - k * period));
    if delay <= diff && diff - delay < width {
        Some(k)
    } else {
        None
    }
}

/// A window of zero width holds no hit, whatever the delay.
pub proof fn lemma_zero_width_accepts_nothing(ele: u64, tdc: u64, period: u64, delay: u64)
    ensures
        tr_window(ele, tdc, period, delay, 0) is None,
{
}

/// Time of a TDC word in ticks of 1.5625 ns, reduced to the TDC clock range.
pub open spec fn edge_ticks(w: u64) -> u64 {
    (tdc_fine_ticks(tdc_coarse_of(w), tdc_fine_of(w)) / 6) % TDC_OVERFLOW
}

/// The TDC edge held by packet `i` of `d`, as its type and time.
pub open spec fn edge_at(d: Seq<u8>, i: int) -> Option<(u8, u64)> {
    let b = packet_at(d, i);
    if !is_header(b) && id_of(word_of(b)) == 6 {
        Some((tdc_type_of(word_of(b)) as u8, edge_ticks(word_of(b))))
    } else {
        None
    }
}

/// Reads the TDC edge of packet `i`, if it is one.
pub fn read_edge(d: &[u8], i: usize) -> (r: Option<(u8, u64)>)
    requires
        8 * i + 8 <= d.len(),
    ensures
        r == edge_at(d@, i as int),
{
    let off = 8 * i;
    assert(d@.subrange(off as int, off + 8) == packet_at(d@, i as int));
    if d[off] == 84 && d[off + 1] == 80 && d[off + 2] == 88 && d[off + 3] == 51 {
        return None;
    }
    let p = Packet::from_bytes(d, off, 0);
    if p.id() == crate::packet::TDC_ID {
        Some((p.tdc_type(), p.tdc_time_norm() % TDC_OVERFLOW))
    } else {
        None
    }
}

/// Learns the period of a periodic TDC: the first edge of `kind`, then an edge
/// of the complementary kind, then the next edge of `kind`.
#[derive(Debug, Clone, Copy)]
pub struct TdcLearner {
    pub kind: u8,
    pub complement: u8,
    pub first: Option<u64>,
    pub mark: Option<u64>,
    /// Once locked: period, low time and the time of the second edge.
    pub result: Option<(u64, u64, u64)>,
}

/// One edge fed to a learner.
pub open spec fn learn_step(l: TdcLearner, kind: u8, t: u64) -> TdcLearner {
    if l.result is Some {
        l
    } else if kind == l.kind {
        match l.first {
            None => TdcLearner { first: Some(t), mark: None, ..l },
            Some(t1) => if t > t1 {
                let low = match l.mark {
                    Some(c) => if t1 < c < t { (c - t1) as u64 } else { (t - t1) as u64 },
                    None => (t - t1) as u64,
                };
                TdcLearner { result: Some(((t - t1) as u64, low, t)), ..l }
            } else {
                TdcLearner { first: Some(t), mark: None, ..l }
            },
        }
    } else if kind == l.complement && l.first is Some && l.mark is None {
        TdcLearner { mark: Some(t), ..l }
    } else {
        l
    }
}

/// The learner after the first `n` packets of `d`.
pub open spec fn learn_upto(l: TdcLearner, d: Seq<u8>, n: nat) -> TdcLearner
    decreases n,
{
    if n == 0 {
        l
    } else {
        let prev = learn_upto(l, d, (n - 1) as nat);
        match edge_at(d, n - 1) {
            Some((k, t)) => learn_step(prev, k, t),
            None => prev,
        }
    }
}

impl TdcLearner {
    pub open spec fn wf(self) -> bool {
        &&& (self.first matches Some(t) ==> t < TDC_OVERFLOW)
        &&& (self.result matches Some((p, low, t)) ==> 0 < low <= p && p < TDC_OVERFLOW && t < TDC_OVERFLOW)
    }

    pub fn new(kind: TdcType) -> (r: TdcLearner)
        ensures
            r.wf(),
            r == (TdcLearner { kind: kind.value(), complement: kind.complement().value(), first: None, mark: None, result: None }),
    {
        TdcLearner {
            kind: kind.associate_value(),
            complement: kind.complement_type().associate_value(),
            first: None,
            mark: None,
            result: None,
        }
    }

    pub fn feed(&mut self, kind: u8, t: u64)
        requires
            old(self).wf(),
            t < TDC_OVERFLOW,
        ensures
            *final(self) == learn_step(*old(self), kind, t),
            final(self).wf(),
    {
        if self.result.is_some() {
            return;
        }
        if kind == self.kind {
            match self.first {
                None => {
                    self.first = Some(t);
                    self.mark = None;
                },
                Some(t1) => {
                    if t > t1 {
                        let low = match self.mark {
                            Some(c) => if t1 < c && c < t { c - t1 } else { t - t1 },
                            None => t - t1,
                        };
                        self.result = Some((t - t1, low, t));
                    } else {
                        self.first = Some(t);
                        self.mark = None;
                    }
                },
            }
        } else if kind == self.complement && self.first.is_some() && self.mark.is_none() {
            self.mark = Some(t);
        }
    }
}

/// A learner that has locked does not change any more.
proof fn lemma_learn_locked(l: TdcLearner, d: Seq<u8>, i: nat, n: nat)
    requires
        i <= n,
        learn_upto(l, d, i).result is Some,
    ensures
        learn_upto(l, d, n) == learn_upto(l, d, i),
    decreases n - i,
{
    if i < n {
        lemma_learn_locked(l, d, i, (n - 1) as nat);
    }
}

/// Reference kept from a periodic TDC: its period, the part of each period that
/// is active (`low_time`), the start of the current frame and the last edge.
#[derive(Debug, Clone, Copy, PartialEq, Eq, Structural)]
pub struct PeriodicTdcRef {
    pub id: u8,
    pub period: u64,
    pub low_time: u64,
    pub begin_frame: u64,
    pub last_time: u64,
    pub counter: u64,
    pub lines_per_frame: u64,
    pub clock: WrapCounter,
}

/// Whether a step of `delta` ticks is too far from `period` to be a real edge.
pub open spec fn is_noise(delta: int, period: int) -> bool {
    delta > 4 * period || 4 * delta < period
}

/// A periodic reference after an edge at raw time `raw`, and whether the edge
/// was applied.
pub open spec fn periodic_upt(r: PeriodicTdcRef, raw: u64) -> (PeriodicTdcRef, bool) {
    let cand = r.candidate(raw);
    if !r.clock.has_room() || r.counter == u64::MAX || is_noise(cand - r.last_time, r.period as int) {
        (r, false)
    } else {
        let counter = (r.counter + 1) as u64;
        (PeriodicTdcRef {
            last_time: cand as u64,
            counter,
            begin_frame: if counter % r.lines_per_frame == 0 { cand as u64 } else { r.begin_frame },
            clock: WrapCounter {
                last_raw: raw,
                wraps: (r.clock.wraps + (if raw < r.clock.last_raw { 1int } else { 0 })) as u64,
                ..r.clock
            },
            ..r
        }, true)
    }
}

impl PeriodicTdcRef {
    pub open spec fn wf(self) -> bool {
        &&& 0 < self.low_time <= self.period
        &&& self.period < TDC_OVERFLOW
        &&& self.lines_per_frame > 0
        &&& self.clock.wf()
        &&& self.clock.modulus == TDC_OVERFLOW
        &&& self.last_time == self.clock.last()
        &&& self.begin_frame <= self.last_time
    }

    /// The unwrapped time that a raw edge time would get.
    pub open spec fn candidate(self, raw: u64) -> int {
        (self.clock.wraps + (if raw < self.clock.last_raw { 1int } else { 0 })) * TDC_OVERFLOW + raw
    }

    /// Learns a periodic reference of `kind` from the start of a packet stream.
    /// A frame holds `lines_per_frame` edges.
    pub fn new(kind: TdcType, data: &[u8], lines_per_frame: u64) -> (r: Option<PeriodicTdcRef>)
        requires
            lines_per_frame > 0,
        ensures
            ({
                let l = learn_upto(
                    TdcLearner { kind: kind.value(), complement: kind.complement().value(), first: None, mark: None, result: None },
                    data@, (data@.len() / 8) as nat);
                &&& r is Some <==> l.result is Some
                &&& r matches Some(t) ==> {
                    &&& t.wf()
                    &&& l.result == Some((t.period, t.low_time, t.last_time))
                    &&& t.id == kind.value()
                    &&& t.begin_frame == t.last_time
                    &&& t.counter == 0
                    &&& t.clock.wraps == 0
                    &&& t.lines_per_frame == lines_per_frame
                }
            }),
    {
        let mut l = TdcLearner::new(kind);
        let ghost l0 = l;
        let n = data.len() / 8;
        let mut i: usize = 0;
        while i < n && l.result.is_none()
            invariant
                n == data@.len() / 8,
                i <= n,
                l.wf(),
                l == learn_upto(l0, data@, i as nat),
            decreases n - i,
        {
            let len = data.len();
            assert(8 * i + 8 <= len) by (nonlinear_arith)
                requires
                    i < n,
                    n == len / 8,
            ;
            if let Some((k, t)) = read_edge(data, i) {
                l.feed(k, t);
            }
            i = i + 1;
        }
        proof {
            if l.result is Some {
                lemma_learn_locked(l0, data@, i as nat, n as nat);
            }
        }
        match l.result {
            Some((period, low_time, t)) => Some(
                PeriodicTdcRef {
                    id: kind.associate_value(),
                    period,
                    low_time,
                    begin_frame: t,
                    last_time: t,
                    counter: 0,
                    lines_per_frame,
                    clock: WrapCounter { modulus: TDC_OVERFLOW, last_raw: t, wraps: 0 },
                },
            ),
            None => None,
        }
    }

    /// Applies a new edge of this reference's type, at raw time `raw`. An edge
    /// whose distance to the last one is over four periods or under a quarter
    /// period is noise: it is not applied and `false` is returned. So is an edge
    /// that would overflow the counters.
    pub fn upt(&mut self, raw: u64) -> (applied: bool)
        requires
            old(self).wf(),
            raw < TDC_OVERFLOW,
        ensures
            final(self).wf(),
            (*final(self), applied) == periodic_upt(*old(self), raw),
    {
        if !self.clock.room() || self.counter == u64::MAX {
            return false;
        }
        let wrapped: u64 = if raw < self.clock.last_raw { 1 } else { 0 };
        proof {
            let m = TDC_OVERFLOW as int;
            let w = self.clock.wraps as int;
            assert((w + wrapped) * m + raw < (w + 2) * m) by (nonlinear_arith)
                requires
                    raw < m,
                    wrapped <= 1,
            ;
            assert(w * m + self.clock.last_raw <= (w + wrapped) * m + raw) by (nonlinear_arith)
                requires
                    wrapped == 1 || raw >= self.clock.last_raw,
                    self.clock.last_raw < m,
                    wrapped <= 1,
            ;
        }
        let cand = (self.clock.wraps + wrapped) * TDC_OVERFLOW + raw;
        let delta = cand - self.last_time;
        if delta > 4 * self.period || 4 * delta < self.period {
            return false;
        }
        let t = self.clock.advance(raw);
        self.last_time = t;
        self.counter = self.counter + 1;
        if self.counter % self.lines_per_frame == 0 {
            self.begin_frame = t;
        }
        true
    }

    /// Time of the last edge.
    pub fn time(&self) -> (t: u64)
        ensures
            t == self.last_time,
    {
        self.last_time
    }

    /// Number of edges applied since the reference was learned.
    pub fn counter(&self) -> (c: u64)
        ensures
            c == self.counter,
    {
        self.counter
    }

    /// The time the edge `n` periods after the last one is expected at.
    pub fn estimate_time(&self, n: u64) -> (t: Option<u64>)
        ensures
            t matches Some(v) ==> v == self.last_time + n * self.period,
            t is None <==> self.last_time + n * self.period > u64::MAX,
    {
        match n.checked_mul(self.period) {
            Some(a) => self.last_time.checked_add(a),
            None => {
                proof {
                    assert(n * self.period <= self.last_time + n * self.period) by (nonlinear_arith)
                        requires
                            n >= 0,
                            self.period >= 0,
                    ;
                }
                None
            },
        }
    }

    /// Dwell time of one scan pixel when a line holds `xspim` pixels.
    pub fn pixel_time(&self, xspim: u64) -> (t: u64)
        requires
            xspim > 0,
        ensures
            t == self.low_time / xspim,
    {
        self.low_time / xspim
    }
}

/// The first edge of `kind` among the first `n` packets of `d`.
pub open spec fn first_edge(d: Seq<u8>, kind: u8, n: nat) -> Option<u64>
    decreases n,
{
    if n == 0 {
        None
    } else {
        match first_edge(d, kind, (n - 1) as nat) {
            Some(t) => Some(t),
            None => match edge_at(d, n - 1) {
                Some((k, t)) => if k == kind { Some(t) } else { None },
                None => None,
            },
        }
    }
}

proof fn lemma_first_edge_found(d: Seq<u8>, kind: u8, i: nat, n: nat)
    requires
        i <= n,
        first_edge(d, kind, i) is Some,
    ensures
        first_edge(d, kind, n) == first_edge(d, kind, i),
    decreases n - i,
{
    if i < n {
        lemma_first_edge_found(d, kind, i, (n - 1) as nat);
    }
}

/// Reference kept from a TDC with no period: the last edge and how many came.
#[derive(Debug, Clone, Copy, PartialEq, Eq, Structural)]
pub struct NonPeriodicTdcRef {
    pub id: u8,
    pub last_time: u64,
    pub counter: u64,
    pub clock: WrapCounter,
}

/// A non-periodic reference after an edge at raw time `raw`, and whether the
/// edge was applied.
pub open spec fn non_periodic_upt(r: NonPeriodicTdcRef, raw: u64) -> (NonPeriodicTdcRef, bool) {
    if !r.clock.has_room() || r.counter == u64::MAX {
        (r, false)
    } else {
        let wraps = r.clock.wraps + (if raw < r.clock.last_raw { 1int } else { 0 });
        (NonPeriodicTdcRef {
            last_time: (wraps * TDC_OVERFLOW + raw) as u64,
            counter: (r.counter + 1) as u64,
            clock: WrapCounter { last_raw: raw, wraps: wraps as u64, ..r.clock },
            ..r
        }, true)
    }
}

impl NonPeriodicTdcRef {
    pub open spec fn wf(self) -> bool {
        &&& self.clock.wf()
        &&& self.clock.modulus == TDC_OVERFLOW
        &&& self.last_time == self.clock.last()
    }

    /// The reference at the first edge of `kind` in a packet stream.
    pub fn new(kind: TdcType, data: &[u8]) -> (r: Option<NonPeriodicTdcRef>)
        ensures
            r is Some <==> first_edge(data@, kind.value(), (data@.len() / 8) as nat) is Some,
            r matches Some(t) ==> {
                &&& t.wf()
                &&& first_edge(data@, kind.value(), (data@.len() / 8) as nat) == Some(t.last_time)
                &&& t.id == kind.value()
                &&& t.counter == 0
                &&& t.clock.wraps == 0
            },
    {
        let id = kind.associate_value();
        let n = data.len() / 8;
        let mut i: usize = 0;
        let mut found: Option<u64> = None;
        while i < n && found.is_none()
            invariant
                n == data@.len() / 8,
                i <= n,
                found == first_edge(data@, id, i as nat),
                found matches Some(t) ==> t < TDC_OVERFLOW,
            decreases n - i,
        {
            let len = data.len();
            assert(8 * i + 8 <= len) by (nonlinear_arith)
                requires
                    i < n,
                    n == len / 8,
            ;
            if let Some((k, t)) = read_edge(data, i) {
                if k == id {
                    found = Some(t);
                }
            }
            i = i + 1;
        }
        proof {
            if found is Some {
                lemma_first_edge_found(data@, id, i as nat, n as nat);
            }
        }
        match found {
            Some(t) => Some(
                NonPeriodicTdcRef {
                    id,
                    last_time: t,
                    counter: 0,
                    clock: WrapCounter { modulus: TDC_OVERFLOW, last_raw: t, wraps: 0 },
                },
            ),
            None => None,
        }
    }

    /// Applies a new edge at raw time `raw`, unless that would overflow the
    /// counters.
    pub fn upt(&mut self, raw: u64) -> (applied: bool)
        requires
            old(self).wf(),
            raw < TDC_OVERFLOW,
        ensures
            final(self).wf(),
            (*final(self), applied) == non_periodic_upt(*old(self), raw),
    {
        if !self.clock.room() || self.counter == u64::MAX {
            return false;
        }
        let t = self.clock.advance(raw);
        self.last_time = t;
        self.counter = self.counter + 1;
        true
    }

    pub fn time(&self) -> (t: u64)
        ensures
            t == self.last_time,
    {
        self.last_time
    }
}

/// The reference a hit is checked against: a periodic trigger (laser) or a
/// non-periodic one.
#[derive(Debug, Clone, Copy, PartialEq, Eq, Structural)]
pub enum TdcRef {
    Periodic(PeriodicTdcRef),
    NonPeriodic(NonPeriodicTdcRef),
}

/// A reference after an edge at raw time `raw`.
pub open spec fn tdc_ref_upt(r: TdcRef, raw: u64) -> TdcRef {
    match r {
        TdcRef::Periodic(p) => TdcRef::Periodic(periodic_upt(p, raw).0),
        TdcRef::NonPeriodic(n) => TdcRef::NonPeriodic(non_periodic_upt(n, raw).0),
    }
}

impl TdcRef {
    pub open spec fn wf(self) -> bool {
        match self {
            TdcRef::Periodic(p) => p.wf(),
            TdcRef::NonPeriodic(n) => n.wf(),
        }
    }

    pub open spec fn spec_id(self) -> u8 {
        match self {
            TdcRef::Periodic(p) => p.id,
            TdcRef::NonPeriodic(n) => n.id,
        }
    }

    pub open spec fn spec_time(self) -> u64 {
        match self {
            TdcRef::Periodic(p) => p.last_time,
            TdcRef::NonPeriodic(n) => n.last_time,
        }
    }

    pub open spec fn spec_period(self) -> Option<u64> {
        match self {
            TdcRef::Periodic(p) => Some(p.period),
            TdcRef::NonPeriodic(_) => None,
        }
    }

    pub fn id(&self) -> (r: u8)
        ensures
            r == self.spec_id(),
    {
        match self {
            TdcRef::Periodic(p) => p.id,
            TdcRef::NonPeriodic(n) => n.id,
        }
    }

    pub fn time(&self) -> (r: u64)
        ensures
            r == self.spec_time(),
    {
        match self {
            TdcRef::Periodic(p) => p.last_time,
            TdcRef::NonPeriodic(n) => n.last_time,
        }
    }

    pub fn period(&self) -> (r: Option<u64>)
        ensures
            r == self.spec_period(),
    {
        match self {
            TdcRef::Periodic(p) => Some(p.period),
            TdcRef::NonPeriodic(_) => None,
        }
    }

    pub fn upt(&mut self, raw: u64)
        requires
            old(self).wf(),
            raw < TDC_OVERFLOW,
        ensures
            final(self).wf(),
            *final(self) == tdc_ref_upt(*old(self), raw),
    {
        match self {
            TdcRef::Periodic(p) => {
                p.upt(raw);
            },
            TdcRef::NonPeriodic(n) => {
                n.upt(raw);
            },
        }
    }
}

} // verus!
