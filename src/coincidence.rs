//! Electron-photon coincidences: a two-pointer search of time-ordered
//! electrons against time-ordered photon triggers.
use vstd::prelude::*;
use vstd::relations::sorted_by;
use crate::cluster::{ClusterCorrection, CollectionElectron, SingleElectron, TimeKey, collapse, is_clean, sort_by_time};
use crate::settings::Settings;
use crate::spim::{SPIM_PIXELS, geometry_ok, return_index, spim_index};
use crate::tdc::{PeriodicTdcRef, Unwrapper, periodic_upt};
use crate::packet::{Event, TdcEdge, eels_x, event_wf, ELECTRON_OVERFLOW};
use crate::cluster::electron_of;

verus! {

/// How far past an electron (plus delay) the photon list is searched, in ticks.
pub const SEARCH_SPAN: u64 = 10_000;
/// The photon cursor moves by a tenth of the offset of the first match.
pub const PHOTON_LIST_STEP: usize = 10;

/// One photon trigger. Its time is in twelfths of 3.125 ns, six of which make
/// one tick of the electron clock.
#[derive(Debug, Clone, Copy, PartialEq, Eq, Structural)]
pub struct Photon {
    pub time: u64,
    pub channel: u8,
    pub g2: Option<i16>,
}

/// Photon time in electron ticks.
pub open spec fn ptick(p: Photon) -> int {
    p.time as int / 6
}

/// Whether a photon coincides with an electron.
pub open spec fn coincides(e: SingleElectron, p: Photon, delay: u64, width: u64) -> bool {
    ptick(p) < e.time + delay + width && e.time + delay < ptick(p) + width
}

/// Whether a photon lies past the search span of an electron.
pub open spec fn past_span(e: SingleElectron, p: Photon, delay: u64) -> bool {
    ptick(p) > e.time + delay + SEARCH_SPAN
}

/// The photons from `j` on that coincide with `e`, up to and including the
/// first one past its span.
pub open spec fn scan_from(e: SingleElectron, ps: Seq<Photon>, j: int, delay: u64, width: u64) -> Seq<int>
    decreases ps.len() - j,
{
    if j < 0 || j >= ps.len() {
        Seq::empty()
    } else {
        let here = if coincides(e, ps[j], delay, width) { seq![j] } else { Seq::empty() };
        if past_span(e, ps[j], delay) {
            here
        } else {
            here + scan_from(e, ps, j + 1, delay, width)
        }
    }
}

/// The cursor after electron `e` was searched from `m`.
pub open spec fn next_cursor(e: SingleElectron, ps: Seq<Photon>, m: int, delay: u64, width: u64) -> int {
    let found = scan_from(e, ps, m, delay, width);
    if found.len() > 0 {
        m + (found[0] - m) / (PHOTON_LIST_STEP as int)
    } else {
        m
    }
}

/// Pairs (electron, photon) for the first `n` electrons, with the cursor after
/// them, starting from cursor `m0`.
pub open spec fn pairs_upto(es: Seq<SingleElectron>, ps: Seq<Photon>, m0: int, n: int, delay: u64, width: u64) -> (Seq<(int, int)>, int)
    decreases n,
{
    if n <= 0 {
        (Seq::empty(), m0)
    } else {
        let (prev, m) = pairs_upto(es, ps, m0, n - 1, delay, width);
        let found = scan_from(es[n - 1], ps, m, delay, width);
        (prev + found.map_values(|j: int| (n - 1, j)), next_cursor(es[n - 1], ps, m, delay, width))
    }
}

proof fn lemma_scan_bounds(e: SingleElectron, ps: Seq<Photon>, j: int, delay: u64, width: u64)
    ensures
        forall|k: int| 0 <= k < scan_from(e, ps, j, delay, width).len() ==> {
            let v = #[trigger] scan_from(e, ps, j, delay, width)[k];
            &&& j <= v < ps.len()
            &&& coincides(e, ps[v], delay, width)
            &&& (k == 0 || scan_from(e, ps, j, delay, width)[k - 1] < v)
        },
    decreases ps.len() - j,
{
    if 0 <= j < ps.len() {
        let here = if coincides(e, ps[j], delay, width) { seq![j] } else { Seq::<int>::empty() };
        let s = scan_from(e, ps, j, delay, width);
        if !past_span(e, ps[j], delay) {
            lemma_scan_bounds(e, ps, j + 1, delay, width);
            let rest = scan_from(e, ps, j + 1, delay, width);
            assert(s == here + rest);
            assert forall|k: int| 0 <= k < s.len() implies {
                let v = #[trigger] s[k];
                &&& j <= v < ps.len()
                &&& coincides(e, ps[v], delay, width)
                &&& (k == 0 || s[k - 1] < v)
            } by {
                if k >= here.len() {
                    assert(s[k] == rest[k - here.len()]);
                    if k - 1 >= here.len() {
                        assert(s[k - 1] == rest[k - 1 - here.len()]);
                    }
                }
            }
        } else {
            assert(s == here);
        }
    }
}

/// Every pair that the search reports is a coincidence: the photon lies less
/// than `width` ticks from the electron time plus the delay.
pub proof fn lemma_pairs_coincide(es: Seq<SingleElectron>, ps: Seq<Photon>, m0: int, n: int, delay: u64, width: u64)
    requires
        0 <= n <= es.len(),
    ensures
        forall|k: int| 0 <= k < pairs_upto(es, ps, m0, n, delay, width).0.len() ==> {
            let (i, j) = #[trigger] pairs_upto(es, ps, m0, n, delay, width).0[k];
            &&& 0 <= i < n
            &&& 0 <= j < ps.len()
            &&& coincides(es[i], ps[j], delay, width)
            &&& -(width as int) < es[i].time + delay - ptick(ps[j]) < width
        },
    decreases n,
{
    if n > 0 {
        lemma_pairs_coincide(es, ps, m0, n - 1, delay, width);
        let (prev, m) = pairs_upto(es, ps, m0, n - 1, delay, width);
        lemma_scan_bounds(es[n - 1], ps, m, delay, width);
        let found = scan_from(es[n - 1], ps, m, delay, width);
        let all = prev + found.map_values(|j: int| (n - 1, j));
        assert forall|k: int| 0 <= k < all.len() implies {
            let (i, j) = #[trigger] all[k];
            &&& 0 <= i < n
            &&& 0 <= j < ps.len()
            &&& coincides(es[i], ps[j], delay, width)
            &&& -(width as int) < es[i].time + delay - ptick(ps[j]) < width
        } by {
            if k >= prev.len() {
                assert(all[k] == (n - 1, found[k - prev.len()]));
            }
        }
    }
}

/// Searches the photons from the cursor `m` for one electron: the coinciding
/// photons, until the first photon past the span.
fn scan_exec(e: &SingleElectron, ps: &Vec<Photon>, m: usize, delay: u64, width: u64) -> (r: Vec<usize>)
    requires
        m <= ps@.len(),
        e.time + delay + width + SEARCH_SPAN <= u64::MAX,
    ensures
        r@.map_values(|j: usize| j as int) == scan_from(*e, ps@, m as int, delay, width),
{
    let mut acc: Vec<usize> = Vec::new();
    let mut j = m;
    let ghost whole = scan_from(*e, ps@, m as int, delay, width);
    let mut stopped = false;
    while j < ps.len() && !stopped
        invariant
            m <= j <= ps@.len(),
            e.time + delay + width + SEARCH_SPAN <= u64::MAX,
            whole == scan_from(*e, ps@, m as int, delay, width),
            !stopped ==> acc@.map_values(|v: usize| v as int) + scan_from(*e, ps@, j as int, delay, width) == whole,
            stopped ==> acc@.map_values(|v: usize| v as int) == whole,
        decreases ps@.len() - j + (if stopped { 0int } else { 1 }),
    {
        let p = ps[j];
        let pt = p.time / 6;
        let lhs = e.time + delay;
        let hit = pt < lhs + width && (lhs < width || lhs - width < pt);
        let ghost before = acc@.map_values(|v: usize| v as int);
        if hit {
            acc.push(j);
        }
        assert(acc@.map_values(|v: usize| v as int) =~= before + (if hit { seq![j as int] } else { Seq::<int>::empty() }));
        if pt > e.time + delay + SEARCH_SPAN {
            stopped = true;
            assert(before + (if hit { seq![j as int] } else { Seq::<int>::empty() }) + Seq::<int>::empty() =~= before + (if hit { seq![j as int] } else { Seq::<int>::empty() }));
        } else {
            j = j + 1;
            assert(before + (if hit { seq![j - 1 as int] } else { Seq::<int>::empty() }) + scan_from(*e, ps@, j as int, delay, width)
                =~= before + ((if hit { seq![j - 1 as int] } else { Seq::<int>::empty() }) + scan_from(*e, ps@, j as int, delay, width)));
        }
    }
    if !stopped {
        assert(acc@.map_values(|v: usize| v as int) + Seq::<int>::empty() =~= acc@.map_values(|v: usize| v as int));
    }
    acc
}

/// Whether every electron time leaves room for the search arithmetic.
pub open spec fn times_fit(es: Seq<SingleElectron>, delay: u64, width: u64) -> bool {
    forall|i: int| 0 <= i < es.len() ==> #[trigger] es[i].time + delay + width + SEARCH_SPAN <= u64::MAX
}

proof fn lemma_cursor_bound(e: SingleElectron, ps: Seq<Photon>, m: int, delay: u64, width: u64)
    requires
        0 <= m <= ps.len(),
    ensures
        m <= next_cursor(e, ps, m, delay, width) <= ps.len(),
{
    lemma_scan_bounds(e, ps, m, delay, width);
    let found = scan_from(e, ps, m, delay, width);
    if found.len() > 0 {
        assert(m <= found[0] < ps.len());
        assert((found[0] - m) / 10 <= found[0] - m);
    }
}

/// The coincidence search over time-ordered electrons and photons from cursor
/// `m0`: the (electron, photon) pairs found and the cursor after the last
/// electron.
pub fn search_pairs(es: &Vec<SingleElectron>, ps: &Vec<Photon>, m0: usize, delay: u64, width: u64)
    -> (r: (Vec<(usize, usize)>, usize))
    requires
        m0 <= ps@.len(),
        times_fit(es@, delay, width),
    ensures
        r.0@.map_values(|p: (usize, usize)| (p.0 as int, p.1 as int)) == pairs_upto(es@, ps@, m0 as int, es@.len() as int, delay, width).0,
        r.1 == pairs_upto(es@, ps@, m0 as int, es@.len() as int, delay, width).1,
{
    let mut pairs: Vec<(usize, usize)> = Vec::new();
    let mut m = m0;
    let mut i: usize = 0;
    while i < es.len()
        invariant
            i <= es@.len(),
            m <= ps@.len(),
            times_fit(es@, delay, width),
            pairs@.map_values(|p: (usize, usize)| (p.0 as int, p.1 as int)) == pairs_upto(es@, ps@, m0 as int, i as int, delay, width).0,
            m == pairs_upto(es@, ps@, m0 as int, i as int, delay, width).1,
        decreases es@.len() - i,
    {
        let e = es[i];
        assert(e.time + delay + width + SEARCH_SPAN <= u64::MAX);
        let found = scan_exec(&e, ps, m, delay, width);
        let ghost fs = scan_from(e, ps@, m as int, delay, width);
        let ghost before = pairs@.map_values(|p: (usize, usize)| (p.0 as int, p.1 as int));
        let mut k: usize = 0;
        while k < found.len()
            invariant
                k <= found@.len(),
                found@.map_values(|j: usize| j as int) == fs,
                pairs@.map_values(|p: (usize, usize)| (p.0 as int, p.1 as int))
                    == before + fs.subrange(0, k as int).map_values(|j: int| (i as int, j)),
            decreases found@.len() - k,
        {
            assert(found@.map_values(|j: usize| j as int)[k as int] == found@[k as int] as int);
            assert(fs[k as int] == found@[k as int] as int);
            let ghost prev_pairs = pairs@;
            pairs.push((i, found[k]));
            assert(pairs@.map_values(|p: (usize, usize)| (p.0 as int, p.1 as int)) =~=
                prev_pairs.map_values(|p: (usize, usize)| (p.0 as int, p.1 as int)).push((i as int, fs[k as int])));
            assert(fs.subrange(0, k + 1).map_values(|j: int| (i as int, j)) =~=
                fs.subrange(0, k as int).map_values(|j: int| (i as int, j)).push((i as int, fs[k as int])));
            k = k + 1;
            assert(pairs@.map_values(|p: (usize, usize)| (p.0 as int, p.1 as int))
                =~= before + fs.subrange(0, k as int).map_values(|j: int| (i as int, j)));
        }
        assert(fs.subrange(0, fs.len() as int) =~= fs);
        proof {
            lemma_cursor_bound(e, ps@, m as int, delay, width);
        }
        if found.len() > 0 {
            m = m + (found[0] - m) / PHOTON_LIST_STEP;
        }
        i = i + 1;
    }
    (pairs, m)
}

/// One coincidence as written out.
#[derive(Debug, Clone, Copy, PartialEq, Eq, Structural)]
pub struct CoincidenceRecord {
    /// Electron time plus delay minus photon time, in ticks.
    pub rel_time: i16,
    pub channel: u8,
    pub x: u16,
    pub y: u16,
    pub tot: u16,
    pub cluster_size: u16,
    /// Scan pixel of the electron, or `u32::MAX` outside a spectral image.
    pub spim_index: u32,
    pub abs_time: u64,
    pub g2_time: Option<i16>,
}

pub open spec fn sat_u16(v: int) -> u16 {
    if v > u16::MAX { u16::MAX } else { v as u16 }
}

/// The record of an electron and a coinciding photon.
pub open spec fn record_of(e: SingleElectron, p: Photon, delay: u64, spim_index: u32) -> CoincidenceRecord {
    CoincidenceRecord {
        rel_time: (e.time + delay - ptick(p)) as i16,
        channel: p.channel,
        x: sat_u16(e.x as int),
        y: sat_u16(e.y as int),
        tot: e.tot,
        cluster_size: sat_u16(e.cluster_size as int),
        spim_index,
        abs_time: e.time,
        g2_time: p.g2,
    }
}

fn sat_u16_exec(v: usize) -> (r: u16)
    ensures
        r == sat_u16(v as int),
{
    if v > 65535 { 65535 } else { v as u16 }
}

/// The records of a list of pairs, with the scan pixel given per electron.
pub open spec fn records_of(pairs: Seq<(int, int)>, es: Seq<SingleElectron>, ps: Seq<Photon>, delay: u64, pixel: spec_fn(SingleElectron) -> u32) -> Seq<CoincidenceRecord> {
    pairs.map_values(|q: (int, int)| record_of(es[q.0], ps[q.1], delay, pixel(es[q.0])))
}

/// Builds the records of the pairs found, taking each electron's scan pixel
/// from `pixels` (one per electron).
pub fn make_records(pairs: &Vec<(usize, usize)>, es: &Vec<SingleElectron>, ps: &Vec<Photon>, pixels: &Vec<u32>, delay: u64, width: u64)
    -> (r: Vec<CoincidenceRecord>)
    requires
        width <= 32767,
        pixels@.len() == es@.len(),
        forall|k: int| 0 <= k < pairs@.len() ==> {
            let (i, j) = #[trigger] pairs@[k];
            &&& i < es@.len()
            &&& j < ps@.len()
            &&& -(width as int) < es@[i as int].time + delay - ptick(ps@[j as int]) < width
        },
    ensures
        r@.len() == pairs@.len(),
        forall|k: int| 0 <= k < pairs@.len() ==> #[trigger] r@[k] == record_of(
            es@[pairs@[k].0 as int], ps@[pairs@[k].1 as int], delay, pixels@[pairs@[k].0 as int]),
        forall|k: int| 0 <= k < pairs@.len() ==> -(width as int) < (#[trigger] r@[k]).rel_time < width,
{
    let mut out: Vec<CoincidenceRecord> = Vec::new();
    let mut k: usize = 0;
    while k < pairs.len()
        invariant
            k <= pairs@.len(),
            width <= 32767,
            pixels@.len() == es@.len(),
            forall|q: int| 0 <= q < pairs@.len() ==> {
                let (i, j) = #[trigger] pairs@[q];
                &&& i < es@.len()
                &&& j < ps@.len()
                &&& -(width as int) < es@[i as int].time + delay - ptick(ps@[j as int]) < width
            },
            out@.len() == k,
            forall|q: int| 0 <= q < k ==> #[trigger] out@[q] == record_of(
                es@[pairs@[q].0 as int], ps@[pairs@[q].1 as int], delay, pixels@[pairs@[q].0 as int]),
            forall|q: int| 0 <= q < k ==> -(width as int) < (#[trigger] out@[q]).rel_time < width,
        decreases pairs@.len() - k,
    {
        let (i, j) = pairs[k];
        let e = es[i];
        let p = ps[j];
        let pt = p.time / 6;
        let rel: i16 = if e.time as u128 + delay as u128 >= pt as u128 {
            ((e.time as u128 + delay as u128) - pt as u128) as i16
        } else {
            -((pt as u128 - (e.time as u128 + delay as u128)) as i16)
        };
        out.push(CoincidenceRecord {
            rel_time: rel,
            channel: p.channel,
            x: sat_u16_exec(e.x),
            y: sat_u16_exec(e.y),
            tot: e.tot,
            cluster_size: sat_u16_exec(e.cluster_size),
            spim_index: pixels[i],
            abs_time: e.time,
            g2_time: p.g2,
        });
        k = k + 1;
    }
    out
}

/// One more count in bin `x` of a histogram, unless `x` is outside it or the
/// bin is full.
pub open spec fn hist_inc(h: Seq<u64>, x: int) -> Seq<u64> {
    if 0 <= x < h.len() {
        h.update(x, if h[x] == u64::MAX { u64::MAX } else { (h[x] + 1) as u64 })
    } else {
        h
    }
}

/// A histogram after counting the columns of the first `n` electrons.
pub open spec fn hist_electrons(h: Seq<u64>, es: Seq<SingleElectron>, n: int) -> Seq<u64>
    decreases n,
{
    if n <= 0 { h } else { hist_inc(hist_electrons(h, es, n - 1), es[n - 1].x as int) }
}

/// A histogram after counting, for the first `n` pairs, the electron column and
/// the photon bin.
pub open spec fn hist_pairs(h: Seq<u64>, pairs: Seq<(int, int)>, es: Seq<SingleElectron>, n: int) -> Seq<u64>
    decreases n,
{
    if n <= 0 {
        h
    } else {
        hist_inc(hist_inc(hist_pairs(h, pairs, es, n - 1), es[pairs[n - 1].0].x as int), SPIM_PIXELS - 1)
    }
}

/// Counting electrons leaves the length of a histogram, and a bin that none
/// of them falls in, as they were.
proof fn lemma_hist_electrons_other(h: Seq<u64>, es: Seq<SingleElectron>, n: int, k: int)
    requires
        0 <= n <= es.len(),
        0 <= k < h.len(),
    ensures
        hist_electrons(h, es, n).len() == h.len(),
        (forall|i: int| 0 <= i < es.len() ==> (#[trigger] es[i]).x != k) ==> hist_electrons(h, es, n)[k] == h[k],
    decreases n,
{
    if n > 0 {
        lemma_hist_electrons_other(h, es, n - 1, k);
        if forall|i: int| 0 <= i < es.len() ==> (#[trigger] es[i]).x != k {
            assert(es[n - 1].x != k);
        }
    }
}

fn hist_add(h: &mut Vec<u64>, x: usize)
    ensures
        final(h)@ == hist_inc(old(h)@, x as int),
{
    if x < h.len() {
        let v = h[x];
        if v < u64::MAX {
            h.set(x, v + 1);
        }
    }
}

/// Whether a photon is a trigger that counts (channels 16 and 24 carry scan
/// signals).
pub open spec fn is_photon(p: Photon) -> bool {
    p.channel != 16 && p.channel != 24
}

impl TimeKey for Photon {
    open spec fn time_key(&self) -> u64 {
        self.time
    }

    fn key(&self) -> (k: u64) {
        self.time
    }
}

/// Position and time of the scan-line triggers among the first `n`.
pub open spec fn sync_points(s: Seq<Photon>, n: int) -> Seq<(usize, u64)>
    decreases n,
{
    if n <= 0 {
        Seq::empty()
    } else if s[n - 1].channel == 16 {
        sync_points(s, n - 1).push(((n - 1) as usize, s[n - 1].time))
    } else {
        sync_points(s, n - 1)
    }
}

/// Position and time of every scan-line trigger (channel 16) of a list.
pub fn line_triggers(ps: &Vec<Photon>) -> (r: Vec<(usize, u64)>)
    ensures
        r@ == sync_points(ps@, ps@.len() as int),
{
    let mut out: Vec<(usize, u64)> = Vec::new();
    let mut k: usize = 0;
    while k < ps.len()
        invariant
            k <= ps@.len(),
            out@ == sync_points(ps@, k as int),
        decreases ps@.len() - k,
    {
        if ps[k].channel == 16 {
            out.push((k, ps[k].time));
        }
        k = k + 1;
    }
    out
}

/// The photon triggers of one batch.
pub struct TempTdcData {
    pub tdc: Vec<Photon>,
    pub clean_tdc: Vec<Photon>,
    pub min_index: usize,
}

impl TempTdcData {
    pub fn new() -> (r: TempTdcData)
        ensures
            r.tdc@.len() == 0,
            r.clean_tdc@.len() == 0,
            r.min_index == 0,
    {
        TempTdcData { tdc: Vec::new(), clean_tdc: Vec::new(), min_index: 0 }
    }

    pub fn add_tdc(&mut self, time: u64, channel: u8)
        ensures
            final(self).tdc@ == old(self).tdc@.push(Photon { time, channel, g2: None }),
            final(self).clean_tdc == old(self).clean_tdc,
            final(self).min_index == old(self).min_index,
    {
        self.tdc.push(Photon { time, channel, g2: None });
    }

    /// Orders the triggers by time and keeps the photons among them apart.
    pub fn sort(&mut self)
        ensures
            final(self).tdc@.to_multiset() == old(self).tdc@.to_multiset(),
            sorted_by(final(self).tdc@, |a: Photon, b: Photon| a.time <= b.time),
            final(self).clean_tdc@ == final(self).tdc@.filter(|p: Photon| is_photon(p)),
            final(self).min_index == old(self).min_index,
    {
        sort_by_time(&mut self.tdc);
        assert(sorted_by(self.tdc@, |a: Photon, b: Photon| a.time <= b.time)) by {
            assert forall|i: int, j: int| 0 <= i < j < self.tdc@.len() implies self.tdc@[i].time <= self.tdc@[j].time by {
                let f = |a: Photon, b: Photon| a.time_key() <= b.time_key();
                assert(f(self.tdc@[i], self.tdc@[j]));
            }
        }
        let mut clean: Vec<Photon> = Vec::new();
        let mut k: usize = 0;
        while k < self.tdc.len()
            invariant
                k <= self.tdc@.len(),
                clean@ == self.tdc@.subrange(0, k as int).filter(|p: Photon| is_photon(p)),
            decreases self.tdc@.len() - k,
        {
            let p = self.tdc[k];
            proof {
                let f = |p: Photon| is_photon(p);
                assert(self.tdc@.subrange(0, k + 1) =~= self.tdc@.subrange(0, k as int).push(p));
                self.tdc@.subrange(0, k as int).lemma_filter_push(p, f);
            }
            if p.channel != 16 && p.channel != 24 {
                clean.push(p);
            }
            k = k + 1;
        }
        assert(self.tdc@.subrange(0, self.tdc@.len() as int) =~= self.tdc@);
        self.clean_tdc = clean;
    }

    /// Position and time of every scan-line trigger (channel 16).
    pub fn get_sync(&self) -> (r: Vec<(usize, u64)>)
        ensures
            r@ == sync_points(self.tdc@, self.tdc@.len() as int),
    {
        line_triggers(&self.tdc)
    }

    /// How many photons the batch holds.
    pub fn photon_count(&self) -> (n: usize)
        ensures
            n == self.tdc@.filter(|p: Photon| is_photon(p)).len(),
    {
        let mut n: usize = 0;
        let mut k: usize = 0;
        while k < self.tdc.len()
            invariant
                k <= self.tdc@.len(),
                n == self.tdc@.subrange(0, k as int).filter(|p: Photon| is_photon(p)).len(),
                n <= k,
            decreases self.tdc@.len() - k,
        {
            let p = self.tdc[k];
            proof {
                let f = |p: Photon| is_photon(p);
                assert(self.tdc@.subrange(0, k + 1) =~= self.tdc@.subrange(0, k as int).push(p));
                self.tdc@.subrange(0, k as int).lemma_filter_push(p, f);
            }
            if p.channel != 16 && p.channel != 24 {
                n = n + 1;
            }
            k = k + 1;
        }
        assert(self.tdc@.subrange(0, self.tdc@.len() as int) =~= self.tdc@);
        n
    }
}

/// The scan geometry coincidences are placed in.
#[derive(Debug, Clone, Copy, PartialEq, Eq, Structural)]
pub struct SpimGeometry {
    pub tdc: PeriodicTdcRef,
    pub settings: Settings,
}

/// The scan pixel of an electron, from its time in the frame; `u32::MAX`
/// without a scan, in the flyback, or past the range of the column.
pub open spec fn pixel_of(spim: Option<SpimGeometry>, e: SingleElectron) -> u32 {
    match spim {
        Some(g) => match spim_index(e.frame_dt as int, g.tdc.low_time as int, g.tdc.period as int, g.settings) {
            Some(i) => if i / (SPIM_PIXELS as int) < u32::MAX { (i / (SPIM_PIXELS as int)) as u32 } else { u32::MAX },
            None => u32::MAX,
        },
        None => u32::MAX,
    }
}

/// The scan pixel of an electron.
pub fn scan_pixel(spim: &Option<SpimGeometry>, e: &SingleElectron) -> (r: u32)
    requires
        *spim matches Some(g) ==> g.tdc.wf() && geometry_ok(g.settings),
    ensures
        r == pixel_of(*spim, *e),
{
    match spim {
        Some(g) => match crate::spim::spim_detector(e.frame_dt, 0, g.tdc.low_time, g.tdc.period, &g.settings) {
            Some(i) => {
                let px = i / SPIM_PIXELS;
                if px < u32::MAX as usize { px as u32 } else { u32::MAX }
            },
            None => u32::MAX,
        },
        None => u32::MAX,
    }
}

/// For each electron with a second coinciding photon, the relative times of
/// its first two photons, taken from the first `n` pairs and their records.
pub open spec fn double_times(pairs: Seq<(int, int)>, recs: Seq<CoincidenceRecord>, n: int) -> Seq<i16>
    decreases n,
{
    if n <= 0 {
        Seq::empty()
    } else {
        let prev = double_times(pairs, recs, n - 1);
        let k = n - 1;
        if k >= 1 && pairs[k - 1].0 == pairs[k].0 && (k < 2 || pairs[k - 2].0 != pairs[k].0) {
            prev.push(recs[k - 1].rel_time).push(recs[k].rel_time)
        } else {
            prev
        }
    }
}

/// Coincidences gathered over a whole file.
pub struct ElectronData {
    pub records: Vec<CoincidenceRecord>,
    pub double_photon_rel_time: Vec<i16>,
    pub spectrum: Vec<u64>,
    pub corr_spectrum: Vec<u64>,
    pub spim: Option<SpimGeometry>,
    pub remove_clusters: ClusterCorrection,
}

impl ElectronData {
    pub open spec fn wf(&self) -> bool {
        &&& self.spectrum@.len() == SPIM_PIXELS
        &&& self.corr_spectrum@.len() == SPIM_PIXELS
        &&& (self.spim matches Some(g) ==> g.tdc.wf() && geometry_ok(g.settings))
    }

    pub fn new(spim: Option<SpimGeometry>, remove_clusters: ClusterCorrection) -> (r: ElectronData)
        requires
            spim matches Some(g) ==> g.tdc.wf() && geometry_ok(g.settings),
        ensures
            r.wf(),
            r.records@.len() == 0,
            r.double_photon_rel_time@.len() == 0,
            r.spectrum@ == Seq::new(SPIM_PIXELS as nat, |i: int| 0u64),
            r.corr_spectrum@ == Seq::new(SPIM_PIXELS as nat, |i: int| 0u64),
            r.spim == spim,
            r.remove_clusters == remove_clusters,
    {
        let spectrum = vec![0u64; SPIM_PIXELS];
        let corr_spectrum = vec![0u64; SPIM_PIXELS];
        assert(spectrum@ =~= Seq::new(SPIM_PIXELS as nat, |i: int| 0u64));
        assert(corr_spectrum@ =~= Seq::new(SPIM_PIXELS as nat, |i: int| 0u64));
        ElectronData { records: Vec::new(), double_photon_rel_time: Vec::new(), spectrum, corr_spectrum, spim, remove_clusters }
    }

    /// The scan pixel of an electron.
    fn spim_pixel(&self, e: &SingleElectron) -> (r: u32)
        requires
            self.wf(),
        ensures
            r == pixel_of(self.spim, *e),
    {
        scan_pixel(&self.spim, e)
    }

    /// Adds the coincidences of time-ordered electrons with time-ordered
    /// photons, searched from cursor `m0`; returns the cursor after the batch.
    /// Each electron counts in the spectrum; each pair counts its electron and
    /// its photon in the coincidence spectrum.
    pub fn add_events_sorted(&mut self, es: &Vec<SingleElectron>, ps: &Vec<Photon>, m0: usize, delay: u64, width: u64)
        -> (m: usize)
        requires
            old(self).wf(),
            m0 <= ps@.len(),
            width <= 32767,
            times_fit(es@, delay, width),
        ensures
            final(self).wf(),
            ({
                let (pairs, cursor) = pairs_upto(es@, ps@, m0 as int, es@.len() as int, delay, width);
                &&& m == cursor
                &&& final(self).records@ == old(self).records@ + records_of(pairs, es@, ps@, delay, |e: SingleElectron| pixel_of(old(self).spim, e))
                &&& final(self).spectrum@ == hist_electrons(old(self).spectrum@, es@, es@.len() as int)
                &&& final(self).corr_spectrum@ == hist_pairs(old(self).corr_spectrum@, pairs, es@, pairs.len() as int)
                &&& final(self).double_photon_rel_time@ == old(self).double_photon_rel_time@ + double_times(pairs,
                    records_of(pairs, es@, ps@, delay, |e: SingleElectron| pixel_of(old(self).spim, e)), pairs.len() as int)
            }),
            forall|k: int| old(self).records@.len() <= k < final(self).records@.len()
                ==> -(width as int) < (#[trigger] final(self).records@[k]).rel_time < width,
            final(self).spim == old(self).spim,
            final(self).remove_clusters == old(self).remove_clusters,
    {
        let (pairs, m) = search_pairs(es, ps, m0, delay, width);
        let ghost sp = pairs_upto(es@, ps@, m0 as int, es@.len() as int, delay, width).0;
        proof {
            lemma_pairs_coincide(es@, ps@, m0 as int, es@.len() as int, delay, width);
            assert forall|k: int| 0 <= k < pairs@.len() implies {
                let (i, j) = #[trigger] pairs@[k];
                &&& i < es@.len()
                &&& j < ps@.len()
                &&& -(width as int) < es@[i as int].time + delay - ptick(ps@[j as int]) < width
            } by {
                assert(sp[k] == (pairs@[k].0 as int, pairs@[k].1 as int));
            }
        }
        let mut pixels: Vec<u32> = Vec::new();
        let mut i: usize = 0;
        while i < es.len()
            invariant
                i <= es@.len(),
                self.wf(),
                self.spectrum@ == hist_electrons(old(self).spectrum@, es@, i as int),
                self.spim == old(self).spim,
                self.remove_clusters == old(self).remove_clusters,
                self.records == old(self).records,
                self.double_photon_rel_time == old(self).double_photon_rel_time,
                self.corr_spectrum == old(self).corr_spectrum,
                pixels@.len() == i,
                forall|q: int| 0 <= q < i ==> #[trigger] pixels@[q] == pixel_of(old(self).spim, es@[q]),
            decreases es@.len() - i,
        {
            let e = es[i];
            pixels.push(self.spim_pixel(&e));
            hist_add(&mut self.spectrum, e.x);
            i = i + 1;
        }
        let recs = make_records(&pairs, es, ps, &pixels, delay, width);
        proof {
            assert forall|q: int| 0 <= q < pairs@.len() implies #[trigger] sp[q] == (pairs@[q].0 as int, pairs@[q].1 as int) by {
                assert(pairs@.map_values(|p: (usize, usize)| (p.0 as int, p.1 as int))[q] == (pairs@[q].0 as int, pairs@[q].1 as int));
            }
        }
        let mut k: usize = 0;
        while k < pairs.len()
            invariant
                k <= pairs@.len(),
                self.wf(),
                self.spim == old(self).spim,
                self.remove_clusters == old(self).remove_clusters,
                self.spectrum@ == hist_electrons(old(self).spectrum@, es@, es@.len() as int),
                pairs@.map_values(|p: (usize, usize)| (p.0 as int, p.1 as int)) == sp,
                forall|q: int| 0 <= q < pairs@.len() ==> (#[trigger] pairs@[q]).0 < es@.len(),
                self.corr_spectrum@ == hist_pairs(old(self).corr_spectrum@, sp, es@, k as int),
                recs@.len() == pairs@.len(),
                self.records@ == old(self).records@ + recs@.subrange(0, k as int),
                forall|q: int| 0 <= q < pairs@.len() ==> -(width as int) < (#[trigger] recs@[q]).rel_time < width,
                forall|q: int| 0 <= q < pairs@.len() ==> #[trigger] sp[q] == (pairs@[q].0 as int, pairs@[q].1 as int),
                self.double_photon_rel_time@ == old(self).double_photon_rel_time@ + double_times(sp, recs@, k as int),
            decreases pairs@.len() - k,
        {
            let (ei, _) = pairs[k];
            assert(sp[k as int].0 == ei as int);
            if k >= 1 && pairs[k - 1].0 == ei && (k < 2 || pairs[k - 2].0 != ei) {
                self.double_photon_rel_time.push(recs[k - 1].rel_time);
                self.double_photon_rel_time.push(recs[k].rel_time);
            }
            hist_add(&mut self.corr_spectrum, es[ei].x);
            hist_add(&mut self.corr_spectrum, SPIM_PIXELS - 1);
            self.records.push(recs[k]);
            k = k + 1;
            assert(self.records@ =~= old(self).records@ + recs@.subrange(0, k as int));
        }
        proof {
            assert(recs@.subrange(0, recs@.len() as int) =~= recs@);
            assert forall|k: int| old(self).records@.len() <= k < self.records@.len()
                implies -(width as int) < (#[trigger] self.records@[k]).rel_time < width by {
                assert(self.records@[k] == recs@[k - old(self).records@.len()]);
            }
            assert forall|q: int| 0 <= q < pairs@.len() implies #[trigger] sp[q] == (pairs@[q].0 as int, pairs@[q].1 as int) by {}
            assert(recs@ =~= records_of(sp, es@, ps@, delay, |e: SingleElectron| pixel_of(old(self).spim, e))) by {
                assert forall|q: int| 0 <= q < recs@.len() implies #[trigger] recs@[q] == records_of(sp, es@, ps@, delay, |e: SingleElectron| pixel_of(old(self).spim, e))[q] by {
                    assert(sp[q] == (pairs@[q].0 as int, pairs@[q].1 as int));
                }
            }
        }
        m
    }

    /// Adds one batch: sorts and cleans the electrons, sorts the photon
    /// triggers, then searches coincidences from the batch's cursor, which it
    /// moves on. Returns the cleaned electrons the search ran over.
    pub fn add_events(&mut self, mut temp_edata: CollectionElectron, temp_tdc: &mut TempTdcData, delay: u64, width: u64)
        -> (es: Vec<SingleElectron>)
        requires
            old(self).wf(),
            width <= 32767,
            delay <= u64::MAX / 4,
            forall|i: int| 0 <= i < temp_edata.data@.len() ==> #[trigger] temp_edata.data@[i].time <= u64::MAX / 2,
        ensures
            final(self).wf(),
            sorted_by(final(temp_tdc).tdc@, |a: Photon, b: Photon| a.time <= b.time),
            final(temp_tdc).tdc@.to_multiset() == old(temp_tdc).tdc@.to_multiset(),
            final(temp_tdc).clean_tdc@ == final(temp_tdc).tdc@.filter(|p: Photon| is_photon(p)),
            exists|s: Seq<SingleElectron>| #![trigger s.to_multiset()]
                s.to_multiset() == temp_edata.data@.to_multiset()
                && sorted_by(s, |a: SingleElectron, b: SingleElectron| a.time <= b.time)
                && es@ == (if old(self).remove_clusters == ClusterCorrection::AverageCorrection && s.len() > 0 && !is_clean(s) {
                    collapse(s, s.len() as int)
                } else {
                    s
                }),
            final(self).spim == old(self).spim,
            final(self).remove_clusters == old(self).remove_clusters,
            forall|k: int| old(self).records@.len() <= k < final(self).records@.len()
                ==> -(width as int) < (#[trigger] final(self).records@[k]).rel_time < width,
            (forall|i: int| 0 <= i < es@.len() ==> (#[trigger] es@[i]).x != SPIM_PIXELS - 1)
                ==> final(self).spectrum@[SPIM_PIXELS - 1] == old(temp_tdc).tdc@.filter(|p: Photon| is_photon(p)).len(),
            ({
                let ps = final(temp_tdc).clean_tdc@;
                let m0 = if old(temp_tdc).min_index <= ps.len() { old(temp_tdc).min_index as int } else { ps.len() as int };
                let (pairs, cursor) = pairs_upto(es@, ps, m0, es@.len() as int, delay, width);
                let photons = old(temp_tdc).tdc@.filter(|p: Photon| is_photon(p)).len();
                &&& final(temp_tdc).min_index == cursor
                &&& final(self).records@ == old(self).records@ + records_of(pairs, es@, ps, delay, |e: SingleElectron| pixel_of(old(self).spim, e))
                &&& final(self).spectrum@ == hist_electrons(
                    old(self).spectrum@.update(SPIM_PIXELS - 1, photons as u64), es@, es@.len() as int)
                &&& final(self).corr_spectrum@ == hist_pairs(old(self).corr_spectrum@, pairs, es@, pairs.len() as int)
                &&& final(self).double_photon_rel_time@ == old(self).double_photon_rel_time@ + double_times(pairs,
                    records_of(pairs, es@, ps, delay, |e: SingleElectron| pixel_of(old(self).spim, e)), pairs.len() as int)
            }),
    {
        let ghost orig = temp_edata.data@;
        let photons = temp_tdc.photon_count();
        temp_tdc.sort();
        self.spectrum.set(SPIM_PIXELS - 1, photons as u64);
        temp_edata.sort();
        let ghost sorted = temp_edata.data@;
        proof {
            assert forall|i: int| 0 <= i < sorted.len() implies #[trigger] sorted[i].time <= u64::MAX / 2 by {
                sorted.to_multiset_ensures();
                orig.to_multiset_ensures();
                assert(sorted.contains(sorted[i]));
                assert(orig.to_multiset().count(sorted[i]) > 0);
                assert(orig.contains(sorted[i]));
            }
        }
        temp_edata.try_clean(0, &self.remove_clusters);
        let es = temp_edata.data;
        proof {
            if es@ != sorted {
                crate::cluster::lemma_collapse_times_bounded(sorted, sorted.len() as int, (u64::MAX / 2) as int);
            }
        }
        proof {
            let f = |a: SingleElectron, b: SingleElectron| a.time <= b.time;
            assert(sorted_by(sorted, f));
        }
        let m0 = if temp_tdc.min_index <= temp_tdc.clean_tdc.len() { temp_tdc.min_index } else { temp_tdc.clean_tdc.len() };
        let ghost sp_before = self.spectrum@;
        let m = self.add_events_sorted(&es, &temp_tdc.clean_tdc, m0, delay, width);
        temp_tdc.min_index = m;
        proof {
            lemma_hist_electrons_other(sp_before, es@, es@.len() as int, (SPIM_PIXELS - 1) as int);
        }
        es
    }
}

/// Per-event columns for calibrating the time of hits against the ToT
/// reference.
pub struct CalibrationData {
    pub rel_time: Vec<i8>,
    pub x: Vec<u16>,
    pub y: Vec<u8>,
    pub tot: Vec<u16>,
    pub cluster_size: Vec<u16>,
}

/// The low byte of a signed value, as a signed byte.
pub open spec fn wrap_i8(v: int) -> i8 {
    let m = ((v % 256) + 256) % 256;
    (if m >= 128 { m - 256 } else { m }) as i8
}

impl CalibrationData {
    pub fn new() -> (r: CalibrationData)
        ensures
            r.rel_time@.len() == 0 && r.x@.len() == 0 && r.y@.len() == 0 && r.tot@.len() == 0
                && r.cluster_size@.len() == 0,
    {
        CalibrationData { rel_time: Vec::new(), x: Vec::new(), y: Vec::new(), tot: Vec::new(), cluster_size: Vec::new() }
    }

    /// Appends one row per event: time minus frame time (low byte, signed),
    /// column, row (low byte), ToT and cluster size.
    pub fn append_from_collection(&mut self, val: CollectionElectron)
        requires
            forall|i: int| 0 <= i < val.data@.len() ==> #[trigger] val.data@[i].time <= i64::MAX && val.data@[i].frame_dt <= i64::MAX,
        ensures
            final(self).rel_time@ == old(self).rel_time@ + val.data@.map_values(|e: SingleElectron| wrap_i8(e.time - e.frame_dt)),
            final(self).x@ == old(self).x@ + val.data@.map_values(|e: SingleElectron| sat_u16(e.x as int)),
            final(self).y@ == old(self).y@ + val.data@.map_values(|e: SingleElectron| (e.y % 256) as u8),
            final(self).tot@ == old(self).tot@ + val.data@.map_values(|e: SingleElectron| e.tot),
            final(self).cluster_size@ == old(self).cluster_size@ + val.data@.map_values(|e: SingleElectron| sat_u16(e.cluster_size as int)),
    {
        let v = val.data;
        let mut k: usize = 0;
        while k < v.len()
            invariant
                k <= v@.len(),
                forall|i: int| 0 <= i < v@.len() ==> #[trigger] v@[i].time <= i64::MAX && v@[i].frame_dt <= i64::MAX,
                self.rel_time@ == old(self).rel_time@ + v@.subrange(0, k as int).map_values(|e: SingleElectron| wrap_i8(e.time - e.frame_dt)),
                self.x@ == old(self).x@ + v@.subrange(0, k as int).map_values(|e: SingleElectron| sat_u16(e.x as int)),
                self.y@ == old(self).y@ + v@.subrange(0, k as int).map_values(|e: SingleElectron| (e.y % 256) as u8),
                self.tot@ == old(self).tot@ + v@.subrange(0, k as int).map_values(|e: SingleElectron| e.tot),
                self.cluster_size@ == old(self).cluster_size@ + v@.subrange(0, k as int).map_values(|e: SingleElectron| sat_u16(e.cluster_size as int)),
            decreases v@.len() - k,
        {
            let e = v[k];
            let d: i64 = e.time as i64 - e.frame_dt as i64;
            let m: i64 = ((d % 256) + 256) % 256;
            let b: i8 = if m >= 128 { (m - 256) as i8 } else { m as i8 };
            self.rel_time.push(b);
            self.x.push(sat_u16_exec(e.x));
            self.y.push((e.y % 256) as u8);
            self.tot.push(e.tot);
            self.cluster_size.push(sat_u16_exec(e.cluster_size));
            k = k + 1;
            proof {
                let sub = v@.subrange(0, k as int);
                assert(sub.drop_last() =~= v@.subrange(0, k - 1));
                assert(self.rel_time@ =~= old(self).rel_time@ + sub.map_values(|e: SingleElectron| wrap_i8(e.time - e.frame_dt)));
                assert(self.x@ =~= old(self).x@ + sub.map_values(|e: SingleElectron| sat_u16(e.x as int)));
                assert(self.y@ =~= old(self).y@ + sub.map_values(|e: SingleElectron| (e.y % 256) as u8));
                assert(self.tot@ =~= old(self).tot@ + sub.map_values(|e: SingleElectron| e.tot));
                assert(self.cluster_size@ =~= old(self).cluster_size@ + sub.map_values(|e: SingleElectron| sat_u16(e.cluster_size as int)));
            }
        }
        assert(v@.subrange(0, v@.len() as int) =~= v@);
    }
}

/// The scan-pixel indexes of the events of a cleaned batch, with the frame of
/// each: events in the flyback or without a scan are left out.
pub open spec fn spim_slices(es: Seq<SingleElectron>, spim: Option<SpimGeometry>, n: int) -> Seq<(u32, u64)>
    decreases n,
{
    if n <= 0 {
        Seq::empty()
    } else {
        let prev = spim_slices(es, spim, n - 1);
        let px = pixel_of(spim, es[n - 1]);
        if px == u32::MAX { prev } else { prev.push((px, es[n - 1].spim_slice)) }
    }
}

/// The return-scan pixel of an electron in the flyback of its line;
/// `u32::MAX` without a scan, in the active part, or past the range of the
/// column.
pub open spec fn return_pixel_of(spim: Option<SpimGeometry>, e: SingleElectron) -> u32 {
    match spim {
        Some(g) => match return_index(e.frame_dt as int, g.tdc.low_time as int, g.tdc.period as int, g.settings) {
            Some(i) => if i / (SPIM_PIXELS as int) < u32::MAX { (i / (SPIM_PIXELS as int)) as u32 } else { u32::MAX },
            None => u32::MAX,
        },
        None => u32::MAX,
    }
}

/// The return-scan pixel of an electron.
pub fn scan_return_pixel(spim: &Option<SpimGeometry>, e: &SingleElectron) -> (r: u32)
    requires
        *spim matches Some(g) ==> g.tdc.wf() && geometry_ok(g.settings),
    ensures
        r == return_pixel_of(*spim, *e),
{
    match spim {
        Some(g) => match crate::spim::spim_return_detector(e.frame_dt, 0, g.tdc.low_time, g.tdc.period, &g.settings) {
            Some(i) => {
                let px = i / SPIM_PIXELS;
                if px < u32::MAX as usize { px as u32 } else { u32::MAX }
            },
            None => u32::MAX,
        },
        None => u32::MAX,
    }
}

/// The return-scan pixels of the events of a cleaned batch in the flyback,
/// with the frame of each.
pub open spec fn return_slices(es: Seq<SingleElectron>, spim: Option<SpimGeometry>, n: int) -> Seq<(u32, u64)>
    decreases n,
{
    if n <= 0 {
        Seq::empty()
    } else {
        let prev = return_slices(es, spim, n - 1);
        let px = return_pixel_of(spim, es[n - 1]);
        if px == u32::MAX { prev } else { prev.push((px, es[n - 1].spim_slice)) }
    }
}

/// Cleans a batch of events, then gives the scan pixel and frame of each one
/// inside the active scan, and the return-scan pixel and frame of each one in
/// the flyback.
pub fn process_slices(mut ensemble: CollectionElectron, spim: Option<SpimGeometry>, correction: &ClusterCorrection)
    -> (r: (Vec<(u32, u64)>, Vec<(u32, u64)>))
    requires
        spim matches Some(g) ==> g.tdc.wf() && geometry_ok(g.settings),
    ensures
        ({
            let es = if *correction == ClusterCorrection::AverageCorrection && ensemble.data@.len() > 0
                && !crate::cluster::is_clean(ensemble.data@) {
                crate::cluster::collapse(ensemble.data@, ensemble.data@.len() as int)
            } else {
                ensemble.data@
            };
            &&& r.0@ == spim_slices(es, spim, es.len() as int)
            &&& r.1@ == return_slices(es, spim, es.len() as int)
        }),
{
    ensemble.try_clean(0, correction);
    let es = ensemble.data;
    let mut out: Vec<(u32, u64)> = Vec::new();
    let mut back: Vec<(u32, u64)> = Vec::new();
    let mut k: usize = 0;
    while k < es.len()
        invariant
            k <= es@.len(),
            spim matches Some(g) ==> g.tdc.wf() && geometry_ok(g.settings),
            out@ == spim_slices(es@, spim, k as int),
            back@ == return_slices(es@, spim, k as int),
        decreases es@.len() - k,
    {
        let px = scan_pixel(&spim, &es[k]);
        if px != u32::MAX {
            out.push((px, es[k].spim_slice));
        }
        let rx = scan_return_pixel(&spim, &es[k]);
        if rx != u32::MAX {
            back.push((rx, es[k].spim_slice));
        }
        k = k + 1;
    }
    (out, back)
}

/// Photon TDC times wrap after 2^35 coarse periods of twelve fine ticks.
pub const PHOTON_WRAP: u64 = 412_316_860_416;

/// The clocks a stream of events is read with: hit times unwrapped in ticks
/// of 1.5625 ns, photon times unwrapped in fine ticks (six to a tick), both
/// counted from the common start of the detector clocks, and the scan-line
/// reference.
#[derive(Debug, Clone, Copy, PartialEq, Eq, Structural)]
pub struct StreamClocks {
    pub electrons: Unwrapper,
    pub photons: Unwrapper,
    pub line: Option<PeriodicTdcRef>,
}

impl StreamClocks {
    pub open spec fn wf(self) -> bool {
        &&& self.electrons.wf()
        &&& self.electrons.modulus == ELECTRON_OVERFLOW
        &&& self.photons.wf()
        &&& self.photons.modulus == PHOTON_WRAP
        &&& (self.line matches Some(t) ==> t.wf())
    }

    /// Clocks at the start of a measurement.
    pub fn new(line: Option<PeriodicTdcRef>) -> (r: StreamClocks)
        requires
            line matches Some(t) ==> t.wf(),
        ensures
            r.wf(),
            r.line == line,
            r.electrons.reference() == 0,
            r.photons.reference() == 0,
    {
        StreamClocks { electrons: Unwrapper::new(ELECTRON_OVERFLOW), photons: Unwrapper::new(PHOTON_WRAP), line }
    }
}

/// What the coincidence search takes from decoded events: electrons,
/// photon triggers, and the clocks after them.
pub struct SplitState {
    pub electrons: Seq<SingleElectron>,
    pub photons: Seq<Photon>,
    pub clocks: StreamClocks,
}

/// Raw photon time of a TDC edge in fine ticks, on its clock.
pub open spec fn photon_raw(t: TdcEdge) -> u64 {
    ((t.coarse * 12 + t.fine) % (PHOTON_WRAP as int)) as u64
}

/// One event sorted: a photon trigger (its unwrapped time in fine ticks,
/// channel 0), a scan line (moves the reference), or a hit (an electron at its
/// unwrapped time, placed by the reference; past half the range of the clock,
/// centuries of data, hits are left out).
pub open spec fn split_step(st: SplitState, e: Event, photon_kind: u8, line_kind: u8) -> SplitState {
    let c = st.clocks;
    match e {
        Event::Tdc(t) => if t.kind == photon_kind {
            SplitState {
                photons: st.photons.push(Photon { time: c.photons.value(photon_raw(t)) as u64, channel: 0, g2: None }),
                clocks: StreamClocks { photons: c.photons.next(photon_raw(t)), ..c },
                ..st
            }
        } else if t.kind == line_kind {
            SplitState {
                clocks: StreamClocks { line: match c.line { Some(r) => Some(periodic_upt(r, t.time()).0), None => None }, ..c },
                ..st
            }
        } else {
            st
        },
        Event::Pixel(h) => SplitState {
            electrons: if c.electrons.value(h.time()) <= u64::MAX / 2 {
                st.electrons.push(electron_of(h, eels_x(h.chip, h.x as u64) as u16,
                    c.electrons.value(h.time()) as u64, c.line))
            } else {
                st.electrons
            },
            clocks: StreamClocks { electrons: c.electrons.next(h.time()), ..c },
            ..st
        },
        _ => st,
    }
}

/// The first `n` events sorted.
pub open spec fn split_fold(st: SplitState, evs: Seq<Event>, n: int, photon_kind: u8, line_kind: u8) -> SplitState
    decreases n,
{
    if n <= 0 { st } else { split_step(split_fold(st, evs, n - 1, photon_kind, line_kind), evs[n - 1], photon_kind, line_kind) }
}

/// Sorts decoded events into the electrons and photon triggers of one batch.
/// Hit and photon times are unwrapped with the clocks carried from batch to
/// batch, so that both run on one time base (a photon's fine ticks are six to
/// a hit tick) and the clocks' references never go back for events in time
/// order; the scan-line reference moves along.
pub fn split_events(events: &Vec<Event>, photon_kind: u8, line_kind: u8, clocks: StreamClocks)
    -> (r: (CollectionElectron, TempTdcData, StreamClocks))
    requires
        forall|i: int| 0 <= i < events@.len() ==> event_wf(#[trigger] events@[i]),
        clocks.wf(),
    ensures
        ({
            let f = split_fold(SplitState { electrons: Seq::empty(), photons: Seq::empty(), clocks },
                events@, events@.len() as int, photon_kind, line_kind);
            &&& r.0.data@ == f.electrons
            &&& r.1.tdc@ == f.photons
            &&& r.1.clean_tdc@.len() == 0
            &&& r.1.min_index == 0
            &&& r.2 == f.clocks
        }),
        r.2.wf(),
        forall|i: int| 0 <= i < r.0.data@.len() ==> (#[trigger] r.0.data@[i]).time <= u64::MAX / 2,
{
    let mut electrons = CollectionElectron::new();
    let mut photons = TempTdcData::new();
    let mut c = clocks;
    let ghost start = SplitState { electrons: Seq::empty(), photons: Seq::empty(), clocks };
    assert(electrons.data@ =~= Seq::<SingleElectron>::empty());
    assert(photons.tdc@ =~= Seq::<Photon>::empty());
    let mut k: usize = 0;
    while k < events.len()
        invariant
            k <= events@.len(),
            forall|i: int| 0 <= i < events@.len() ==> event_wf(#[trigger] events@[i]),
            start == (SplitState { electrons: Seq::empty(), photons: Seq::empty(), clocks }),
            c.wf(),
            photons.clean_tdc@.len() == 0,
            photons.min_index == 0,
            forall|i: int| 0 <= i < electrons.data@.len() ==> (#[trigger] electrons.data@[i]).time <= u64::MAX / 2,
            split_fold(start, events@, k as int, photon_kind, line_kind)
                == (SplitState { electrons: electrons.data@, photons: photons.tdc@, clocks: c }),
        decreases events@.len() - k,
    {
        let e = events[k];
        assert(event_wf(events@[k as int]));
        match e {
            Event::Tdc(t) => {
                if t.kind == photon_kind {
                    let raw = (t.coarse * 12 + t.fine as u64) % PHOTON_WRAP;
                    let time = c.photons.unwrap(raw);
                    photons.add_tdc(time, 0);
                } else if t.kind == line_kind {
                    if let Some(mut r) = c.line {
                        r.upt(t.time_norm());
                        c.line = Some(r);
                    }
                }
            },
            Event::Pixel(h) => {
                let gx = h.global_x();
                let raw = h.electron_time();
                let time = c.electrons.unwrap(raw);
                if time <= u64::MAX / 2 {
                    electrons.add_electron(SingleElectron::new(&h, gx, time, c.line));
                }
            },
            _ => {},
        }
        k = k + 1;
    }
    (electrons, photons, c)
}

} // verus!
