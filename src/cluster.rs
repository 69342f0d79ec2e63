//! Collapsing clusters of neighbouring hits into single events.
use vstd::prelude::*;
use vstd::relations::sorted_by;
use crate::packet::PixelHit;
use crate::tdc::PeriodicTdcRef;

verus! {

/// Hits at most this many ticks (50 ns) apart may belong to one cluster.
pub const CLUSTER_DET: u64 = 32;

/// One electron event: a hit, or the centroid of a cluster of hits.
#[derive(Debug, Clone, Copy, PartialEq, Eq, Structural)]
pub struct SingleElectron {
    /// Time in ticks of 1.5625 ns.
    pub time: u64,
    pub x: usize,
    pub y: usize,
    pub tot: u16,
    /// Time since the start of the scan frame.
    pub frame_dt: u64,
    /// Index of the scan frame.
    pub spim_slice: u64,
    pub cluster_size: usize,
}

/// The event of a hit at global column `gx` and unwrapped time `time`; see
/// `SingleElectron::new`.
pub open spec fn electron_of(h: PixelHit, gx: u16, time: u64, spim_tdc: Option<PeriodicTdcRef>) -> SingleElectron {
    SingleElectron {
        time,
        x: gx as usize,
        y: h.y as usize,
        tot: h.tot,
        frame_dt: match spim_tdc {
            Some(t) => if time >= t.begin_frame { (time - t.begin_frame) as u64 } else { 0 },
            None => 0,
        },
        spim_slice: match spim_tdc {
            Some(t) => t.counter / t.lines_per_frame,
            None => 0,
        },
        cluster_size: 1,
    }
}

impl SingleElectron {
    /// The event of a hit at global column `gx` whose time, unwrapped on the
    /// common clock of hits and TDC edges, is `time`. With a scan reference,
    /// its time since the start of the scan frame and the frame number are
    /// kept.
    pub fn new(h: &PixelHit, gx: u16, time: u64, spim_tdc: Option<PeriodicTdcRef>) -> (e: SingleElectron)
        requires
            spim_tdc matches Some(t) ==> t.wf(),
        ensures
            e == electron_of(*h, gx, time, spim_tdc),
    {
        let (frame_dt, spim_slice) = match spim_tdc {
            Some(t) => (if time >= t.begin_frame { time - t.begin_frame } else { 0 }, t.counter / t.lines_per_frame),
            None => (0, 0),
        };
        SingleElectron {
            time,
            x: gx as usize,
            y: h.y as usize,
            tot: h.tot,
            frame_dt,
            spim_slice,
            cluster_size: 1,
        }
    }
}

/// How clusters are handled.
#[derive(Debug, Clone, Copy, PartialEq, Eq, Structural)]
pub enum ClusterCorrection {
    /// Hits are kept as they are.
    NoCorrection,
    /// Each cluster becomes one event at the mean of its members.
    AverageCorrection,
}

pub open spec fn abs_diff(a: int, b: int) -> int {
    if a >= b { a - b } else { b - a }
}

/// Whether two consecutive hits belong to the same cluster.
pub open spec fn near(a: SingleElectron, b: SingleElectron) -> bool {
    abs_diff(a.time as int, b.time as int) <= CLUSTER_DET && abs_diff(a.x as int, b.x as int) <= 2
        && abs_diff(a.y as int, b.y as int) <= 2
}

/// Whether no two consecutive hits belong to the same cluster.
pub open spec fn is_clean(s: Seq<SingleElectron>) -> bool {
    forall|i: int| 0 < i < s.len() ==> !near(#[trigger] s[i - 1], s[i])
}

pub open spec fn sum_time(s: Seq<SingleElectron>) -> int
    decreases s.len(),
{
    if s.len() == 0 { 0 } else { sum_time(s.drop_last()) + s.last().time }
}

pub open spec fn sum_x(s: Seq<SingleElectron>) -> int
    decreases s.len(),
{
    if s.len() == 0 { 0 } else { sum_x(s.drop_last()) + s.last().x }
}

pub open spec fn sum_y(s: Seq<SingleElectron>) -> int
    decreases s.len(),
{
    if s.len() == 0 { 0 } else { sum_y(s.drop_last()) + s.last().y }
}

pub open spec fn sum_tot(s: Seq<SingleElectron>) -> int
    decreases s.len(),
{
    if s.len() == 0 { 0 } else { sum_tot(s.drop_last()) + s.last().tot }
}

pub open spec fn sum_dt(s: Seq<SingleElectron>) -> int
    decreases s.len(),
{
    if s.len() == 0 { 0 } else { sum_dt(s.drop_last()) + s.last().frame_dt }
}

/// The event standing for a cluster: the means (rounded down) of its members'
/// times, positions, ToT and frame times, the frame of its first member, and
/// its size.
pub open spec fn centroid(m: Seq<SingleElectron>) -> SingleElectron {
    let n = m.len() as int;
    SingleElectron {
        time: (sum_time(m) / n) as u64,
        x: (sum_x(m) / n) as usize,
        y: (sum_y(m) / n) as usize,
        tot: (sum_tot(m) / n) as u16,
        frame_dt: (sum_dt(m) / n) as u64,
        spim_slice: m[0].spim_slice,
        cluster_size: n as usize,
    }
}

/// Where the cluster holding hit `i` starts.
pub open spec fn run_start(s: Seq<SingleElectron>, i: int) -> int
    decreases i,
{
    if i <= 0 || !near(s[i - 1], s[i]) { i } else { run_start(s, i - 1) }
}

/// The events for the clusters of the first `n` hits.
pub open spec fn collapse(s: Seq<SingleElectron>, n: int) -> Seq<SingleElectron>
    decreases n,
{
    if n <= 0 {
        Seq::empty()
    } else {
        let st = run_start(s, n - 1);
        let st = if 0 <= st <= n - 1 { st } else { n - 1 };
        collapse(s, st).push(centroid(s.subrange(st, n)))
    }
}

proof fn lemma_run_start_bounds(s: Seq<SingleElectron>, i: int)
    requires
        0 <= i,
    ensures
        0 <= run_start(s, i) <= i,
    decreases i,
{
    if i > 0 && near(s[i - 1], s[i]) {
        lemma_run_start_bounds(s, i - 1);
    }
}

proof fn lemma_sums_step(s: Seq<SingleElectron>, a: int, j: int)
    requires
        0 <= a <= j < s.len(),
    ensures
        sum_time(s.subrange(a, j + 1)) == sum_time(s.subrange(a, j)) + s[j].time,
        sum_x(s.subrange(a, j + 1)) == sum_x(s.subrange(a, j)) + s[j].x,
        sum_y(s.subrange(a, j + 1)) == sum_y(s.subrange(a, j)) + s[j].y,
        sum_tot(s.subrange(a, j + 1)) == sum_tot(s.subrange(a, j)) + s[j].tot,
        sum_dt(s.subrange(a, j + 1)) == sum_dt(s.subrange(a, j)) + s[j].frame_dt,
{
    assert(s.subrange(a, j + 1).drop_last() =~= s.subrange(a, j));
}

proof fn lemma_mean_fits(sum: int, n: int, max: int)
    requires
        n > 0,
        0 <= sum <= n * max,
    ensures
        0 <= sum / n <= max,
{
    assert(sum / n <= max) by (nonlinear_arith)
        requires
            n > 0,
            0 <= sum <= n * max,
    ;
    assert(0 <= sum / n) by (nonlinear_arith)
        requires
            n > 0,
            0 <= sum,
    ;
}

/// The centroid of hits `a..b` of `v`.
fn centroid_of(v: &Vec<SingleElectron>, a: usize, b: usize) -> (c: SingleElectron)
    requires
        a < b <= v@.len(),
    ensures
        c == centroid(v@.subrange(a as int, b as int)),
{
    let mut st: u128 = 0;
    let mut sx: u128 = 0;
    let mut sy: u128 = 0;
    let mut stot: u128 = 0;
    let mut sdt: u128 = 0;
    let mut j = a;
    while j < b
        invariant
            a <= j <= b <= v@.len(),
            st == sum_time(v@.subrange(a as int, j as int)),
            sx == sum_x(v@.subrange(a as int, j as int)),
            sy == sum_y(v@.subrange(a as int, j as int)),
            stot == sum_tot(v@.subrange(a as int, j as int)),
            sdt == sum_dt(v@.subrange(a as int, j as int)),
            st <= (j - a) * (u64::MAX as int),
            sx <= (j - a) * (usize::MAX as int),
            sy <= (j - a) * (usize::MAX as int),
            stot <= (j - a) * (u16::MAX as int),
            sdt <= (j - a) * (u64::MAX as int),
        decreases b - j,
    {
        proof {
            lemma_sums_step(v@, a as int, j as int);
        }
        let e = v[j];
        st = st + e.time as u128;
        sx = sx + e.x as u128;
        sy = sy + e.y as u128;
        stot = stot + e.tot as u128;
        sdt = sdt + e.frame_dt as u128;
        j = j + 1;
    }
    let n = (b - a) as u128;
    let ghost m = v@.subrange(a as int, b as int);
    proof {
        lemma_mean_fits(st as int, n as int, u64::MAX as int);
        lemma_mean_fits(sx as int, n as int, usize::MAX as int);
        lemma_mean_fits(sy as int, n as int, usize::MAX as int);
        lemma_mean_fits(stot as int, n as int, u16::MAX as int);
        lemma_mean_fits(sdt as int, n as int, u64::MAX as int);
    }
    SingleElectron {
        time: (st / n) as u64,
        x: (sx / n) as usize,
        y: (sy / n) as usize,
        tot: (stot / n) as u16,
        frame_dt: (sdt / n) as u64,
        spim_slice: v[a].spim_slice,
        cluster_size: b - a,
    }
}

/// Whether two consecutive hits belong to the same cluster.
fn near_exec(a: &SingleElectron, b: &SingleElectron) -> (r: bool)
    ensures
        r == near(*a, *b),
{
    let dt = if a.time >= b.time { a.time - b.time } else { b.time - a.time };
    let dx = if a.x >= b.x { a.x - b.x } else { b.x - a.x };
    let dy = if a.y >= b.y { a.y - b.y } else { b.y - a.y };
    dt <= CLUSTER_DET && dx <= 2 && dy <= 2
}

/// The events for the clusters of `v`.
fn collapse_exec(v: &Vec<SingleElectron>) -> (r: Vec<SingleElectron>)
    requires
        v@.len() > 0,
    ensures
        r@ == collapse(v@, v@.len() as int),
{
    let n = v.len();
    let mut out: Vec<SingleElectron> = Vec::new();
    let mut start: usize = 0;
    let mut i: usize = 1;
    while i < n
        invariant
            1 <= i <= n == v@.len(),
            start < i,
            run_start(v@, i - 1) == start,
            out@ == collapse(v@, start as int),
        decreases n - i,
    {
        if !near_exec(&v[i - 1], &v[i]) {
            let c = centroid_of(v, start, i);
            proof {
                lemma_run_start_bounds(v@, i - 1);
            }
            out.push(c);
            start = i;
        }
        i = i + 1;
    }
    let c = centroid_of(v, start, n);
    out.push(c);
    out
}

/// Events that are ordered by a time.
pub trait TimeKey {
    spec fn time_key(&self) -> u64;

    fn key(&self) -> (k: u64)
        ensures
            k == self.time_key(),
    ;
}

impl TimeKey for SingleElectron {
    open spec fn time_key(&self) -> u64 {
        self.time
    }

    fn key(&self) -> (k: u64) {
        self.time
    }
}

/// Relies on `slice::sort_unstable_by_key`: it leaves the same elements, in
/// ascending order of the key.
#[verifier::external_body]
pub fn sort_by_time<T: TimeKey>(v: &mut Vec<T>)
    ensures
        final(v)@.to_multiset() == old(v)@.to_multiset(),
        sorted_by(final(v)@, |a: T, b: T| a.time_key() <= b.time_key()),
{
    v.sort_unstable_by_key(|e| e.key());
}

/// The electrons of one batch, with a cursor for searches into them.
pub struct TempElectronData {
    pub electron: CollectionElectron,
    pub min_index: usize,
}

impl TempElectronData {
    pub fn new() -> (r: TempElectronData)
        ensures
            r.electron.data@.len() == 0,
            r.min_index == 0,
    {
        TempElectronData { electron: CollectionElectron::new(), min_index: 0 }
    }
}

/// A list of electron events.
pub struct CollectionElectron {
    pub data: Vec<SingleElectron>,
}

impl CollectionElectron {
    pub fn new() -> (r: CollectionElectron)
        ensures
            r.data@.len() == 0,
    {
        CollectionElectron { data: Vec::new() }
    }

    pub fn add_electron(&mut self, e: SingleElectron)
        ensures
            final(self).data@ == old(self).data@.push(e),
    {
        self.data.push(e);
    }

    /// Orders the events by time.
    pub fn sort(&mut self)
        ensures
            final(self).data@.to_multiset() == old(self).data@.to_multiset(),
            sorted_by(final(self).data@, |a: SingleElectron, b: SingleElectron| a.time <= b.time),
    {
        sort_by_time(&mut self.data);
        assert(sorted_by(self.data@, |a: SingleElectron, b: SingleElectron| a.time <= b.time)) by {
            assert forall|i: int, j: int| 0 <= i < j < self.data@.len() implies self.data@[i].time <= self.data@[j].time by {
                let f = |a: SingleElectron, b: SingleElectron| a.time_key() <= b.time_key();
                assert(f(self.data@[i], self.data@[j]));
            }
        }
    }

    pub fn len(&self) -> (n: usize)
        ensures
            n == self.data@.len(),
    {
        self.data.len()
    }

    pub fn clear(&mut self)
        ensures
            final(self).data@.len() == 0,
    {
        self.data = Vec::new();
    }

    /// Collapses every cluster into its centroid. Returns whether that was
    /// done: not without a correction, on a list of at most `threshold`
    /// events, or on one that holds no cluster; the list is then unchanged.
    pub fn try_clean(&mut self, threshold: usize, correction: &ClusterCorrection) -> (cleaned: bool)
        ensures
            cleaned == (*correction == ClusterCorrection::AverageCorrection && old(self).data@.len() > threshold
                && !is_clean(old(self).data@)),
            cleaned ==> final(self).data@ == collapse(old(self).data@, old(self).data@.len() as int),
            !cleaned ==> final(self).data@ == old(self).data@,
    {
        if let ClusterCorrection::NoCorrection = correction {
            return false;
        }
        if self.data.len() <= threshold {
            return false;
        }
        let n = self.data.len();
        let mut i: usize = 1;
        let mut found = false;
        while i < n && !found
            invariant
                n == self.data@.len(),
                1 <= i,
                i <= n || n == 0,
                found ==> !is_clean(self.data@),
                !found ==> forall|j: int| 0 < j < i && j < n ==> !near(#[trigger] self.data@[j - 1], self.data@[j]),
            decreases (n - i) * 2 + (if found { 0int } else { 1 }),
        {
            if near_exec(&self.data[i - 1], &self.data[i]) {
                found = true;
            } else {
                i = i + 1;
            }
        }
        if !found {
            return false;
        }
        let out = collapse_exec(&self.data);
        self.data = out;
        true
    }
}

/// A centroid lies within its cluster: some member is no later and some member
/// no earlier than it, and its column is the members' mean rounded down, so
/// less than one column away from it.
pub proof fn lemma_centroid_within(m: Seq<SingleElectron>)
    requires
        m.len() > 0,
    ensures
        exists|i: int| 0 <= i < m.len() && m[i].time <= centroid(m).time,
        exists|i: int| 0 <= i < m.len() && m[i].time >= centroid(m).time,
        centroid(m).x * m.len() <= sum_x(m) < (centroid(m).x + 1) * m.len(),
{
    let n = m.len() as int;
    lemma_sums_nonneg(m);
    lemma_sums_bounded(m);
    lemma_mean_fits(sum_time(m), n, u64::MAX as int);
    lemma_mean_fits(sum_x(m), n, usize::MAX as int);
    let c = sum_time(m) / n;
    assert(c * n <= sum_time(m) < (c + 1) * n) by (nonlinear_arith)
        requires
            n > 0,
            c == sum_time(m) / n,
    ;
    let cx = sum_x(m) / n;
    assert(cx * n <= sum_x(m) < (cx + 1) * n) by (nonlinear_arith)
        requires
            n > 0,
            cx == sum_x(m) / n,
    ;
    if forall|i: int| 0 <= i < m.len() ==> m[i].time > c {
        lemma_sum_time_above(m, c + 1);
    }
    if forall|i: int| 0 <= i < m.len() ==> m[i].time < c {
        lemma_sum_time_below(m, c - 1);
        assert(n * (c - 1) == c * n - n) by (nonlinear_arith);
    }
}

proof fn lemma_sums_nonneg(m: Seq<SingleElectron>)
    ensures
        sum_time(m) >= 0,
        sum_x(m) >= 0,
    decreases m.len(),
{
    if m.len() > 0 {
        lemma_sums_nonneg(m.drop_last());
    }
}

proof fn lemma_sums_bounded(m: Seq<SingleElectron>)
    ensures
        sum_time(m) <= m.len() * (u64::MAX as int),
        sum_x(m) <= m.len() * (usize::MAX as int),
    decreases m.len(),
{
    if m.len() > 0 {
        lemma_sums_bounded(m.drop_last());
        assert(m.len() * (u64::MAX as int) == (m.len() - 1) * (u64::MAX as int) + u64::MAX) by (nonlinear_arith);
        assert(m.len() * (usize::MAX as int) == (m.len() - 1) * (usize::MAX as int) + usize::MAX) by (nonlinear_arith);
    }
}

proof fn lemma_sum_time_above(m: Seq<SingleElectron>, lo: int)
    requires
        forall|i: int| 0 <= i < m.len() ==> m[i].time >= lo,
    ensures
        sum_time(m) >= m.len() * lo,
    decreases m.len(),
{
    if m.len() > 0 {
        lemma_sum_time_above(m.drop_last(), lo);
        assert(m.len() * lo == (m.len() - 1) * lo + lo) by (nonlinear_arith);
    }
}

proof fn lemma_sum_time_below(m: Seq<SingleElectron>, hi: int)
    requires
        forall|i: int| 0 <= i < m.len() ==> m[i].time <= hi,
    ensures
        sum_time(m) <= m.len() * hi,
    decreases m.len(),
{
    if m.len() > 0 {
        lemma_sum_time_below(m.drop_last(), hi);
        assert(m.len() * hi == (m.len() - 1) * hi + hi) by (nonlinear_arith);
    }
}

/// Events made from hits no later than `bound` are no later than `bound`.
pub proof fn lemma_collapse_times_bounded(s: Seq<SingleElectron>, n: int, bound: int)
    requires
        0 <= n <= s.len(),
        forall|i: int| 0 <= i < s.len() ==> #[trigger] s[i].time <= bound,
    ensures
        forall|i: int| 0 <= i < collapse(s, n).len() ==> #[trigger] collapse(s, n)[i].time <= bound,
    decreases n,
{
    if n > 0 {
        lemma_run_start_bounds(s, n - 1);
        let st = run_start(s, n - 1);
        lemma_collapse_times_bounded(s, st, bound);
        let m = s.subrange(st, n);
        lemma_centroid_within(m);
        let c = centroid(m);
        let j = choose|j: int| 0 <= j < m.len() && m[j].time >= c.time;
        assert(m[j] == s[st + j]);
        let prev = collapse(s, st);
        assert(collapse(s, n) == prev.push(c));
        assert forall|i: int| 0 <= i < collapse(s, n).len() implies #[trigger] collapse(s, n)[i].time <= bound by {
            if i < prev.len() {
                assert(collapse(s, n)[i] == prev[i]);
            }
        }
    }
}

/// Whether `c` is the centroid of a run `a..b` of the first `n` hits, lies
/// within it in time (some member no later, some no earlier), and has a
/// column less than one away from the members' mean.
pub open spec fn centroid_of_run(s: Seq<SingleElectron>, n: int, c: SingleElectron) -> bool {
    exists|a: int, b: int| #![trigger s.subrange(a, b)]
        0 <= a < b <= n && c == centroid(s.subrange(a, b))
        && (exists|i: int| a <= i < b && s[i].time <= c.time)
        && (exists|j: int| a <= j < b && s[j].time >= c.time)
        && c.x * (b - a) <= sum_x(s.subrange(a, b)) < (c.x + 1) * (b - a)
}

/// Every event the cleaning produces is the centroid of a run of hits and
/// lies within it; see `centroid_of_run`.
pub proof fn lemma_collapse_within(s: Seq<SingleElectron>, n: int)
    requires
        0 <= n <= s.len(),
    ensures
        forall|k: int| 0 <= k < collapse(s, n).len() ==> centroid_of_run(s, n, #[trigger] collapse(s, n)[k]),
    decreases n,
{
    if n > 0 {
        lemma_run_start_bounds(s, n - 1);
        let st = run_start(s, n - 1);
        lemma_collapse_within(s, st);
        let m = s.subrange(st, n);
        lemma_centroid_within(m);
        let c = centroid(m);
        let prev = collapse(s, st);
        assert(collapse(s, n) == prev.push(c));
        assert forall|k: int| 0 <= k < collapse(s, n).len() implies centroid_of_run(s, n, #[trigger] collapse(s, n)[k]) by {
            if k < prev.len() {
                assert(collapse(s, n)[k] == prev[k]);
                assert(centroid_of_run(s, st, prev[k]));
                let (a, b) = choose|a: int, b: int| #![trigger s.subrange(a, b)]
                    0 <= a < b <= st && prev[k] == centroid(s.subrange(a, b))
                    && (exists|i: int| a <= i < b && s[i].time <= prev[k].time)
                    && (exists|j: int| a <= j < b && s[j].time >= prev[k].time)
                    && prev[k].x * (b - a) <= sum_x(s.subrange(a, b)) < (prev[k].x + 1) * (b - a);
                assert(s.subrange(a, b) == s.subrange(a, b));
            } else {
                let i = choose|i: int| 0 <= i < m.len() && m[i].time <= c.time;
                let j = choose|j: int| 0 <= j < m.len() && m[j].time >= c.time;
                assert(s[st + i] == m[i]);
                assert(s[st + j] == m[j]);
                assert(collapse(s, n)[k] == centroid(s.subrange(st, n)));
                assert(s.subrange(st, n) == m);
            }
        }
    }
}

} // verus!
