//! Spectral images: each hit is mapped to a (line, column, energy channel)
//! index of the scan frame, and the indexes of a batch are sent run-length
//! encoded.
use vstd::prelude::*;
use vstd::relations::{sorted_by, total_ordering};
use crate::settings::Settings;
use crate::packet::{Event, PixelHit, decode_event, eels_x, event_of, event_wf, lemma_event_wf, packet_at, ELECTRON_OVERFLOW, TDC_OVERFLOW};
use crate::tdc::{PeriodicTdcRef, TdcRef, periodic_upt, tdc_ref_upt, tr_check_if_in, tr_window};

verus! {

/// Energy channels per scan pixel: the 1024 columns of the strip and one more
/// for photon triggers.
pub const SPIM_PIXELS: usize = 1025;

/// Whether the sizes of a spectral image can be used to compute indexes.
pub open spec fn geometry_ok(s: Settings) -> bool {
    &&& s.xspim_size > 0
    &&& s.yspim_size > 0
    &&& s.spimoverscany > 0
    &&& s.xspim_size * s.yspim_size * SPIM_PIXELS <= usize::MAX
}

/// The smaller of two integers.
pub open spec fn min_int(a: int, b: int) -> int {
    if a < b { a } else { b }
}

/// The index of the first energy channel of the scan pixel a hit `dt` ticks
/// after the start of a frame falls in, when lines come every `period` ticks
/// and the first `low_time` ticks of each line are the active scan; `None` in
/// the flyback.
pub open spec fn spim_index(dt: int, low_time: int, period: int, s: Settings) -> Option<int> {
    let r = dt % period;
    if r > low_time {
        None
    } else {
        let line = (dt / period / (s.spimoverscany as int)) % (s.yspim_size as int);
        let column = min_int((s.xspim_size as int) * r / low_time, s.xspim_size - 1);
        Some((line * s.xspim_size + column) * SPIM_PIXELS)
    }
}

/// The index for a hit at `t` in a frame that began at `begin`: none before it.
pub open spec fn spim_detector_spec(t: u64, begin: u64, low_time: u64, period: u64, s: Settings) -> Option<int> {
    if t < begin {
        None
    } else {
        spim_index(t - begin, low_time as int, period as int, s)
    }
}

/// Maps a hit at `ele_time` to the first energy channel of its scan pixel in
/// the frame that began at `begin`; `None` before the frame or in the flyback.
pub fn spim_detector(ele_time: u64, begin: u64, interval: u64, period: u64, set: &Settings) -> (r: Option<usize>)
    requires
        0 < interval <= period,
        geometry_ok(*set),
    ensures
        r matches Some(i) ==> spim_detector_spec(ele_time, begin, interval, period, *set) == Some(i as int),
        r is None <==> spim_detector_spec(ele_time, begin, interval, period, *set) is None,
        r matches Some(i) ==> i + SPIM_PIXELS <= set.xspim_size * set.yspim_size * SPIM_PIXELS,
{
    if ele_time < begin {
        return None;
    }
    let dt = ele_time - begin;
    let r = dt % period;
    if r > interval {
        return None;
    }
    let xs = set.xspim_size;
    let ys = set.yspim_size;
    let line = (dt / period / (set.spimoverscany as u64)) % (ys as u64);
    assert((xs as u128) * (r as u128) <= u128::MAX) by (nonlinear_arith)
        requires
            xs <= u64::MAX,
            r <= u64::MAX,
    ;
    let prod = (xs as u128) * (r as u128);
    let q = prod / (interval as u128);
    proof {
        assert(q <= xs) by (nonlinear_arith)
            requires
                prod as int == xs as int * r as int,
                q as int == prod as int / interval as int,
                r <= interval,
                interval > 0,
        ;
    }
    let c = q as u64;
    let column = if c < xs as u64 { c } else { (xs - 1) as u64 };
    proof {
        assert((line as int) * xs + column + 1 <= xs * ys) by (nonlinear_arith)
            requires
                line < ys,
                column < xs,
        ;
        assert(((line as int) * xs + column) * SPIM_PIXELS + SPIM_PIXELS <= xs * ys * SPIM_PIXELS) by (nonlinear_arith)
            requires
                (line as int) * xs + column + 1 <= xs * ys,
        ;
    }
    Some((line as usize * xs + column as usize) * SPIM_PIXELS)
}

/// The index of a hit in the flyback of its line, the flyback being spread
/// over the columns as the active part is; `None` in the active part.
pub open spec fn return_index(dt: int, low_time: int, period: int, s: Settings) -> Option<int> {
    let r = dt % period;
    if r <= low_time || low_time >= period {
        None
    } else {
        let line = (dt / period / (s.spimoverscany as int)) % (s.yspim_size as int);
        let column = min_int((s.xspim_size as int) * (r - low_time) / (period - low_time), s.xspim_size - 1);
        Some((line * s.xspim_size + column) * SPIM_PIXELS)
    }
}

/// Maps a hit in the flyback of a line to the first energy channel of its
/// return pixel; `None` before the frame or in the active part of the line.
pub fn spim_return_detector(ele_time: u64, begin: u64, interval: u64, period: u64, set: &Settings) -> (r: Option<usize>)
    requires
        0 < interval <= period,
        geometry_ok(*set),
    ensures
        r matches Some(i) ==> ele_time >= begin && return_index(ele_time - begin, interval as int, period as int, *set) == Some(i as int),
        r is None <==> (ele_time < begin || return_index(ele_time - begin, interval as int, period as int, *set) is None),
        r matches Some(i) ==> i + SPIM_PIXELS <= set.xspim_size * set.yspim_size * SPIM_PIXELS,
{
    if ele_time < begin || interval >= period {
        return None;
    }
    let dt = ele_time - begin;
    let r = dt % period;
    if r <= interval {
        return None;
    }
    let xs = set.xspim_size;
    let ys = set.yspim_size;
    let line = (dt / period / (set.spimoverscany as u64)) % (ys as u64);
    let back = r - interval;
    let span = period - interval;
    assert((xs as u128) * (back as u128) <= u128::MAX) by (nonlinear_arith)
        requires
            xs <= u64::MAX,
            back <= u64::MAX,
    ;
    let prod = (xs as u128) * (back as u128);
    let q = prod / (span as u128);
    proof {
        assert(q <= xs) by (nonlinear_arith)
            requires
                prod as int == xs as int * back as int,
                q as int == prod as int / span as int,
                back <= span,
                span > 0,
        ;
    }
    let c = q as u64;
    let column = if c < xs as u64 { c } else { (xs - 1) as u64 };
    proof {
        assert((line as int) * xs + column + 1 <= xs * ys) by (nonlinear_arith)
            requires
                line < ys,
                column < xs,
        ;
        assert(((line as int) * xs + column) * SPIM_PIXELS + SPIM_PIXELS <= xs * ys * SPIM_PIXELS) by (nonlinear_arith)
            requires
                (line as int) * xs + column + 1 <= xs * ys,
        ;
    }
    Some((line as usize * xs + column as usize) * SPIM_PIXELS)
}

/// With a spectral image of one pixel, every hit that counts lands in that
/// pixel: only the energy channel is left.
pub proof fn lemma_single_pixel_spim(dt: int, low_time: int, period: int, s: Settings)
    requires
        s.xspim_size == 1,
        s.yspim_size == 1,
        s.spimoverscany > 0,
        0 < low_time <= period,
        dt >= 0,
    ensures
        spim_index(dt, low_time, period, s) matches Some(i) ==> i == 0,
{
    let r = dt % period;
    if r <= low_time {
        assert((dt / period / (s.spimoverscany as int)) % 1 == 0);
        assert(r / low_time <= 1) by (nonlinear_arith)
            requires
                0 <= r <= low_time,
                low_time > 0,
        ;
    }
}

/// A hit one tick before the next line edge, with no flyback and at least one
/// tick per column, lands in the last column of its line.
pub proof fn lemma_last_tick_last_column(line_start: int, period: int, s: Settings)
    requires
        s.xspim_size > 0,
        s.yspim_size > 0,
        s.spimoverscany > 0,
        period >= s.xspim_size,
        line_start >= 0,
        line_start % period == 0,
    ensures
        spim_index(line_start + period - 1, period, period, s) == Some(
            ((((line_start / period) / (s.spimoverscany as int)) % (s.yspim_size as int)) * s.xspim_size
                + s.xspim_size - 1) * SPIM_PIXELS,
        ),
{
    let dt = line_start + period - 1;
    let x = s.xspim_size as int;
    let k = line_start / period;
    assert(line_start == k * period) by (nonlinear_arith)
        requires
            line_start % period == 0,
            k == line_start / period,
            period > 0,
    ;
    assert(dt / period == k && dt % period == period - 1) by (nonlinear_arith)
        requires
            dt == k * period + period - 1,
            period > 0,
    ;
    assert(x * (period - 1) / period == x - 1) by (nonlinear_arith)
        requires
            period >= x,
            x > 0,
    ;
}

/// Walks back from the line edge at `start_line` to the last line edge not after
/// `ele`, and returns how many lines back it is when `ele` is in the active
/// part of that line.
pub fn spim_check_if_in(ele: u64, start_line: u64, interval: u64, period: u64) -> (r: Option<u64>)
    requires
        0 < interval <= period,
        period < u64::MAX,
    ensures
        r matches Some(k) ==> tr_window(ele, start_line, period, 0, (interval + 1) as u64) == Some(k as int),
        r is None <==> tr_window(ele, start_line, period, 0, (interval + 1) as u64) is None,
        r matches Some(k) ==> 0 <= ele - (start_line - k * period) <= interval,
        r matches Some(k) ==> (k > 0 ==> start_line - (k - 1) * period > ele),
{
    tr_check_if_in(ele, start_line, period, 0, interval + 1)
}

/// The run-length encoding of a sequence: runs of equal values, each of at most
/// 255 elements, as (count, value) columns.
pub open spec fn rle(s: Seq<usize>) -> (Seq<u8>, Seq<usize>)
    decreases s.len(),
{
    if s.len() == 0 {
        (Seq::empty(), Seq::empty())
    } else {
        let (c, i) = rle(s.drop_last());
        let v = s.last();
        if i.len() > 0 && c.len() == i.len() && i.last() == v && c.last() < 255 {
            (c.update(c.len() - 1, (c.last() + 1) as u8), i)
        } else {
            (c.push(1u8), i.push(v))
        }
    }
}

/// The sum of a sequence of counts.
pub open spec fn sum_counts(c: Seq<u8>) -> int
    decreases c.len(),
{
    if c.len() == 0 {
        0
    } else {
        sum_counts(c.drop_last()) + c.last()
    }
}

proof fn lemma_sum_counts_update(c: Seq<u8>, v: u8)
    requires
        c.len() > 0,
    ensures
        sum_counts(c.update(c.len() - 1, v)) == sum_counts(c) - c.last() + v,
{
    assert(c.update(c.len() - 1, v).drop_last() =~= c.drop_last());
}

/// The run-length encoding has one count per value, and the counts add up to
/// the number of encoded elements.
pub proof fn lemma_rle_counts(s: Seq<usize>)
    ensures
        rle(s).0.len() == rle(s).1.len(),
        sum_counts(rle(s).0) == s.len(),
        forall|j: int| 0 <= j < rle(s).0.len() ==> #[trigger] rle(s).0[j] >= 1,
    decreases s.len(),
{
    if s.len() > 0 {
        lemma_rle_counts(s.drop_last());
        let (c, i) = rle(s.drop_last());
        let v = s.last();
        if i.len() > 0 && c.len() == i.len() && i.last() == v && c.last() < 255 {
            lemma_sum_counts_update(c, (c.last() + 1) as u8);
        } else {
            assert(c.push(1u8).drop_last() =~= c);
        }
    }
}

/// The four big-endian bytes of the low 32 bits of an index.
pub open spec fn be32(v: usize) -> Seq<u8> {
    seq![((v as u64 >> 24u64) & 0xff) as u8, ((v as u64 >> 16u64) & 0xff) as u8,
         ((v as u64 >> 8u64) & 0xff) as u8, (v as u64 & 0xff) as u8]
}

/// The big-endian bytes of every index, in order.
pub open spec fn be32_all(s: Seq<usize>) -> Seq<u8>
    decreases s.len(),
{
    if s.len() == 0 {
        Seq::empty()
    } else {
        be32_all(s.drop_last()) + be32(s.last())
    }
}

/// The last `bytedepth` bytes of `v`, big-endian.
pub open spec fn be_bytes(v: usize, bytedepth: usize) -> Seq<u8> {
    if bytedepth == 4 {
        be32(v)
    } else if bytedepth == 2 {
        seq![((v as u64 >> 8u64) & 0xff) as u8, (v as u64 & 0xff) as u8]
    } else {
        seq![(v as u64 & 0xff) as u8]
    }
}

/// Appends the last `bytedepth` bytes of `index`, big-endian.
pub fn append_to_index_array(data: &mut Vec<u8>, index: usize, bytedepth: usize)
    requires
        bytedepth == 1 || bytedepth == 2 || bytedepth == 4,
    ensures
        final(data)@ == old(data)@ + be_bytes(index, bytedepth),
{
    let v = index as u64;
    if bytedepth == 4 {
        data.push(((v >> 24u64) & 0xff) as u8);
        data.push(((v >> 16u64) & 0xff) as u8);
    }
    if bytedepth >= 2 {
        data.push(((v >> 8u64) & 0xff) as u8);
    }
    data.push((v & 0xff) as u8);
    assert(data@ =~= old(data)@ + be_bytes(index, bytedepth));
}

/// The bytes of `{StartUnique}`.
pub open spec fn unique_marker() -> Seq<u8> {
    seq![123, 83, 116, 97, 114, 116, 85, 110, 105, 113, 117, 101, 125]
}

/// The bytes of `{StartIndexes}`.
pub open spec fn index_marker() -> Seq<u8> {
    seq![123, 83, 116, 97, 114, 116, 73, 110, 100, 101, 120, 101, 115, 125]
}

/// The order indexes are sent in.
pub open spec fn index_leq() -> spec_fn(usize, usize) -> bool {
    |a: usize, b: usize| a <= b
}

/// The message for a batch of indexes: the run counts after their marker, then
/// the run indexes, four bytes each, after theirs; runs are taken over the
/// indexes in ascending order.
pub open spec fn spim_message(v: Seq<usize>) -> Seq<u8> {
    let (c, i) = rle(v.sort_by(index_leq()));
    unique_marker() + c + index_marker() + be32_all(i)
}

/// Relies on `slice::sort_unstable`: it leaves the same elements, in
/// ascending order.
#[verifier::external_body]
fn sort_indices(v: &mut Vec<usize>)
    ensures
        final(v)@.to_multiset() == old(v)@.to_multiset(),
        sorted_by(final(v)@, index_leq()),
{
    v.sort_unstable();
}

proof fn lemma_index_leq_total()
    ensures
        total_ordering(index_leq()),
{
}

/// Run-length encodes a sequence, greedily from its start.
fn encode_runs(s: &Vec<usize>) -> (r: (Vec<u8>, Vec<usize>))
    ensures
        (r.0@, r.1@) == rle(s@),
{
    let mut counts: Vec<u8> = Vec::new();
    let mut idx: Vec<usize> = Vec::new();
    let mut k: usize = 0;
    while k < s.len()
        invariant
            k <= s@.len(),
            (counts@, idx@) == rle(s@.subrange(0, k as int)),
        decreases s@.len() - k,
    {
        let v = s[k];
        let ghost pre = s@.subrange(0, k as int);
        assert(s@.subrange(0, k + 1).drop_last() =~= pre);
        proof {
            lemma_rle_counts(pre);
        }
        let n = counts.len();
        if n > 0 && idx.len() == n && idx[n - 1] == v && counts[n - 1] < 255 {
            let c = counts[n - 1];
            counts.set(n - 1, c + 1);
        } else {
            counts.push(1);
            idx.push(v);
        }
        k = k + 1;
    }
    assert(s@.subrange(0, s@.len() as int) =~= s@);
    (counts, idx)
}

/// Appends the big-endian bytes of every index.
fn push_indexes(out: &mut Vec<u8>, idx: &Vec<usize>)
    ensures
        final(out)@ == old(out)@ + be32_all(idx@),
{
    let mut k: usize = 0;
    while k < idx.len()
        invariant
            k <= idx@.len(),
            out@ == old(out)@ + be32_all(idx@.subrange(0, k as int)),
        decreases idx@.len() - k,
    {
        let ghost pre = idx@.subrange(0, k as int);
        assert(idx@.subrange(0, k + 1).drop_last() =~= pre);
        append_to_index_array(out, idx[k], 4);
        k = k + 1;
        assert(out@ =~= old(out)@ + be32_all(idx@.subrange(0, k as int)));
    }
    assert(idx@.subrange(0, idx@.len() as int) =~= idx@);
}

/// The message for a batch of indexes: `{StartUnique}`, one count byte per run,
/// `{StartIndexes}`, then the index of each run in four big-endian bytes.
pub fn event_counter(my_vec: Vec<usize>) -> (r: Vec<u8>)
    ensures
        r@ == spim_message(my_vec@),
{
    let mut v = my_vec;
    sort_indices(&mut v);
    proof {
        lemma_index_leq_total();
        my_vec@.lemma_sort_by_ensures(index_leq());
        vstd::seq_lib::lemma_sorted_unique(v@, my_vec@.sort_by(index_leq()), index_leq());
    }
    let (counts, idx) = encode_runs(&v);
    let mut out: Vec<u8> = vec![123, 83, 116, 97, 114, 116, 85, 110, 105, 113, 117, 101, 125];
    assert(out@ =~= unique_marker());
    let mut k: usize = 0;
    while k < counts.len()
        invariant
            k <= counts@.len(),
            out@ == unique_marker() + counts@.subrange(0, k as int),
        decreases counts@.len() - k,
    {
        out.push(counts[k]);
        k = k + 1;
        assert(out@ =~= unique_marker() + counts@.subrange(0, k as int));
    }
    assert(counts@.subrange(0, counts@.len() as int) =~= counts@);
    let marker: Vec<u8> = vec![123, 83, 116, 97, 114, 116, 73, 110, 100, 101, 120, 101, 115, 125];
    let mut j: usize = 0;
    while j < marker.len()
        invariant
            j <= marker@.len(),
            marker@ == index_marker(),
            out@ == unique_marker() + counts@ + marker@.subrange(0, j as int),
        decreases marker@.len() - j,
    {
        out.push(marker[j]);
        j = j + 1;
        assert(out@ =~= unique_marker() + counts@ + marker@.subrange(0, j as int));
    }
    assert(marker@.subrange(0, marker@.len() as int) =~= marker@);
    push_indexes(&mut out, &idx);
    assert(out@ =~= spim_message(my_vec@));
    out
}

/// The message depends only on which indexes came and how often, not on their
/// order: two batches holding the same indexes give the same bytes.
pub proof fn lemma_spim_message_order_free(a: Seq<usize>, b: Seq<usize>)
    requires
        a.to_multiset() == b.to_multiset(),
    ensures
        spim_message(a) == spim_message(b),
{
    lemma_index_leq_total();
    a.lemma_sort_by_ensures(index_leq());
    b.lemma_sort_by_ensures(index_leq());
    vstd::seq_lib::lemma_sorted_unique(a.sort_by(index_leq()), b.sort_by(index_leq()), index_leq());
}

/// In the message, the run counts add up to the number of hits sent and there
/// is one index per count.
pub proof fn lemma_spim_message_counts(v: Seq<usize>)
    ensures
        sum_counts(rle(v.sort_by(index_leq())).0) == v.len(),
        rle(v.sort_by(index_leq())).0.len() == rle(v.sort_by(index_leq())).1.len(),
{
    lemma_index_leq_total();
    v.lemma_sort_by_ensures(index_leq());
    let s = v.sort_by(index_leq());
    lemma_rle_counts(s);
    vstd::seq_lib::to_multiset_len(s);
    vstd::seq_lib::to_multiset_len(v);
}

/// Hits gathered for one message.
pub struct Output<T> {
    pub data: Vec<T>,
}

impl<T> Output<T> {
    /// Adds one item.
    pub fn upt(&mut self, new_data: T)
        ensures
            final(self).data@ == old(self).data@.push(new_data),
    {
        self.data.push(new_data);
    }

    /// Whether anything was gathered.
    pub fn check(&self) -> (r: bool)
        ensures
            r == (self.data@.len() > 0),
    {
        self.data.len() > 0
    }
}

impl Output<usize> {
    /// The message for the gathered indexes.
    pub fn build_output(self) -> (r: Vec<u8>)
        ensures
            r@ == spim_message(self.data@),
    {
        event_counter(self.data)
    }
}

/// A hit as time, energy column, index and packet id.
pub type TimedIndex = (u64, usize, usize, u8);

/// Order of hits: by time, then column, index and id.
pub open spec fn hit_leq() -> spec_fn(TimedIndex, TimedIndex) -> bool {
    |a: TimedIndex, b: TimedIndex|
        a.0 < b.0 || (a.0 == b.0 && (a.1 < b.1 || (a.1 == b.1 && (a.2 < b.2 || (a.2 == b.2 && a.3 <= b.3)))))
}

/// Hits closer than this many ticks (50 ns) belong to one event.
pub const CLUSTER_TICKS: u64 = 32;

/// Whether hit `k` of a time-ordered list opens a new event: it is the first,
/// or comes more than 50 ns after the one before, or more than two columns
/// away from it, or is a TDC.
pub open spec fn opens_event(s: Seq<TimedIndex>, k: int) -> bool {
    k == 0 || s[k].0 > s[k - 1].0 + CLUSTER_TICKS || s[k].1 > s[k - 1].1 + 2 || s[k - 1].1 > s[k].1 + 2
        || s[k].3 == 6
}

/// The indexes of the hits that open an event.
pub open spec fn event_indexes(s: Seq<TimedIndex>, n: int) -> Seq<usize>
    decreases n,
{
    if n <= 0 {
        Seq::empty()
    } else if opens_event(s, n - 1) {
        event_indexes(s, n - 1).push(s[n - 1].2)
    } else {
        event_indexes(s, n - 1)
    }
}

/// Relies on `slice::sort_unstable` on tuples of integers, whose order std
/// documents as lexicographic: it leaves the same elements, in that order.
#[verifier::external_body]
fn sort_hits(v: &mut Vec<TimedIndex>)
    ensures
        final(v)@.to_multiset() == old(v)@.to_multiset(),
        sorted_by(final(v)@, hit_leq()),
{
    v.sort_unstable();
}

proof fn lemma_hit_leq_total()
    ensures
        total_ordering(hit_leq()),
{
}

impl Output<TimedIndex> {
    /// The message for the gathered hits, with each event of nearby hits
    /// counted once.
    pub fn build_output(self) -> (r: Vec<u8>)
        ensures
            r@ == spim_message(
                event_indexes(self.data@.sort_by(hit_leq()), self.data@.len() as int),
            ),
    {
        let mut v = self.data;
        let ghost orig = v@;
        sort_hits(&mut v);
        proof {
            lemma_hit_leq_total();
            orig.lemma_sort_by_ensures(hit_leq());
            vstd::seq_lib::lemma_sorted_unique(v@, orig.sort_by(hit_leq()), hit_leq());
            vstd::seq_lib::to_multiset_len(v@);
            vstd::seq_lib::to_multiset_len(orig);
        }
        let mut index_array: Vec<usize> = Vec::new();
        let mut k: usize = 0;
        while k < v.len()
            invariant
                k <= v@.len(),
                index_array@ == event_indexes(v@, k as int),
            decreases v@.len() - k,
        {
            let tp = v[k];
            let opens = if k == 0 {
                true
            } else {
                let last = v[k - 1];
                (last.0 < tp.0 && tp.0 - last.0 > CLUSTER_TICKS) || (tp.1 > last.1 && tp.1 - last.1 > 2)
                    || (last.1 > tp.1 && last.1 - tp.1 > 2) || tp.3 == 6
            };
            if opens {
                index_array.push(tp.2);
            }
            k = k + 1;
        }
        event_counter(index_array)
    }
}

/// What a spectral-image builder holds, as plain values.
pub struct SpimState {
    pub settings: Settings,
    pub list: Seq<usize>,
    pub line_tdc: PeriodicTdcRef,
    pub ref_tdc: TdcRef,
    pub last_ci: u8,
}

/// Index of a hit at `t` in the time-gated mode, `k` lines back from the last
/// line edge.
pub open spec fn gated_index(t: u64, line: PeriodicTdcRef, k: int, s: Settings) -> int {
    let edge = (line.last_time % ELECTRON_OVERFLOW) - k * line.period;
    let row = ((line.counter - k) / (s.spimoverscany as int)) % (s.yspim_size as int);
    let column = min_int((s.xspim_size as int) * (t - edge) / (line.low_time as int), s.xspim_size - 1);
    (row * s.xspim_size + column) * SPIM_PIXELS
}

/// One event applied to a spectral-image builder.
pub open spec fn spim_step(st: SpimState, e: Event) -> SpimState {
    let s = st.settings;
    let line = st.line_tdc;
    match e {
        Event::ChipHeader(c) => SpimState { last_ci: c, ..st },
        Event::Pixel(h) => {
            let gx = eels_x(h.chip, h.x as u64);
            match st.ref_tdc.spec_period() {
                None => match spim_detector_spec(
                    h.time(), line.begin_frame % ELECTRON_OVERFLOW, line.low_time, line.period, s) {
                    Some(i) => SpimState { list: st.list.push((i + gx) as usize), ..st },
                    None => st,
                },
                Some(p) => if tr_window(h.time(), st.ref_tdc.spec_time() % ELECTRON_OVERFLOW, p,
                    s.time_delay as u64, s.time_width as u64) is Some {
                    match tr_window(h.time(), line.last_time % ELECTRON_OVERFLOW, line.period, 0,
                        (line.low_time + 1) as u64) {
                        Some(k) => if k <= line.counter {
                            SpimState { list: st.list.push((gated_index(h.time(), line, k, s) + gx) as usize), ..st }
                        } else {
                            st
                        },
                        None => st,
                    }
                } else {
                    st
                },
            }
        },
        Event::Tdc(t) => if t.kind == line.id {
            SpimState { line_tdc: periodic_upt(line, t.time()).0, ..st }
        } else if t.kind == st.ref_tdc.spec_id() {
            let r = tdc_ref_upt(st.ref_tdc, t.time());
            match st.ref_tdc.spec_period() {
                Some(_) => SpimState { ref_tdc: r, ..st },
                None => match spim_detector_spec(t.time(), line.begin_frame % TDC_OVERFLOW, line.low_time, line.period, s) {
                    Some(i) => SpimState { ref_tdc: r, list: st.list.push((i + SPIM_PIXELS - 1) as usize), ..st },
                    None => SpimState { ref_tdc: r, ..st },
                },
            }
        } else {
            st
        },
        Event::Other => st,
    }
}

/// The builder after the first `n` packets of `d`.
pub open spec fn spim_fold(st: SpimState, d: Seq<u8>, n: nat) -> SpimState
    decreases n,
{
    if n == 0 {
        st
    } else {
        let s1 = spim_fold(st, d, (n - 1) as nat);
        spim_step(s1, event_of(packet_at(d, n - 1), s1.last_ci))
    }
}

/// Whether an event adds an index to the batch: a hit inside the active
/// part of a line (and, with a periodic trigger, inside its window), or a
/// non-periodic trigger inside the active part of a line.
pub open spec fn spim_counts(st: SpimState, e: Event) -> bool {
    let s = st.settings;
    let line = st.line_tdc;
    match e {
        Event::Pixel(h) => match st.ref_tdc.spec_period() {
            None => spim_detector_spec(h.time(), line.begin_frame % ELECTRON_OVERFLOW, line.low_time, line.period, s) is Some,
            Some(p) => tr_window(h.time(), st.ref_tdc.spec_time() % ELECTRON_OVERFLOW, p, s.time_delay as u64,
                s.time_width as u64) is Some && match tr_window(h.time(), line.last_time % ELECTRON_OVERFLOW, line.period,
                0, (line.low_time + 1) as u64) {
                Some(k) => k <= line.counter,
                None => false,
            },
        },
        Event::Tdc(t) => t.kind != line.id && t.kind == st.ref_tdc.spec_id() && st.ref_tdc.spec_period() is None
            && spim_detector_spec(t.time(), line.begin_frame % TDC_OVERFLOW, line.low_time, line.period, s) is Some,
        _ => false,
    }
}

/// How many of the first `n` packets of `d` add an index.
pub open spec fn spim_hits(st: SpimState, d: Seq<u8>, n: nat) -> int
    decreases n,
{
    if n == 0 {
        0
    } else {
        let s1 = spim_fold(st, d, (n - 1) as nat);
        spim_hits(st, d, (n - 1) as nat) + (if spim_counts(s1, event_of(packet_at(d, n - 1), s1.last_ci)) { 1int } else { 0 })
    }
}

/// A batch holds one index for each event that counts and none for any other:
/// every hit in the frame window is counted exactly once.
pub proof fn lemma_spim_batch_counts(st: SpimState, d: Seq<u8>, n: nat)
    ensures
        spim_fold(st, d, n).list.len() == st.list.len() + spim_hits(st, d, n),
    decreases n,
{
    if n > 0 {
        lemma_spim_batch_counts(st, d, (n - 1) as nat);
    }
}

pub open spec fn spim_state_wf(st: SpimState) -> bool {
    &&& geometry_ok(st.settings)
    &&& st.line_tdc.wf()
    &&& st.ref_tdc.wf()
}

/// Maps the hits of a live stream to spectral-image indexes. The line TDC
/// starts each scan line; the reference TDC either gates hits in time (when it
/// is periodic) or is itself counted in the last energy channel.
pub struct SpimBuilder {
    pub settings: Settings,
    pub list: Vec<usize>,
    pub line_tdc: PeriodicTdcRef,
    pub ref_tdc: TdcRef,
    pub last_ci: u8,
}

impl View for SpimBuilder {
    type V = SpimState;

    open spec fn view(&self) -> SpimState {
        SpimState {
            settings: self.settings,
            list: self.list@,
            line_tdc: self.line_tdc,
            ref_tdc: self.ref_tdc,
            last_ci: self.last_ci,
        }
    }
}

proof fn lemma_spim_step_wf(st: SpimState, e: Event)
    requires
        spim_state_wf(st),
        event_wf(e),
    ensures
        spim_state_wf(spim_step(st, e)),
{
    if let Event::Tdc(t) = e {
        if t.kind == st.line_tdc.id {
            assert(periodic_upt(st.line_tdc, t.time()).0.wf());
        } else if t.kind == st.ref_tdc.spec_id() {
            assert(tdc_ref_upt(st.ref_tdc, t.time()).wf());
        }
    }
}

impl SpimBuilder {
    pub open spec fn wf(&self) -> bool {
        spim_state_wf(self@)
    }

    pub fn new(settings: Settings, line_tdc: PeriodicTdcRef, ref_tdc: TdcRef) -> (b: SpimBuilder)
        requires
            geometry_ok(settings),
            line_tdc.wf(),
            ref_tdc.wf(),
        ensures
            b.wf(),
            b@ == (SpimState { settings, list: Seq::empty(), line_tdc, ref_tdc, last_ci: 0 }),
    {
        SpimBuilder { settings, list: Vec::new(), line_tdc, ref_tdc, last_ci: 0 }
    }

    /// Index of a hit inside the trigger window when hits are selected by a trigger.
    fn gated_hit(&self, h: &PixelHit, gx: u16) -> (r: Option<usize>)
        requires
            self.wf(),
            h.wf(),
            gx <= 1020,
        ensures
            r == (match tr_window(h.time(), self.line_tdc.last_time % ELECTRON_OVERFLOW, self.line_tdc.period, 0,
                (self.line_tdc.low_time + 1) as u64) {
                Some(k) => if k <= self.line_tdc.counter {
                    Some((gated_index(h.time(), self.line_tdc, k, self.settings) + gx) as usize)
                } else {
                    None
                },
                None => None,
            }),
    {
        let line = &self.line_tdc;
        let t = h.electron_time();
        let lt = line.last_time % ELECTRON_OVERFLOW;
        let back = match spim_check_if_in(t, lt, line.low_time, line.period) {
            Some(k) => k,
            None => return None,
        };
        if back > line.counter {
            return None;
        }
        let s = &self.settings;
        let xs = s.xspim_size;
        let ys = s.yspim_size;
        let row = ((line.counter - back) / (s.spimoverscany as u64)) % (ys as u64);
        let p = line.period;
        // distance from the edge `back` lines before the last one
        let diff: u64 = if t >= lt {
            proof {
                if back > 0 {
                    assert((back - 1) * p >= 0) by (nonlinear_arith)
                        requires
                            back >= 1,
                            p > 0,
                    ;
                }
            }
            assert(back == 0);
            t - lt
        } else {
            proof {
                assert(back * p < lt - t + p) by (nonlinear_arith)
                    requires
                        back > 0 ==> lt - (back - 1) * p > t,
                        back == 0 || back > 0,
                        p > 0,
                        lt > t,
                ;
            }
            back * p - (lt - t)
        };
        assert(diff <= line.low_time);
        assert((xs as u128) * (diff as u128) <= u128::MAX) by (nonlinear_arith)
            requires
                xs <= u64::MAX,
                diff <= u64::MAX,
        ;
        let prod = (xs as u128) * (diff as u128);
        let q = prod / (line.low_time as u128);
        proof {
            assert(q <= xs) by (nonlinear_arith)
                requires
                    prod as int == xs as int * diff as int,
                    q as int == prod as int / line.low_time as int,
                    diff <= line.low_time,
                    line.low_time > 0,
            ;
        }
        let c = q as u64;
        let column = if c < xs as u64 { c } else { (xs - 1) as u64 };
        proof {
            assert((row as int) * xs + column + 1 <= xs * ys) by (nonlinear_arith)
                requires
                    row < ys,
                    column < xs,
            ;
            assert(((row as int) * xs + column) * SPIM_PIXELS + SPIM_PIXELS <= xs * ys * SPIM_PIXELS) by (nonlinear_arith)
                requires
                    (row as int) * xs + column + 1 <= xs * ys,
            ;
        }
        proof {
            assert(diff == t - (lt - back * p));
            assert(q == (xs as int) * diff / (line.low_time as int));
            assert(column == min_int((xs as int) * (t - (lt - back * p)) / (line.low_time as int), xs - 1));
            assert(row == ((line.counter - back) / (s.spimoverscany as int)) % (ys as int));
            assert((row * xs + column) * SPIM_PIXELS == gated_index(t, *line, back as int, *s));
        }
        Some((row as usize * xs + column as usize) * SPIM_PIXELS + gx as usize)
    }

    /// Applies one event.
    pub fn process(&mut self, e: &Event)
        requires
            old(self).wf(),
            event_wf(*e),
        ensures
            final(self).wf(),
            final(self)@ == spim_step(old(self)@, *e),
    {
        proof {
            lemma_spim_step_wf(self@, *e);
        }
        match e {
            Event::ChipHeader(c) => {
                self.last_ci = *c;
            },
            Event::Pixel(h) => {
                {
                    let gx = h.global_x();
                    match self.ref_tdc.period() {
                        None => {
                            let begin = self.line_tdc.begin_frame % ELECTRON_OVERFLOW;
                            if let Some(i) = spim_detector(
                                h.electron_time(), begin, self.line_tdc.low_time, self.line_tdc.period, &self.settings) {
                                self.list.push(i + gx as usize);
                            }
                        },
                        Some(p) => {
                            let gate = tr_check_if_in(
                                h.electron_time(),
                                self.ref_tdc.time() % ELECTRON_OVERFLOW,
                                p,
                                self.settings.time_delay as u64,
                                self.settings.time_width as u64,
                            );
                            if gate.is_some() {
                                if let Some(i) = self.gated_hit(h, gx) {
                                    self.list.push(i);
                                }
                            }
                        },
                    }
                }
            },
            Event::Tdc(t) => {
                if t.kind == self.line_tdc.id {
                    self.line_tdc.upt(t.time_norm());
                } else if t.kind == self.ref_tdc.id() {
                    let time = t.time_norm();
                    let periodic = self.ref_tdc.period().is_some();
                    self.ref_tdc.upt(time);
                    if !periodic {
                        let begin = self.line_tdc.begin_frame % TDC_OVERFLOW;
                        if let Some(i) = spim_detector(time, begin, self.line_tdc.low_time, self.line_tdc.period, &self.settings) {
                            self.list.push(i + (SPIM_PIXELS - 1));
                        }
                    }
                }
            },
            Event::Other => {},
        }
    }

    /// Maps every packet of a buffer; returns the indexes gathered from it, if
    /// any.
    pub fn build_spim_data(&mut self, data: &[u8]) -> (r: Option<Output<usize>>)
        requires
            old(self).wf(),
        ensures
            final(self).wf(),
            ({
                let st = spim_fold(SpimState { list: Seq::empty(), ..old(self)@ }, data@, (data@.len() / 8) as nat);
                &&& final(self)@ == SpimState { list: Seq::empty(), ..st }
                &&& (st.list.len() > 0 <==> r is Some)
                &&& r matches Some(o) ==> o.data@ == st.list
            }),
    {
        self.list = Vec::new();
        let ghost start = self@;
        let n = data.len() / 8;
        let mut i: usize = 0;
        while i < n
            invariant
                n == data@.len() / 8,
                i <= n,
                self.wf(),
                start == (SpimState { list: Seq::empty(), ..old(self)@ }),
                self@ == spim_fold(start, data@, i as nat),
            decreases n - i,
        {
            let len = data.len();
            assert(8 * i + 8 <= len) by (nonlinear_arith)
                requires
                    i < n,
                    n == len / 8,
            ;
            let off = 8 * i;
            let e = decode_event(data, off, self.last_ci);
            proof {
                assert(data@.subrange(off as int, off + 8) == packet_at(data@, i as int));
                lemma_event_wf(packet_at(data@, i as int), self.last_ci);
            }
            self.process(&e);
            i = i + 1;
        }
        let list = self.list.split_off(0);
        assert(list@ =~= spim_fold(start, data@, n as nat).list);
        assert(self.list@ =~= Seq::<usize>::empty());
        let out = Output { data: list };
        if out.check() { Some(out) } else { None }
    }
}

} // verus!
