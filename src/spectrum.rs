//! Live 1D and 2D spectra: each hit counts in a cell of the frame, and each
//! edge of the frame TDC closes a frame.
use vstd::prelude::*;
use crate::counter::{all_max, append_to_array, cell, frame_inc, frame_total, le_value, lemma_frame_inc_frame, lemma_frame_inc_total, valid_depth};
use crate::packet::{Event, PixelHit, decode_event, eels_x, event_of, event_wf, lemma_event_wf, packet_at, ELECTRON_OVERFLOW};
use crate::settings::{Settings, DETECTOR_HEIGHT, DETECTOR_WIDTH};
use crate::tdc::{PeriodicTdcRef, TdcRef, periodic_upt, tdc_ref_upt, tr_check_if_in, tr_window};

verus! {

/// Bytes of the counters of one frame.
pub open spec fn frame_len(s: Settings) -> int {
    s.bytedepth * DETECTOR_WIDTH * (if s.bin { 1int } else { DETECTOR_HEIGHT as int })
}

/// An empty frame: zero counters, then a newline.
pub open spec fn zero_frame(s: Settings) -> Seq<u8> {
    Seq::new(frame_len(s) as nat, |i: int| 0u8).push(10u8)
}

/// The cell a hit at global column `x` and row `y` counts in.
pub open spec fn cell_of(s: Settings, x: int, y: int) -> int {
    if s.bin { x } else { x + DETECTOR_WIDTH * y }
}

/// What the builder holds, as plain values.
pub struct SpectrumState {
    pub settings: Settings,
    pub frame: Seq<u8>,
    pub frame_tdc: PeriodicTdcRef,
    pub ref_tdc: TdcRef,
    pub last_ci: u8,
}

/// Whether a hit passes the time gate: always when the reference has no period,
/// else when it falls in the window after the walked-back trigger edge. The
/// trigger time is taken in the range of the hit clock.
pub open spec fn hit_in_gate(st: SpectrumState, h: PixelHit) -> bool {
    match st.ref_tdc.spec_period() {
        None => true,
        Some(p) => tr_window(
            h.time(),
            st.ref_tdc.spec_time() % ELECTRON_OVERFLOW,
            p,
            st.settings.time_delay as u64,
            st.settings.time_width as u64,
        ) is Some,
    }
}

/// One event applied to a builder, and whether it closed a frame.
pub open spec fn spectrum_step(st: SpectrumState, e: Event) -> (SpectrumState, bool) {
    match e {
        Event::ChipHeader(c) => (SpectrumState { last_ci: c, ..st }, false),
        Event::Pixel(h) => {
            let gx = eels_x(h.chip, h.x as u64);
            if hit_in_gate(st, h) {
                (SpectrumState {
                    frame: frame_inc(st.frame, cell_of(st.settings, gx as int, h.y as int), st.settings.bytedepth as int),
                    ..st
                }, false)
            } else {
                (st, false)
            }
        },
        Event::Tdc(t) => if t.kind == st.frame_tdc.id {
            let (f, applied) = periodic_upt(st.frame_tdc, t.time());
            (SpectrumState { frame_tdc: f, ..st }, applied)
        } else if t.kind == st.ref_tdc.spec_id() {
            (SpectrumState { ref_tdc: tdc_ref_upt(st.ref_tdc, t.time()), ..st }, false)
        } else {
            (st, false)
        },
        Event::Other => (st, false),
    }
}

/// The builder after the first `n` packets of `d`, and whether a frame closed.
pub open spec fn spectrum_fold(st: SpectrumState, d: Seq<u8>, n: nat) -> (SpectrumState, bool)
    decreases n,
{
    if n == 0 {
        (st, false)
    } else {
        let (s1, h1) = spectrum_fold(st, d, (n - 1) as nat);
        let (s2, h2) = spectrum_step(s1, event_of(packet_at(d, n - 1), s1.last_ci));
        (s2, h1 || h2)
    }
}

/// Accumulates a spectrum frame.
pub struct SpectrumBuilder {
    pub settings: Settings,
    pub frame: Vec<u8>,
    pub frame_tdc: PeriodicTdcRef,
    pub ref_tdc: TdcRef,
    pub last_ci: u8,
}

impl View for SpectrumBuilder {
    type V = SpectrumState;

    open spec fn view(&self) -> SpectrumState {
        SpectrumState {
            settings: self.settings,
            frame: self.frame@,
            frame_tdc: self.frame_tdc,
            ref_tdc: self.ref_tdc,
            last_ci: self.last_ci,
        }
    }
}

/// The state invariant of a spectrum builder.
pub open spec fn state_wf(st: SpectrumState) -> bool {
    &&& valid_depth(st.settings.bytedepth)
    &&& st.frame.len() == frame_len(st.settings) + 1
    &&& st.frame[frame_len(st.settings)] == 10
    &&& st.frame_tdc.wf()
    &&& st.ref_tdc.wf()
}

/// Every cell of a hit on the strip lies inside the frame.
proof fn lemma_cell_in_frame(s: Settings, gx: int, y: int)
    requires
        valid_depth(s.bytedepth),
        0 <= gx <= 1020,
        0 <= y < 256,
    ensures
        0 <= cell_of(s, gx, y),
        cell_of(s, gx, y) * s.bytedepth + s.bytedepth <= frame_len(s),
{
    let bd = s.bytedepth as int;
    let c = cell_of(s, gx, y);
    assert(c * bd + bd <= frame_len(s)) by (nonlinear_arith)
        requires
            c == (if s.bin { gx } else { gx + 1024 * y }),
            0 <= gx <= 1020,
            0 <= y < 256,
            bd > 0,
            frame_len(s) == bd * 1024 * (if s.bin { 1int } else { 256 }),
    ;
}

proof fn lemma_step_wf(st: SpectrumState, e: Event)
    requires
        state_wf(st),
        event_wf(e),
    ensures
        state_wf(spectrum_step(st, e).0),
{
    if let Event::Pixel(h) = e {
        {
            let gx = eels_x(h.chip, h.x as u64);
            let bd = st.settings.bytedepth as int;
            let c = cell_of(st.settings, gx as int, h.y as int);
            lemma_cell_in_frame(st.settings, gx as int, h.y as int);
            lemma_frame_inc_frame(st.frame, c, bd);
            let f = frame_inc(st.frame, c, bd);
            assert(f[frame_len(st.settings)] == st.frame[frame_len(st.settings)]);
        }
    }
    if let Event::Tdc(t) = e {
        if t.kind == st.frame_tdc.id {
            assert(periodic_upt(st.frame_tdc, t.time()).0.wf());
        } else if t.kind == st.ref_tdc.spec_id() {
            assert(tdc_ref_upt(st.ref_tdc, t.time()).wf());
        }
    }
}

/// A new frame of zero counters followed by a newline.
pub fn new_frame(settings: &Settings) -> (f: Vec<u8>)
    requires
        valid_depth(settings.bytedepth),
    ensures
        f@ == zero_frame(*settings),
{
    let h: usize = if settings.bin { 1 } else { DETECTOR_HEIGHT };
    let n = settings.bytedepth * DETECTOR_WIDTH * h;
    let mut f = vec![0u8; n];
    f.push(10);
    assert(f@ =~= zero_frame(*settings));
    f
}

impl SpectrumBuilder {
    pub open spec fn wf(&self) -> bool {
        state_wf(self@)
    }

    /// A builder with an empty frame.
    pub fn new(settings: Settings, frame_tdc: PeriodicTdcRef, ref_tdc: TdcRef) -> (b: SpectrumBuilder)
        requires
            valid_depth(settings.bytedepth),
            frame_tdc.wf(),
            ref_tdc.wf(),
        ensures
            b.wf(),
            b@.frame == zero_frame(settings),
            b.settings == settings,
            b.frame_tdc == frame_tdc,
            b.ref_tdc == ref_tdc,
            b.last_ci == 0,
    {
        let frame = new_frame(&settings);
        SpectrumBuilder { settings, frame, frame_tdc, ref_tdc, last_ci: 0 }
    }

    /// Applies one event; returns whether it closed a frame.
    pub fn process(&mut self, e: &Event) -> (closed: bool)
        requires
            old(self).wf(),
            event_wf(*e),
        ensures
            final(self).wf(),
            (final(self)@, closed) == spectrum_step(old(self)@, *e),
    {
        proof {
            lemma_step_wf(self@, *e);
        }
        match e {
            Event::ChipHeader(c) => {
                self.last_ci = *c;
                false
            },
            Event::Pixel(h) => {
                {
                    {
                        let gx = h.global_x();
                        let pass = match self.ref_tdc.period() {
                            None => true,
                            Some(p) => {
                                let r = tr_check_if_in(
                                    h.electron_time(),
                                    self.ref_tdc.time() % ELECTRON_OVERFLOW,
                                    p,
                                    self.settings.time_delay as u64,
                                    self.settings.time_width as u64,
                                );
                                r.is_some()
                            },
                        };
                        if pass {
                            proof {
                                lemma_cell_in_frame(self.settings, gx as int, h.y as int);
                            }
                            let cell = if self.settings.bin {
                                gx as usize
                            } else {
                                gx as usize + DETECTOR_WIDTH * (h.y as usize)
                            };
                            append_to_array(&mut self.frame, cell, self.settings.bytedepth);
                        }
                        false
                    }
                }
            },
            Event::Tdc(t) => {
                if t.kind == self.frame_tdc.id {
                    self.frame_tdc.upt(t.time_norm())
                } else if t.kind == self.ref_tdc.id() {
                    self.ref_tdc.upt(t.time_norm());
                    false
                } else {
                    false
                }
            },
            Event::Other => false,
        }
    }

    /// Applies every packet of a buffer; returns whether a frame closed.
    pub fn build_data(&mut self, data: &[u8]) -> (closed: bool)
        requires
            old(self).wf(),
        ensures
            final(self).wf(),
            (final(self)@, closed) == spectrum_fold(old(self)@, data@, (data@.len() / 8) as nat),
    {
        let n = data.len() / 8;
        let mut has = false;
        let mut i: usize = 0;
        while i < n
            invariant
                n == data@.len() / 8,
                i <= n,
                self.wf(),
                (self@, has) == spectrum_fold(old(self)@, data@, i as nat),
            decreases n - i,
        {
            let len = data.len();
            assert(8 * i + 8 <= len) by (nonlinear_arith)
                requires
                    i < n,
                    n == len / 8,
            ;
            let off = 8 * i;
            let e = decode_event(data, off, self.last_ci);
            proof {
                assert(data@.subrange(off as int, off + 8) == packet_at(data@, i as int));
                lemma_event_wf(packet_at(data@, i as int), self.last_ci);
            }
            let closed = self.process(&e);
            has = has || closed;
            i = i + 1;
        }
        has
    }

    /// Hands out the frame, counters then newline; without cumulation the
    /// builder starts again from an empty frame.
    pub fn take_frame(&mut self) -> (f: Vec<u8>)
        requires
            old(self).wf(),
        ensures
            final(self).wf(),
            f@ == old(self)@.frame,
            final(self)@ == (SpectrumState {
                frame: if old(self).settings.cumul { old(self)@.frame } else { zero_frame(old(self).settings) },
                ..old(self)@
            }),
    {
        let f = self.frame.clone();
        assert(f@ =~= self.frame@);
        if !self.settings.cumul {
            self.frame = new_frame(&self.settings);
        }
        f
    }
}

/// Cells of a frame.
pub open spec fn frame_cells(s: Settings) -> int {
    DETECTOR_WIDTH * (if s.bin { 1int } else { DETECTOR_HEIGHT as int })
}

/// Whether an event is a hit on the strip, inside the time window, that lands
/// on a counter that is not full.
pub open spec fn counts_hit(st: SpectrumState, e: Event) -> bool {
    match e {
        Event::Pixel(h) => hit_in_gate(st, h) && !all_max(
            cell(st.frame, cell_of(st.settings, eels_x(h.chip, h.x as u64) as int, h.y as int), st.settings.bytedepth as int)),
        _ => false,
    }
}

/// How many of the first `n` packets of `d` are counted hits.
pub open spec fn counted_hits(st: SpectrumState, d: Seq<u8>, n: nat) -> int
    decreases n,
{
    if n == 0 {
        0
    } else {
        let s1 = spectrum_fold(st, d, (n - 1) as nat).0;
        counted_hits(st, d, (n - 1) as nat)
            + (if counts_hit(s1, event_of(packet_at(d, n - 1), s1.last_ci)) { 1int } else { 0 })
    }
}

proof fn lemma_frame_len_cells(s: Settings)
    ensures
        frame_len(s) == s.bytedepth * frame_cells(s),
{
    let h = if s.bin { 1int } else { DETECTOR_HEIGHT as int };
    assert(s.bytedepth * DETECTOR_WIDTH * h == s.bytedepth * (DETECTOR_WIDTH * h)) by (nonlinear_arith);
}

proof fn lemma_fold_wf(st: SpectrumState, d: Seq<u8>, n: nat)
    requires
        state_wf(st),
        n <= d.len() / 8,
    ensures
        state_wf(spectrum_fold(st, d, n).0),
        spectrum_fold(st, d, n).0.settings == st.settings,
    decreases n,
{
    if n > 0 {
        lemma_fold_wf(st, d, (n - 1) as nat);
        let s1 = spectrum_fold(st, d, (n - 1) as nat).0;
        assert(8 * (n - 1) + 8 <= d.len()) by (nonlinear_arith)
            requires
                n <= d.len() / 8,
                n > 0,
        ;
        lemma_event_wf(packet_at(d, n - 1), s1.last_ci);
        lemma_step_wf(s1, event_of(packet_at(d, n - 1), s1.last_ci));
    }
}

proof fn lemma_zero_counter(s: Seq<u8>)
    requires
        forall|i: int| 0 <= i < s.len() ==> s[i] == 0,
    ensures
        le_value(s) == 0,
    decreases s.len(),
{
    if s.len() > 0 {
        lemma_zero_counter(s.drop_first());
    }
}

proof fn lemma_zero_total(s: Settings, n: int)
    requires
        valid_depth(s.bytedepth),
        0 <= n <= frame_cells(s),
    ensures
        frame_total(zero_frame(s), s.bytedepth as int, n) == 0,
    decreases n,
{
    if n > 0 {
        lemma_zero_total(s, n - 1);
        lemma_frame_len_cells(s);
        let bd = s.bytedepth as int;
        assert((n - 1) * bd + bd <= frame_len(s)) by (nonlinear_arith)
            requires
                n <= frame_cells(s),
                bd > 0,
                frame_len(s) == bd * frame_cells(s),
        ;
        assert(0 <= (n - 1) * bd) by (nonlinear_arith)
            requires
                n >= 1,
                bd > 0,
        ;
        lemma_zero_counter(cell(zero_frame(s), n - 1, bd));
    }
}

/// The counters of a frame add up to what they held before plus the number of
/// hits that landed in the time window on a counter that was not full: each
/// such hit counts once, every other packet counts nothing.
pub proof fn lemma_frame_sum_counts_hits(st: SpectrumState, d: Seq<u8>, n: nat)
    requires
        state_wf(st),
        n <= d.len() / 8,
    ensures
        frame_total(spectrum_fold(st, d, n).0.frame, st.settings.bytedepth as int, frame_cells(st.settings))
            == frame_total(st.frame, st.settings.bytedepth as int, frame_cells(st.settings)) + counted_hits(st, d, n),
    decreases n,
{
    if n > 0 {
        lemma_frame_sum_counts_hits(st, d, (n - 1) as nat);
        lemma_fold_wf(st, d, (n - 1) as nat);
        let s1 = spectrum_fold(st, d, (n - 1) as nat).0;
        let e = event_of(packet_at(d, n - 1), s1.last_ci);
        let bd = st.settings.bytedepth as int;
        if let Event::Pixel(h) = e {
            {
                let gx = eels_x(h.chip, h.x as u64);
                if hit_in_gate(s1, h) {
                    let c = cell_of(s1.settings, gx as int, h.y as int);
                    lemma_cell_in_frame(s1.settings, gx as int, h.y as int);
                    lemma_frame_len_cells(s1.settings);
                    assert(c < frame_cells(s1.settings)) by (nonlinear_arith)
                        requires
                            c * bd + bd <= frame_len(s1.settings),
                            bd > 0,
                            frame_len(s1.settings) == bd * frame_cells(s1.settings),
                    ;
                    assert(frame_cells(s1.settings) * bd <= s1.frame.len()) by (nonlinear_arith)
                        requires
                            s1.frame.len() == frame_len(s1.settings) + 1,
                            frame_len(s1.settings) == bd * frame_cells(s1.settings),
                    ;
                    lemma_frame_inc_total(s1.frame, c, bd, frame_cells(s1.settings));
                }
            }
        }
    }
}

/// Without cumulation a frame starts empty, so its counters add up to the
/// number of hits counted into it.
pub proof fn lemma_fresh_frame_sum(st: SpectrumState, d: Seq<u8>, n: nat)
    requires
        state_wf(st),
        st.frame == zero_frame(st.settings),
        n <= d.len() / 8,
    ensures
        frame_total(spectrum_fold(st, d, n).0.frame, st.settings.bytedepth as int, frame_cells(st.settings))
            == counted_hits(st, d, n),
{
    lemma_zero_total(st.settings, frame_cells(st.settings));
    lemma_frame_sum_counts_hits(st, d, n);
}

/// The header of a frame announces the size of the counters that follow it:
/// the frame is those counters and one newline.
pub proof fn lemma_header_announces_frame(b: SpectrumBuilder, time: u64, frame: u64)
    requires
        b.wf(),
    ensures
        header_bytes(b.settings, time, frame) == time_key() + seconds_text(time as nat) + frame_key()
            + decimal(frame as nat) + size_key() + decimal((b.frame@.len() - 1) as nat) + depth_key()
            + decimal((b.settings.bytedepth * 8) as nat) + width_key() + decimal(DETECTOR_WIDTH as nat) + height_key()
            + decimal((if b.settings.bin { 1int } else { DETECTOR_HEIGHT as int }) as nat) + header_end(),
        b.frame@.last() == 10,
{
}

/// A closed frame of a 2D live spectrum with two bytes per counter holds
/// 2 * 1024 * 256 bytes of counters and then one newline.
pub proof fn lemma_live2d_frame_layout(b: SpectrumBuilder)
    requires
        b.wf(),
        !b.settings.bin,
        b.settings.bytedepth == 2,
    ensures
        b.frame@.len() == 2 * 1024 * 256 + 1,
        b.frame@.last() == 10,
{
}

/// The decimal digits of `n`.
pub open spec fn decimal(n: nat) -> Seq<u8>
    decreases n,
{
    if n < 10 {
        seq![(48 + n) as u8]
    } else {
        decimal(n / 10).push((48 + n % 10) as u8)
    }
}

/// The last `k` decimal digits of `n`, with leading zeros.
pub open spec fn padded(n: nat, k: nat) -> Seq<u8>
    decreases k,
{
    if k == 0 {
        Seq::empty()
    } else {
        padded(n / 10, (k - 1) as nat).push((48 + n % 10) as u8)
    }
}

/// A time given in ticks of 1.5625 ns, written in seconds with thirteen
/// decimals, which is exact.
pub open spec fn seconds_text(ticks: nat) -> Seq<u8> {
    decimal(ticks * 15625 / 10_000_000_000_000) + seq![46u8] + padded(ticks * 15625 % 10_000_000_000_000, 13)
}

fn push_all(out: &mut Vec<u8>, piece: &[u8])
    ensures
        final(out)@ == old(out)@ + piece@,
{
    let mut i: usize = 0;
    while i < piece.len()
        invariant
            i <= piece@.len(),
            out@ == old(out)@ + piece@.subrange(0, i as int),
        decreases piece@.len() - i,
    {
        out.push(piece[i]);
        i = i + 1;
        assert(out@ =~= old(out)@ + piece@.subrange(0, i as int));
    }
    assert(piece@.subrange(0, piece@.len() as int) =~= piece@);
}

/// Appends the decimal digits of `n`.
pub fn push_decimal(out: &mut Vec<u8>, n: u128)
    ensures
        final(out)@ == old(out)@ + decimal(n as nat),
    decreases n,
{
    if n >= 10 {
        push_decimal(out, n / 10);
    }
    out.push((48 + n % 10) as u8);
    assert(final(out)@ =~= old(out)@ + decimal(n as nat));
}

/// Appends the last `k` decimal digits of `n`, with leading zeros.
pub fn push_padded(out: &mut Vec<u8>, n: u128, k: u32)
    ensures
        final(out)@ == old(out)@ + padded(n as nat, k as nat),
    decreases k,
{
    if k > 0 {
        push_padded(out, n / 10, k - 1);
        out.push((48 + n % 10) as u8);
    }
    assert(final(out)@ =~= old(out)@ + padded(n as nat, k as nat));
}

/// The bytes of `{"timeAtFrame":`.
pub open spec fn time_key() -> Seq<u8> {
    seq![123, 34, 116, 105, 109, 101, 65, 116, 70, 114, 97, 109, 101, 34, 58]
}

fn push_time_key(out: &mut Vec<u8>)
    ensures
        final(out)@ == old(out)@ + time_key(),
{
    let piece: [u8; 15] = [123, 34, 116, 105, 109, 101, 65, 116, 70, 114, 97, 109, 101, 34, 58];
    assert(piece@ =~= time_key());
    push_all(out, &piece);
}

/// The bytes of `,"frameNumber":`.
pub open spec fn frame_key() -> Seq<u8> {
    seq![44, 34, 102, 114, 97, 109, 101, 78, 117, 109, 98, 101, 114, 34, 58]
}

fn push_frame_key(out: &mut Vec<u8>)
    ensures
        final(out)@ == old(out)@ + frame_key(),
{
    let piece: [u8; 15] = [44, 34, 102, 114, 97, 109, 101, 78, 117, 109, 98, 101, 114, 34, 58];
    assert(piece@ =~= frame_key());
    push_all(out, &piece);
}

/// The bytes of `,"measurementID:"Null","dataSize":`.
pub open spec fn size_key() -> Seq<u8> {
    seq![44, 34, 109, 101, 97, 115, 117, 114, 101, 109, 101, 110, 116, 73, 68, 58, 34, 78, 117, 108, 108, 34, 44, 34, 100, 97, 116, 97, 83, 105, 122, 101, 34, 58]
}

fn push_size_key(out: &mut Vec<u8>)
    ensures
        final(out)@ == old(out)@ + size_key(),
{
    let piece: [u8; 34] = [44, 34, 109, 101, 97, 115, 117, 114, 101, 109, 101, 110, 116, 73, 68, 58, 34, 78, 117, 108, 108, 34, 44, 34, 100, 97, 116, 97, 83, 105, 122, 101, 34, 58];
    assert(piece@ =~= size_key());
    push_all(out, &piece);
}

/// The bytes of `,"bitDepth":`.
pub open spec fn depth_key() -> Seq<u8> {
    seq![44, 34, 98, 105, 116, 68, 101, 112, 116, 104, 34, 58]
}

fn push_depth_key(out: &mut Vec<u8>)
    ensures
        final(out)@ == old(out)@ + depth_key(),
{
    let piece: [u8; 12] = [44, 34, 98, 105, 116, 68, 101, 112, 116, 104, 34, 58];
    assert(piece@ =~= depth_key());
    push_all(out, &piece);
}

/// The bytes of `,"width":`.
pub open spec fn width_key() -> Seq<u8> {
    seq![44, 34, 119, 105, 100, 116, 104, 34, 58]
}

fn push_width_key(out: &mut Vec<u8>)
    ensures
        final(out)@ == old(out)@ + width_key(),
{
    let piece: [u8; 9] = [44, 34, 119, 105, 100, 116, 104, 34, 58];
    assert(piece@ =~= width_key());
    push_all(out, &piece);
}

/// The bytes of `,"height":`.
pub open spec fn height_key() -> Seq<u8> {
    seq![44, 34, 104, 101, 105, 103, 104, 116, 34, 58]
}

fn push_height_key(out: &mut Vec<u8>)
    ensures
        final(out)@ == old(out)@ + height_key(),
{
    let piece: [u8; 10] = [44, 34, 104, 101, 105, 103, 104, 116, 34, 58];
    assert(piece@ =~= height_key());
    push_all(out, &piece);
}

/// The bytes of `}\n`.
pub open spec fn header_end() -> Seq<u8> {
    seq![125, 10]
}

fn push_header_end(out: &mut Vec<u8>)
    ensures
        final(out)@ == old(out)@ + header_end(),
{
    let piece: [u8; 2] = [125, 10];
    assert(piece@ =~= header_end());
    push_all(out, &piece);
}

/// The header line sent before each frame.
pub open spec fn header_bytes(s: Settings, time: u64, frame: u64) -> Seq<u8> {
    time_key() + seconds_text(time as nat) + frame_key() + decimal(frame as nat) + size_key()
        + decimal(frame_len(s) as nat) + depth_key() + decimal((s.bytedepth * 8) as nat) + width_key()
        + decimal(DETECTOR_WIDTH as nat) + height_key() + decimal((if s.bin { 1int } else { DETECTOR_HEIGHT as int }) as nat)
        + header_end()
}

/// The header line for the frame closed by the last edge of `tdc`: time of that
/// edge in seconds, frame number, size of the counters, bits per counter and
/// the frame shape.
pub fn create_header(set: &Settings, tdc: &PeriodicTdcRef) -> (h: Vec<u8>)
    requires
        valid_depth(set.bytedepth),
    ensures
        h@ == header_bytes(*set, tdc.last_time, tdc.counter),
{
    let mut h: Vec<u8> = Vec::new();
    push_time_key(&mut h);
    let scaled = (tdc.last_time as u128) * 15625;
    push_decimal(&mut h, scaled / 10_000_000_000_000);
    h.push(46);
    push_padded(&mut h, scaled % 10_000_000_000_000, 13);
    push_frame_key(&mut h);
    push_decimal(&mut h, tdc.counter as u128);
    push_size_key(&mut h);
    let height: usize = if set.bin { 1 } else { DETECTOR_HEIGHT };
    push_decimal(&mut h, (set.bytedepth * DETECTOR_WIDTH * height) as u128);
    push_depth_key(&mut h);
    push_decimal(&mut h, (set.bytedepth * 8) as u128);
    push_width_key(&mut h);
    push_decimal(&mut h, DETECTOR_WIDTH as u128);
    push_height_key(&mut h);
    push_decimal(&mut h, height as u128);
    push_header_end(&mut h);
    proof {
        assert(h@ =~= header_bytes(*set, tdc.last_time, tdc.counter));
    }
    h
}

} // verus!
