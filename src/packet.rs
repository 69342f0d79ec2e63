//! The 8-byte wire format of the detector.
use vstd::prelude::*;

verus! {

/// Packet id of a pixel hit.
pub const PIXEL_ID: u8 = 11;
/// Packet id of a TDC edge.
pub const TDC_ID: u8 = 6;

/// The little-endian 64-bit word held by eight bytes.
pub open spec fn word_of(b: Seq<u8>) -> u64 {
    (b[0] as u64) | ((b[1] as u64) << 8u64) | ((b[2] as u64) << 16u64) | ((b[3] as u64) << 24u64)
        | ((b[4] as u64) << 32u64) | ((b[5] as u64) << 40u64) | ((b[6] as u64) << 48u64)
        | ((b[7] as u64) << 56u64)
}

/// The eight bytes of a word, lowest first.
pub open spec fn bytes_of(w: u64) -> Seq<u8> {
    seq![(w & 0xff) as u8, ((w >> 8u64) & 0xff) as u8, ((w >> 16u64) & 0xff) as u8,
         ((w >> 24u64) & 0xff) as u8, ((w >> 32u64) & 0xff) as u8, ((w >> 40u64) & 0xff) as u8,
         ((w >> 48u64) & 0xff) as u8, ((w >> 56u64) & 0xff) as u8]
}

pub open spec fn id_of(w: u64) -> u64 { (w >> 60u64) & 0xf }
pub open spec fn raw_x_of(w: u64) -> u64 { ((w >> 52u64) & 0xfe) | (((w >> 44u64) & 0x7) >> 2u64) }
pub open spec fn raw_y_of(w: u64) -> u64 { ((w >> 45u64) & 0xfc) | ((w >> 44u64) & 0x3) }
pub open spec fn toa_of(w: u64) -> u64 { (w >> 30u64) & 0x3fff }
pub open spec fn tot_of(w: u64) -> u64 { (w >> 20u64) & 0x3ff }
pub open spec fn ftoa_of(w: u64) -> u64 { (w >> 16u64) & 0xf }
pub open spec fn spidr_of(w: u64) -> u64 { w & 0xffff }
pub open spec fn tdc_type_of(w: u64) -> u64 { (w >> 56u64) & 0xf }
pub open spec fn tdc_counter_of(w: u64) -> u64 { (w >> 44u64) & 0xfff }
pub open spec fn tdc_coarse_of(w: u64) -> u64 { (w >> 9u64) & 0x7_ffff_ffff }
pub open spec fn tdc_fine_of(w: u64) -> u64 { (w >> 5u64) & 0xf }

/// The word of a pixel hit with the given fields.
pub open spec fn pixel_word(x: u64, y: u64, toa: u64, ftoa: u64, tot: u64, spidr: u64) -> u64 {
    (11u64 << 60u64) | ((x >> 1u64) << 53u64) | ((y >> 2u64) << 47u64)
        | ((((x & 1) << 2u64) | (y & 3)) << 44u64) | (toa << 30u64) | (tot << 20u64)
        | (ftoa << 16u64) | spidr
}

/// Whether the first four bytes spell "TPX3", which opens a chip header.
pub open spec fn is_header(b: Seq<u8>) -> bool {
    b[0] == 84 && b[1] == 80 && b[2] == 88 && b[3] == 51
}

/// Global column of a hit on the 1x4 EELS strip: each chip is mirrored and
/// placed at its slot, 255 columns apart as the detector's mosaic table has
/// it; a chip outside the table keeps its own column.
pub open spec fn eels_x(chip: u8, x: u64) -> u64 {
    if chip == 0 {
        (255 - x) as u64
    } else if chip == 1 {
        (1020 - x) as u64
    } else if chip == 2 {
        (765 - x) as u64
    } else if chip == 3 {
        (510 - x) as u64
    } else {
        x
    }
}

/// Time of a hit in ticks of 1.5625 ns: SPIDR counts 25 * 16384 ns = 2^18 ticks,
/// ToA counts 25 ns = 16 ticks and the fine ToA counts down in single ticks.
pub open spec fn electron_ticks(spidr: u64, toa: u64, ftoa: u64) -> u64 {
    (spidr * 262144 + toa * 16 + (15 - ftoa)) as u64
}

/// Time of a TDC edge in units of 3.125 ns / 12 (about 260 ps): the coarse
/// counter runs at 320 MHz and the fine counter splits it in 12.
pub open spec fn tdc_fine_ticks(coarse: u64, fine: u64) -> u64 {
    (coarse * 12 + fine) as u64
}

/// Hit times wrap after 2^16 SPIDR periods of 2^18 ticks.
pub const ELECTRON_OVERFLOW: u64 = 17_179_869_184;
/// TDC times wrap after 2^35 coarse periods, that is 2^36 ticks of 1.5625 ns.
pub const TDC_OVERFLOW: u64 = 68_719_476_736;

/// The word held by the eight bytes of `b` from `off`.
pub fn word_from_bytes(b: &[u8], off: usize) -> (w: u64)
    requires
        off + 8 <= b@.len(),
    ensures
        w == word_of(b@.subrange(off as int, off + 8)),
{
    (b[off] as u64) | ((b[off + 1] as u64) << 8u64) | ((b[off + 2] as u64) << 16u64) | ((b[off + 3] as u64) << 24u64)
        | ((b[off + 4] as u64) << 32u64) | ((b[off + 5] as u64) << 40u64) | ((b[off + 6] as u64) << 48u64)
        | ((b[off + 7] as u64) << 56u64)
}

/// The eight bytes of a word, lowest first.
pub fn word_to_bytes(w: u64) -> (r: [u8; 8])
    ensures
        r@ == bytes_of(w),
{
    let r = [
        (w & 0xff) as u8,
        ((w >> 8u64) & 0xff) as u8,
        ((w >> 16u64) & 0xff) as u8,
        ((w >> 24u64) & 0xff) as u8,
        ((w >> 32u64) & 0xff) as u8,
        ((w >> 40u64) & 0xff) as u8,
        ((w >> 48u64) & 0xff) as u8,
        ((w >> 56u64) & 0xff) as u8,
    ];
    assert(r@ =~= bytes_of(w));
    r
}

/// Splitting a word into bytes and joining them again gives the word back, and
/// joining eight bytes then splitting gives the bytes back.
pub proof fn lemma_bytes_word(b: Seq<u8>)
    requires
        b.len() == 8,
    ensures
        bytes_of(word_of(b)) == b,
{
    let (b0, b1, b2, b3, b4, b5, b6, b7) = (b[0], b[1], b[2], b[3], b[4], b[5], b[6], b[7]);
    let w = word_of(b);
    assert(w == (b0 as u64) | ((b1 as u64) << 8u64) | ((b2 as u64) << 16u64) | ((b3 as u64) << 24u64)
        | ((b4 as u64) << 32u64) | ((b5 as u64) << 40u64) | ((b6 as u64) << 48u64)
        | ((b7 as u64) << 56u64));
    assert((w & 0xff) as u8 == b0 && ((w >> 8u64) & 0xff) as u8 == b1
        && ((w >> 16u64) & 0xff) as u8 == b2 && ((w >> 24u64) & 0xff) as u8 == b3
        && ((w >> 32u64) & 0xff) as u8 == b4 && ((w >> 40u64) & 0xff) as u8 == b5
        && ((w >> 48u64) & 0xff) as u8 == b6 && ((w >> 56u64) & 0xff) as u8 == b7) by (bit_vector)
        requires
            w == (b0 as u64) | ((b1 as u64) << 8u64) | ((b2 as u64) << 16u64) | ((b3 as u64) << 24u64)
                | ((b4 as u64) << 32u64) | ((b5 as u64) << 40u64) | ((b6 as u64) << 48u64)
                | ((b7 as u64) << 56u64),
    ;
    assert(bytes_of(w) =~= b);
}

/// The fields of a pixel hit, with the column local to its chip.
#[derive(Debug, Clone, Copy, PartialEq, Eq, Structural)]
pub struct PixelHit {
    pub chip: u8,
    pub x: u8,
    pub y: u8,
    pub toa: u16,
    pub ftoa: u8,
    pub tot: u16,
    pub spidr: u16,
}

/// The fields of a TDC edge.
#[derive(Debug, Clone, Copy, PartialEq, Eq, Structural)]
pub struct TdcEdge {
    pub kind: u8,
    pub counter: u16,
    pub coarse: u64,
    pub fine: u8,
}

/// One decoded packet.
#[derive(Debug, Clone, Copy, PartialEq, Eq, Structural)]
pub enum Event {
    ChipHeader(u8),
    Pixel(PixelHit),
    Tdc(TdcEdge),
    Other,
}

impl TdcEdge {
    pub open spec fn wf(self) -> bool {
        self.coarse < 0x8_0000_0000 && self.fine < 16
    }

    /// Time of the edge in ticks of 1.5625 ns, reduced to the TDC clock range.
    pub open spec fn time(self) -> u64 {
        (tdc_fine_ticks(self.coarse, self.fine as u64) / 6) % TDC_OVERFLOW
    }

    /// Time of the edge in ticks of 1.5625 ns, reduced to the TDC clock range.
    pub fn time_norm(&self) -> (t: u64)
        requires
            self.wf(),
        ensures
            t == self.time(),
            t < TDC_OVERFLOW,
    {
        (self.coarse * 12 + self.fine as u64) / 6 % TDC_OVERFLOW
    }
}

/// Whether the fields of an event are in the ranges of the wire format.
pub open spec fn event_wf(e: Event) -> bool {
    match e {
        Event::Pixel(h) => h.wf(),
        Event::Tdc(t) => t.wf(),
        _ => true,
    }
}

/// Decoded events always have their fields in range.
pub proof fn lemma_event_wf(b: Seq<u8>, chip: u8)
    requires
        b.len() == 8,
    ensures
        event_wf(event_of(b, chip)),
{
    let w = word_of(b);
    assert(toa_of(w) < 0x4000 && ftoa_of(w) < 16 && tot_of(w) < 0x400 && tdc_coarse_of(w) < 0x8_0000_0000
        && tdc_fine_of(w) < 16) by (bit_vector);
}

impl PixelHit {
    pub open spec fn wf(self) -> bool {
        self.toa < 0x4000 && self.ftoa < 16 && self.tot < 0x400
    }

    pub open spec fn word(self) -> u64 {
        pixel_word(self.x as u64, self.y as u64, self.toa as u64, self.ftoa as u64, self.tot as u64,
            self.spidr as u64)
    }

    /// Time of the hit in ticks of 1.5625 ns.
    pub open spec fn time(self) -> u64 {
        electron_ticks(self.spidr as u64, self.toa as u64, self.ftoa as u64)
    }

    /// Time of the hit in ticks of 1.5625 ns, below `ELECTRON_OVERFLOW`.
    pub fn electron_time(&self) -> (t: u64)
        requires
            self.wf(),
        ensures
            t == self.time(),
            t < ELECTRON_OVERFLOW,
    {
        self.spidr as u64 * 262144 + self.toa as u64 * 16 + (15 - self.ftoa as u64)
    }

    /// Column on the 1x4 EELS strip.
    pub fn global_x(&self) -> (r: u16)
        ensures
            r == eels_x(self.chip, self.x as u64),
            r <= 1020,
    {
        let x = self.x as u16;
        if self.chip == 0 {
            255 - x
        } else if self.chip == 1 {
            1020 - x
        } else if self.chip == 2 {
            765 - x
        } else if self.chip == 3 {
            510 - x
        } else {
            x
        }
    }
}

impl PixelHit {
    /// Column of a single-chip detector: the chip's own column, for chip 0.
    pub fn diffraction_x(&self) -> (r: Option<u16>)
        ensures
            r == (if self.chip == 0 { Some(self.x as u16) } else { None::<u16> }),
    {
        if self.chip == 0 { Some(self.x as u16) } else { None }
    }
}

/// The pixel hit held by a word of id 11.
pub open spec fn pixel_of(w: u64, chip: u8) -> PixelHit {
    PixelHit {
        chip,
        x: raw_x_of(w) as u8,
        y: raw_y_of(w) as u8,
        toa: toa_of(w) as u16,
        ftoa: ftoa_of(w) as u8,
        tot: tot_of(w) as u16,
        spidr: spidr_of(w) as u16,
    }
}

/// The TDC edge held by a word of id 6.
pub open spec fn tdc_of(w: u64) -> TdcEdge {
    TdcEdge {
        kind: tdc_type_of(w) as u8,
        counter: tdc_counter_of(w) as u16,
        coarse: tdc_coarse_of(w),
        fine: tdc_fine_of(w) as u8,
    }
}

/// What eight bytes decode to while `chip` is the current chip.
pub open spec fn event_of(b: Seq<u8>, chip: u8) -> Event {
    if is_header(b) {
        Event::ChipHeader(b[4])
    } else if id_of(word_of(b)) == 11 {
        Event::Pixel(pixel_of(word_of(b), chip))
    } else if id_of(word_of(b)) == 6 {
        Event::Tdc(tdc_of(word_of(b)))
    } else {
        Event::Other
    }
}

/// Packet `i` of a byte stream.
pub open spec fn packet_at(d: Seq<u8>, i: int) -> Seq<u8> {
    d.subrange(8 * i, 8 * i + 8)
}

/// The chip that is current after the first `n` packets of `d`, starting from `chip`.
pub open spec fn chip_after(d: Seq<u8>, chip: u8, n: nat) -> u8
    decreases n,
{
    if n == 0 {
        chip
    } else if is_header(packet_at(d, n - 1)) {
        packet_at(d, n - 1)[4]
    } else {
        chip_after(d, chip, (n - 1) as nat)
    }
}

/// One packet: its word and the chip it was read under.
pub struct Packet {
    pub chip_index: u8,
    pub data: u64,
}

impl Packet {
    /// The packet held by the eight bytes of `b` from `off`.
    pub fn from_bytes(b: &[u8], off: usize, chip_index: u8) -> (p: Packet)
        requires
            off + 8 <= b@.len(),
        ensures
            p.data == word_of(b@.subrange(off as int, off + 8)),
            p.chip_index == chip_index,
    {
        Packet { chip_index, data: word_from_bytes(b, off) }
    }

    pub fn id(&self) -> (r: u8)
        ensures
            r as u64 == id_of(self.data),
    {
        let d = self.data;
        let r = (d >> 60u64) & 0xf;
        assert(r < 16) by (bit_vector)
            requires
                r == (d >> 60u64) & 0xf,
        ;
        r as u8
    }

    /// Column within the chip, mirrored.
    pub fn x_unmod(&self) -> (r: usize)
        ensures
            r == 255 - raw_x_of(self.data),
    {
        let d = self.data;
        let raw = ((d >> 52u64) & 0xfe) | (((d >> 44u64) & 0x7) >> 2u64);
        assert(raw < 256) by (bit_vector)
            requires
                raw == ((d >> 52u64) & 0xfe) | (((d >> 44u64) & 0x7) >> 2u64),
        ;
        (255 - raw) as usize
    }

    /// Column on the 1x4 EELS strip.
    pub fn x(&self) -> (r: usize)
        ensures
            r == eels_x(self.chip_index, raw_x_of(self.data)),
            r <= 1020,
    {
        let d = self.data;
        let raw = ((d >> 52u64) & 0xfe) | (((d >> 44u64) & 0x7) >> 2u64);
        assert(raw < 256) by (bit_vector)
            requires
                raw == ((d >> 52u64) & 0xfe) | (((d >> 44u64) & 0x7) >> 2u64),
        ;
        let raw = raw as usize;
        if self.chip_index == 0 {
            255 - raw
        } else if self.chip_index == 1 {
            1020 - raw
        } else if self.chip_index == 2 {
            765 - raw
        } else if self.chip_index == 3 {
            510 - raw
        } else {
            raw
        }
    }

    /// Row of the hit.
    pub fn y(&self) -> (r: usize)
        ensures
            r == raw_y_of(self.data),
            r < 256,
    {
        let d = self.data;
        let raw = ((d >> 45u64) & 0xfc) | ((d >> 44u64) & 0x3);
        assert(raw < 256) by (bit_vector)
            requires
                raw == ((d >> 45u64) & 0xfc) | ((d >> 44u64) & 0x3),
        ;
        raw as usize
    }

    pub fn spidr(&self) -> (r: u16)
        ensures
            r as u64 == spidr_of(self.data),
    {
        let d = self.data;
        let r = d & 0xffff;
        assert(r < 0x10000) by (bit_vector)
            requires
                r == d & 0xffff,
        ;
        r as u16
    }

    pub fn ftoa(&self) -> (r: u8)
        ensures
            r as u64 == ftoa_of(self.data),
            r < 16,
    {
        let d = self.data;
        let r = (d >> 16u64) & 0xf;
        assert(r < 16) by (bit_vector)
            requires
                r == (d >> 16u64) & 0xf,
        ;
        r as u8
    }

    pub fn tot(&self) -> (r: u16)
        ensures
            r as u64 == tot_of(self.data),
    {
        let d = self.data;
        let r = (d >> 20u64) & 0x3ff;
        assert(r < 0x400) by (bit_vector)
            requires
                r == (d >> 20u64) & 0x3ff,
        ;
        r as u16
    }

    pub fn toa(&self) -> (r: u16)
        ensures
            r as u64 == toa_of(self.data),
            r < 0x4000,
    {
        let d = self.data;
        let r = (d >> 30u64) & 0x3fff;
        assert(r < 0x4000) by (bit_vector)
            requires
                r == (d >> 30u64) & 0x3fff,
        ;
        r as u16
    }

    /// Edge type of a TDC packet.
    pub fn tdc_type(&self) -> (r: u8)
        ensures
            r as u64 == tdc_type_of(self.data),
    {
        let d = self.data;
        let r = (d >> 56u64) & 0xf;
        assert(r < 16) by (bit_vector)
            requires
                r == (d >> 56u64) & 0xf,
        ;
        r as u8
    }

    /// Trigger counter of a TDC packet.
    pub fn tdc_counter(&self) -> (r: u16)
        ensures
            r as u64 == tdc_counter_of(self.data),
    {
        let d = self.data;
        let r = (d >> 44u64) & 0xfff;
        assert(r < 0x1000) by (bit_vector)
            requires
                r == (d >> 44u64) & 0xfff,
        ;
        r as u16
    }

    /// Coarse time of a TDC packet, in periods of 3.125 ns.
    #[allow(non_snake_case)]
    pub fn tdcCoarseT(&self) -> (r: u64)
        ensures
            r == tdc_coarse_of(self.data),
            r < 0x8_0000_0000,
    {
        let d = self.data;
        let r = (d >> 9u64) & 0x7_ffff_ffff;
        assert(r < 0x8_0000_0000) by (bit_vector)
            requires
                r == (d >> 9u64) & 0x7_ffff_ffff,
        ;
        r
    }

    /// Fine time of a TDC packet, in twelfths of the coarse period.
    #[allow(non_snake_case)]
    pub fn tdcFineT(&self) -> (r: u8)
        ensures
            r as u64 == tdc_fine_of(self.data),
            r < 16,
    {
        let d = self.data;
        let r = (d >> 5u64) & 0xf;
        assert(r < 16) by (bit_vector)
            requires
                r == (d >> 5u64) & 0xf,
        ;
        r as u8
    }

    /// Counts one in the little-endian counter of `bytedepth` bytes (1, 2 or
    /// 4) that starts at byte `index`; a full counter stays full. Returns
    /// whether the lowest byte carried over, which a counter of four bytes
    /// does not report.
    pub fn append_to_array(data: &mut Vec<u8>, index: usize, bytedepth: usize) -> (carried: bool)
        requires
            bytedepth == 1 || bytedepth == 2 || bytedepth == 4,
            index + bytedepth <= old(data).len(),
        ensures
            final(data)@ == crate::counter::bytes_inc(old(data)@, index as int, bytedepth as int),
            carried == (bytedepth < 4 && old(data)@[index as int] == 255),
    {
        let low = data[index];
        crate::counter::increment_at(data, index, bytedepth);
        bytedepth < 4 && low == 255
    }

    /// Time of a hit, in ticks of 1.5625 ns.
    pub fn electron_time(&self) -> (t: u64)
        ensures
            t == electron_ticks(spidr_of(self.data), toa_of(self.data), ftoa_of(self.data)),
            t < ELECTRON_OVERFLOW,
    {
        let s = self.spidr() as u64;
        let a = self.toa() as u64;
        let f = self.ftoa() as u64;
        s * 262144 + a * 16 + (15 - f)
    }

    /// Time of a TDC edge, in twelfths of 3.125 ns.
    pub fn tdc_time(&self) -> (t: u64)
        ensures
            t == tdc_fine_ticks(tdc_coarse_of(self.data), tdc_fine_of(self.data)),
            t <= 12 * 0x8_0000_0000 + 3,
    {
        self.tdcCoarseT() * 12 + self.tdcFineT() as u64
    }

    /// Time of a TDC edge, in ticks of 1.5625 ns, at most `TDC_OVERFLOW`.
    pub fn tdc_time_norm(&self) -> (t: u64)
        ensures
            t == tdc_fine_ticks(tdc_coarse_of(self.data), tdc_fine_of(self.data)) / 6,
            t <= TDC_OVERFLOW,
    {
        self.tdc_time() / 6
    }
}

/// Decodes the packet at `off` while `chip` is the current chip.
pub fn decode_event(b: &[u8], off: usize, chip: u8) -> (e: Event)
    requires
        off + 8 <= b@.len(),
    ensures
        e == event_of(b@.subrange(off as int, off + 8), chip),
{
    let ghost s = b@.subrange(off as int, off + 8);
    if b[off] == 84 && b[off + 1] == 80 && b[off + 2] == 88 && b[off + 3] == 51 {
        return Event::ChipHeader(b[off + 4]);
    }
    let p = Packet::from_bytes(b, off, chip);
    let id = p.id();
    if id == PIXEL_ID {
        let d = p.data;
        let rx = ((d >> 52u64) & 0xfe) | (((d >> 44u64) & 0x7) >> 2u64);
        assert(rx < 256) by (bit_vector)
            requires
                rx == ((d >> 52u64) & 0xfe) | (((d >> 44u64) & 0x7) >> 2u64),
        ;
        let y = p.y();
        Event::Pixel(
            PixelHit {
                chip,
                x: rx as u8,
                y: y as u8,
                toa: p.toa(),
                ftoa: p.ftoa(),
                tot: p.tot(),
                spidr: p.spidr(),
            },
        )
    } else if id == TDC_ID {
        Event::Tdc(
            TdcEdge {
                kind: p.tdc_type(),
                counter: p.tdc_counter(),
                coarse: p.tdcCoarseT(),
                fine: p.tdcFineT(),
            },
        )
    } else {
        Event::Other
    }
}

/// The eight bytes of a pixel packet with the fields of `h`.
pub fn encode_pixel(h: &PixelHit) -> (r: [u8; 8])
    requires
        h.wf(),
    ensures
        r@ == bytes_of(h.word()),
{
    let x = h.x as u64;
    let y = h.y as u64;
    let w = (11u64 << 60u64) | ((x >> 1u64) << 53u64) | ((y >> 2u64) << 47u64)
        | ((((x & 1) << 2u64) | (y & 3)) << 44u64) | ((h.toa as u64) << 30u64) | ((h.tot as u64) << 20u64)
        | ((h.ftoa as u64) << 16u64) | (h.spidr as u64);
    word_to_bytes(w)
}

/// A word of id 11 is the pixel word of its own fields.
pub proof fn lemma_pixel_word_of_fields(w: u64)
    requires
        id_of(w) == 11,
    ensures
        pixel_word(raw_x_of(w), raw_y_of(w), toa_of(w), ftoa_of(w), tot_of(w), spidr_of(w)) == w,
{
    let x = ((w >> 52u64) & 0xfe) | (((w >> 44u64) & 0x7) >> 2u64);
    let y = ((w >> 45u64) & 0xfc) | ((w >> 44u64) & 0x3);
    assert((11u64 << 60u64) | ((x >> 1u64) << 53u64) | ((y >> 2u64) << 47u64)
        | ((((x & 1) << 2u64) | (y & 3)) << 44u64) | (((w >> 30u64) & 0x3fff) << 30u64)
        | (((w >> 20u64) & 0x3ff) << 20u64) | (((w >> 16u64) & 0xf) << 16u64) | (w & 0xffff) == w)
        by (bit_vector)
        requires
            (w >> 60u64) & 0xf == 11,
            x == ((w >> 52u64) & 0xfe) | (((w >> 44u64) & 0x7) >> 2u64),
            y == ((w >> 45u64) & 0xfc) | ((w >> 44u64) & 0x3),
    ;
}

/// Decoding then encoding a pixel packet gives back its eight bytes.
pub proof fn lemma_pixel_round_trip(b: Seq<u8>, chip: u8)
    requires
        b.len() == 8,
        !is_header(b),
        id_of(word_of(b)) == 11,
    ensures
        event_of(b, chip) matches Event::Pixel(h) && h.wf() && bytes_of(h.word()) == b,
{
    let w = word_of(b);
    let h = pixel_of(w, chip);
    let x = raw_x_of(w);
    let y = raw_y_of(w);
    assert(x < 256 && y < 256 && toa_of(w) < 0x4000 && ftoa_of(w) < 16 && tot_of(w) < 0x400
        && spidr_of(w) < 0x10000) by (bit_vector)
        requires
            x == ((w >> 52u64) & 0xfe) | (((w >> 44u64) & 0x7) >> 2u64),
            y == ((w >> 45u64) & 0xfc) | ((w >> 44u64) & 0x3),
    ;
    lemma_pixel_word_of_fields(w);
    assert(h.word() == w);
    lemma_bytes_word(b);
}

/// Encoding then decoding a pixel hit gives back its fields.
pub proof fn lemma_pixel_fields_of_word(h: PixelHit)
    requires
        h.wf(),
    ensures
        id_of(h.word()) == 11,
        pixel_of(h.word(), h.chip) == h,
{
    let (x, y, toa, ftoa, tot, spidr) = (h.x as u64, h.y as u64, h.toa as u64, h.ftoa as u64,
        h.tot as u64, h.spidr as u64);
    let w = h.word();
    assert((w >> 60u64) & 0xf == 11 && ((w >> 52u64) & 0xfe) | (((w >> 44u64) & 0x7) >> 2u64) == x
        && ((w >> 45u64) & 0xfc) | ((w >> 44u64) & 0x3) == y && (w >> 30u64) & 0x3fff == toa
        && (w >> 20u64) & 0x3ff == tot && (w >> 16u64) & 0xf == ftoa && w & 0xffff == spidr)
        by (bit_vector)
        requires
            x < 256, y < 256, toa < 0x4000, ftoa < 16, tot < 0x400, spidr < 0x10000,
            w == (11u64 << 60u64) | ((x >> 1u64) << 53u64) | ((y >> 2u64) << 47u64)
                | ((((x & 1) << 2u64) | (y & 3)) << 44u64) | (toa << 30u64) | (tot << 20u64)
                | (ftoa << 16u64) | spidr,
    ;
}

/// Decodes a whole buffer of packets. The chip index is sticky: a chip header
/// sets it for the packets that follow, and the buffer starts under `chip`.
/// Returns the events, one per packet, and the chip current at the end.
pub fn decode_stream(data: &[u8], chip: u8) -> (r: Result<(Vec<Event>, u8), crate::error::Tp3ErrorKind>)
    ensures
        data@.len() % 8 != 0 <==> r == Err::<(Vec<Event>, u8), _>(crate::error::Tp3ErrorKind::DecodeAlignment),
        r matches Ok((evs, c)) ==> {
            &&& evs@.len() == data@.len() / 8
            &&& c == chip_after(data@, chip, evs@.len() as nat)
            &&& forall|i: int|
                0 <= i < evs@.len() ==> #[trigger] evs@[i] == event_of(packet_at(data@, i), chip_after(data@, chip, i as nat))
        },
{
    if data.len() % 8 != 0 {
        return Err(crate::error::Tp3ErrorKind::DecodeAlignment);
    }
    let n = data.len() / 8;
    let mut evs: Vec<Event> = Vec::new();
    let mut c = chip;
    let mut i: usize = 0;
    while i < n
        invariant
            n == data@.len() / 8,
            data@.len() % 8 == 0,
            i <= n,
            evs@.len() == i,
            c == chip_after(data@, chip, i as nat),
            forall|j: int|
                0 <= j < i ==> #[trigger] evs@[j] == event_of(packet_at(data@, j), chip_after(data@, chip, j as nat)),
        decreases n - i,
    {
        let len = data.len();
        assert(8 * i + 8 <= len) by (nonlinear_arith)
            requires
                i < n,
                n == len / 8,
        ;
        let off = 8 * i;
        let e = decode_event(data, off, c);
        assert(data@.subrange(off as int, off + 8) == packet_at(data@, i as int));
        evs.push(e);
        if let Event::ChipHeader(nc) = e {
            c = nc;
        }
        i = i + 1;
    }
    Ok((evs, c))
}

} // verus!
