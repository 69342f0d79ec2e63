//! The acquisition settings sent by the client before a measurement.
use vstd::prelude::*;
use crate::error::Tp3ErrorKind;

verus! {

/// Width of the detector strip, in columns.
pub const DETECTOR_WIDTH: usize = 1024;
/// Height of the detector strip, in rows.
pub const DETECTOR_HEIGHT: usize = 256;

/// What a measurement builds.
#[derive(Debug, Clone, Copy, PartialEq, Eq, Structural)]
pub enum Mode {
    Live1D,
    Live2D,
    LiveTR1D,
    LiveTR2D,
    Spim,
    FastChrono,
    Chrono,
    IsiBoxSaveLocally,
}

/// The settings of one acquisition.
#[derive(Debug, Clone, Copy, PartialEq, Eq, Structural)]
pub struct Settings {
    pub bin: bool,
    pub bytedepth: usize,
    pub cumul: bool,
    pub mode: Mode,
    pub xspim_size: usize,
    pub yspim_size: usize,
    pub xscan_size: usize,
    pub yscan_size: usize,
    pub pixel_time: usize,
    pub time_delay: usize,
    pub time_width: usize,
    pub spimoverscanx: usize,
    pub spimoverscany: usize,
    pub save_locally: bool,
}

/// The big-endian 16-bit value at `i`.
pub open spec fn be16(d: Seq<u8>, i: int) -> int {
    d[i] * 256 + d[i + 1]
}

/// The mode named by a mode byte, with the binning choice.
pub open spec fn mode_of(m: u8, bin: bool) -> Option<Mode> {
    if m == 0 {
        Some(if bin { Mode::Live1D } else { Mode::Live2D })
    } else if m == 1 {
        Some(if bin { Mode::LiveTR1D } else { Mode::LiveTR2D })
    } else if m == 2 {
        Some(Mode::Spim)
    } else if m == 6 {
        Some(Mode::FastChrono)
    } else if m == 7 {
        Some(Mode::Chrono)
    } else if m == 8 {
        Some(Mode::IsiBoxSaveLocally)
    } else {
        None
    }
}

/// Bytes per counter named by the byte-depth byte.
pub open spec fn bytedepth_of(b: u8) -> Option<usize> {
    if b == 0 {
        Some(1usize)
    } else if b == 1 {
        Some(2usize)
    } else if b == 2 {
        Some(4usize)
    } else if b == 4 {
        Some(8usize)
    } else {
        None
    }
}

/// Scan pixels per spectral-image pixel: the ratio of the two sizes, and 1 when
/// the scan is the smaller.
pub open spec fn overscan(scan: int, spim: int) -> int {
    if scan / spim == 0 { 1 } else { scan / spim }
}

/// What a configuration blob of 16 or 20 bytes sets, or the first field that is
/// wrong. The 16-byte form carries the time delay and width at bytes 12 and 14;
/// the 20-byte form carries the pixel time there, then the delay, the width and
/// the local-save flag.
pub open spec fn settings_of(d: Seq<u8>) -> Result<Settings, Tp3ErrorKind> {
    if d[0] > 1 {
        Err(Tp3ErrorKind::SetBin)
    } else if bytedepth_of(d[1]) is None {
        Err(Tp3ErrorKind::SetByteDepth)
    } else if d[2] > 1 {
        Err(Tp3ErrorKind::SetCumul)
    } else if mode_of(d[3], d[0] == 1) is None {
        Err(Tp3ErrorKind::MiscModeNotImplemented(d[3]))
    } else if be16(d, 4) == 0 {
        Err(Tp3ErrorKind::SetXSize)
    } else if be16(d, 6) == 0 {
        Err(Tp3ErrorKind::SetYSize)
    } else {
        let long = d.len() == 20;
        Ok(Settings {
            bin: d[0] == 1,
            bytedepth: bytedepth_of(d[1]).unwrap(),
            cumul: d[2] == 1,
            mode: mode_of(d[3], d[0] == 1).unwrap(),
            xspim_size: be16(d, 4) as usize,
            yspim_size: be16(d, 6) as usize,
            xscan_size: be16(d, 8) as usize,
            yscan_size: be16(d, 10) as usize,
            pixel_time: if long { be16(d, 12) as usize } else { 0usize },
            time_delay: (if long { be16(d, 14) } else { be16(d, 12) }) as usize,
            time_width: (if long { be16(d, 16) } else { be16(d, 14) }) as usize,
            spimoverscanx: overscan(be16(d, 8), be16(d, 4)) as usize,
            spimoverscany: overscan(be16(d, 10), be16(d, 6)) as usize,
            save_locally: long && d[18] != 0,
        })
    }
}

/// A configuration blob as received from the client.
pub struct BytesConfig {
    pub data: Vec<u8>,
}

impl BytesConfig {
    pub open spec fn wf(&self) -> bool {
        self.data@.len() == 16 || self.data@.len() == 20
    }

    /// Byte 0: binning, 0 or 1.
    pub fn bin(&self) -> (r: Result<bool, Tp3ErrorKind>)
        requires
            self.wf(),
        ensures
            self.data@[0] > 1 <==> r == Err::<bool, Tp3ErrorKind>(Tp3ErrorKind::SetBin),
            self.data@[0] <= 1 ==> r == Ok::<bool, Tp3ErrorKind>(self.data@[0] == 1),
    {
        match self.data[0] {
            0 => Ok(false),
            1 => Ok(true),
            _ => Err(Tp3ErrorKind::SetBin),
        }
    }

    /// Byte 1: bytes per counter, coded 0, 1, 2 or 4 for 1, 2, 4 or 8.
    pub fn bytedepth(&self) -> (r: Result<usize, Tp3ErrorKind>)
        requires
            self.wf(),
        ensures
            bytedepth_of(self.data@[1]) is None <==> r == Err::<usize, Tp3ErrorKind>(Tp3ErrorKind::SetByteDepth),
            bytedepth_of(self.data@[1]) matches Some(b) ==> r == Ok::<usize, Tp3ErrorKind>(b),
    {
        match self.data[1] {
            0 => Ok(1),
            1 => Ok(2),
            2 => Ok(4),
            4 => Ok(8),
            _ => Err(Tp3ErrorKind::SetByteDepth),
        }
    }

    /// Byte 2: cumulation, 0 or 1.
    pub fn cumul(&self) -> (r: Result<bool, Tp3ErrorKind>)
        requires
            self.wf(),
        ensures
            self.data@[2] > 1 <==> r == Err::<bool, Tp3ErrorKind>(Tp3ErrorKind::SetCumul),
            self.data@[2] <= 1 ==> r == Ok::<bool, Tp3ErrorKind>(self.data@[2] == 1),
    {
        match self.data[2] {
            0 => Ok(false),
            1 => Ok(true),
            _ => Err(Tp3ErrorKind::SetCumul),
        }
    }

    /// Byte 3: the measurement mode, read with the binning choice.
    pub fn mode(&self, bin: bool) -> (r: Result<Mode, Tp3ErrorKind>)
        requires
            self.wf(),
        ensures
            mode_of(self.data@[3], bin) is None <==> r == Err::<Mode, Tp3ErrorKind>(
                Tp3ErrorKind::MiscModeNotImplemented(self.data@[3]),
            ),
            mode_of(self.data@[3], bin) matches Some(m) ==> r == Ok::<Mode, Tp3ErrorKind>(m),
    {
        let m = self.data[3];
        if m == 0 {
            Ok(if bin { Mode::Live1D } else { Mode::Live2D })
        } else if m == 1 {
            Ok(if bin { Mode::LiveTR1D } else { Mode::LiveTR2D })
        } else if m == 2 {
            Ok(Mode::Spim)
        } else if m == 6 {
            Ok(Mode::FastChrono)
        } else if m == 7 {
            Ok(Mode::Chrono)
        } else if m == 8 {
            Ok(Mode::IsiBoxSaveLocally)
        } else {
            Err(Tp3ErrorKind::MiscModeNotImplemented(m))
        }
    }

    /// The big-endian 16-bit value at `i`.
    fn read_be16(&self, i: usize) -> (r: usize)
        requires
            i + 1 < self.data.len(),
        ensures
            r == be16(self.data@, i as int),
    {
        (self.data[i] as usize) * 256 + (self.data[i + 1] as usize)
    }

    /// Bytes 4 and 5: columns of the spectral image.
    pub fn xspim_size(&self) -> (r: usize)
        requires
            self.wf(),
        ensures
            r == be16(self.data@, 4),
    {
        self.read_be16(4)
    }

    /// Bytes 6 and 7: rows of the spectral image.
    pub fn yspim_size(&self) -> (r: usize)
        requires
            self.wf(),
        ensures
            r == be16(self.data@, 6),
    {
        self.read_be16(6)
    }

    /// Bytes 8 and 9: columns of the scan.
    pub fn xscan_size(&self) -> (r: usize)
        requires
            self.wf(),
        ensures
            r == be16(self.data@, 8),
    {
        self.read_be16(8)
    }

    /// Bytes 10 and 11: rows of the scan.
    pub fn yscan_size(&self) -> (r: usize)
        requires
            self.wf(),
        ensures
            r == be16(self.data@, 10),
    {
        self.read_be16(10)
    }

    /// Pixel time, in ticks of 1.5625 ns (the 20-byte form only).
    pub fn pixel_time(&self) -> (r: usize)
        requires
            self.wf(),
        ensures
            r == (if self.data@.len() == 20 { be16(self.data@, 12) } else { 0 }),
    {
        if self.data.len() == 20 {
            self.read_be16(12)
        } else {
            0
        }
    }

    /// Delay of the time gate.
    pub fn time_delay(&self) -> (r: usize)
        requires
            self.wf(),
        ensures
            r == (if self.data@.len() == 20 { be16(self.data@, 14) } else { be16(self.data@, 12) }),
    {
        if self.data.len() == 20 {
            self.read_be16(14)
        } else {
            self.read_be16(12)
        }
    }

    /// Width of the time gate.
    pub fn time_width(&self) -> (r: usize)
        requires
            self.wf(),
        ensures
            r == (if self.data@.len() == 20 { be16(self.data@, 16) } else { be16(self.data@, 14) }),
    {
        if self.data.len() == 20 {
            self.read_be16(16)
        } else {
            self.read_be16(14)
        }
    }

    /// Byte 18 of the 20-byte form: keep a local copy of the data.
    pub fn save_locally(&self) -> (r: bool)
        requires
            self.wf(),
        ensures
            r == (self.data@.len() == 20 && self.data@[18] != 0),
    {
        self.data.len() == 20 && self.data[18] != 0
    }

    /// Scan columns per spectral-image column.
    pub fn spimoverscanx(&self) -> (r: Result<usize, Tp3ErrorKind>)
        requires
            self.wf(),
        ensures
            be16(self.data@, 4) == 0 <==> r == Err::<usize, Tp3ErrorKind>(Tp3ErrorKind::SetXSize),
            be16(self.data@, 4) != 0 ==> r == Ok::<usize, Tp3ErrorKind>(
                overscan(be16(self.data@, 8), be16(self.data@, 4)) as usize,
            ),
    {
        let xspim = self.read_be16(4);
        let xscan = self.read_be16(8);
        if xspim == 0 {
            return Err(Tp3ErrorKind::SetXSize);
        }
        let var = xscan / xspim;
        if var == 0 { Ok(1) } else { Ok(var) }
    }

    /// Scan rows per spectral-image row.
    pub fn spimoverscany(&self) -> (r: Result<usize, Tp3ErrorKind>)
        requires
            self.wf(),
        ensures
            be16(self.data@, 6) == 0 <==> r == Err::<usize, Tp3ErrorKind>(Tp3ErrorKind::SetYSize),
            be16(self.data@, 6) != 0 ==> r == Ok::<usize, Tp3ErrorKind>(
                overscan(be16(self.data@, 10), be16(self.data@, 6)) as usize,
            ),
    {
        let yspim = self.read_be16(6);
        let yscan = self.read_be16(10);
        if yspim == 0 {
            return Err(Tp3ErrorKind::SetYSize);
        }
        let var = yscan / yspim;
        if var == 0 { Ok(1) } else { Ok(var) }
    }

    /// All the settings, or the first field that is wrong.
    pub fn create_settings(&self) -> (r: Result<Settings, Tp3ErrorKind>)
        requires
            self.wf(),
        ensures
            r == settings_of(self.data@),
    {
        let bin = match self.bin() {
            Ok(b) => b,
            Err(e) => return Err(e),
        };
        let bytedepth = match self.bytedepth() {
            Ok(b) => b,
            Err(e) => return Err(e),
        };
        let cumul = match self.cumul() {
            Ok(c) => c,
            Err(e) => return Err(e),
        };
        let mode = match self.mode(bin) {
            Ok(m) => m,
            Err(e) => return Err(e),
        };
        let spimoverscanx = match self.spimoverscanx() {
            Ok(v) => v,
            Err(e) => return Err(e),
        };
        let spimoverscany = match self.spimoverscany() {
            Ok(v) => v,
            Err(e) => return Err(e),
        };
        Ok(Settings {
            bin,
            bytedepth,
            cumul,
            mode,
            xspim_size: self.xspim_size(),
            yspim_size: self.yspim_size(),
            xscan_size: self.xscan_size(),
            yscan_size: self.yscan_size(),
            pixel_time: self.pixel_time(),
            time_delay: self.time_delay(),
            time_width: self.time_width(),
            spimoverscanx,
            spimoverscany,
            save_locally: self.save_locally(),
        })
    }
}

impl Settings {
    /// Reads the settings from a 16- or 20-byte configuration blob.
    pub fn from_config(blob: &[u8]) -> (r: Result<Settings, Tp3ErrorKind>)
        requires
            blob@.len() == 16 || blob@.len() == 20,
        ensures
            r == settings_of(blob@),
    {
        let mut data: Vec<u8> = Vec::new();
        let mut i: usize = 0;
        while i < blob.len()
            invariant
                i <= blob@.len(),
                data@ == blob@.subrange(0, i as int),
            decreases blob@.len() - i,
        {
            data.push(blob[i]);
            i = i + 1;
        }
        assert(data@ == blob@);
        let cfg = BytesConfig { data };
        cfg.create_settings()
    }

    /// Columns of a frame.
    pub fn frame_width(&self) -> (w: usize)
        ensures
            w == DETECTOR_WIDTH,
    {
        DETECTOR_WIDTH
    }

    /// Rows of a frame: one when the rows are binned.
    pub fn frame_height(&self) -> (h: usize)
        ensures
            h == (if self.bin { 1 } else { DETECTOR_HEIGHT }),
    {
        if self.bin { 1 } else { DETECTOR_HEIGHT }
    }
}

} // verus!
