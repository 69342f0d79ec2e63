use vstd::prelude::*;

verus! {

/// What went wrong in a measurement.
#[derive(Debug, Clone, Copy, PartialEq, Eq, Structural)]
pub enum Tp3ErrorKind {
    SetBin,
    SetByteDepth,
    SetCumul,
    SetXSize,
    SetYSize,
    SetNoReadFile,
    TimepixReadLoop,
    TimepixReadOver,
    IsiBoxCouldNotSync,
    MiscModeNotImplemented(u8),
    DecodeAlignment,
}

} // verus!
