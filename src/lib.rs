//! Decoding, binning, clustering and coincidence search for the data stream of a
//! Timepix3 detector read out in 1.5625 ns ticks.
pub mod error;
pub mod packet;
pub mod tdc;
pub mod settings;
pub mod counter;
pub mod spectrum;
pub mod spim;
pub mod cluster;
pub mod coincidence;
pub mod narrow;
pub mod isibox;
