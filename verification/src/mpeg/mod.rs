//! MPEG audio frames: the frame header and the side information.
use crate::bite::BiterError;
use header::MpegParseHeaderError;
use side_info::MpegParseSideInfoError;
use vstd::prelude::*;

pub mod header;
pub mod side_info;

verus! {

/// Why an MPEG frame could not be read.
#[derive(Debug, Clone, Copy, PartialEq, Eq)]
pub enum MpegError {
    /// The data could not be read.
    Read(BiterError),
    /// The frame header was refused.
    ParseHeader(MpegParseHeaderError),
    /// The side information was refused.
    ParseAudioData(MpegParseSideInfoError),
}

} // verus!
