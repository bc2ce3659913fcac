//! MPEG-1 audio: picks the decoder for a stream's layer.
use crate::mpeg::header::{MPEGHeader, MPEGLayer};
use layer3::{mpeg1_layer3_decoder_new, MPEG1Layer3DecoderNewError, Mpeg1Layer3Decoder};
use vstd::prelude::*;

pub mod layer3;

verus! {

/// Why no MPEG-1 decoder could be made for a stream.
#[derive(Debug, Clone, Copy, PartialEq, Eq)]
pub enum MPEG1DecoderNewError {
    /// Only Layer III is decoded.
    UnsupportedLayer(MPEGLayer),
    /// The Layer III decoder could not be made.
    FailedToCreateMPEG1Layer3Decoder(MPEG1Layer3DecoderNewError),
}

/// The decoder for an MPEG-1 stream whose first header is `header`: Layer
/// III streams get one, the other layers are not supported.
pub fn mpeg1_decoder_new(header: &MPEGHeader) -> (r: Result<Mpeg1Layer3Decoder, MPEG1DecoderNewError>)
    ensures
        header.layer is LayerIII ==> (r matches Ok(d) && d.wf() && d.reservoir_contents()
            == Seq::<u8>::empty()),
        !(header.layer is LayerIII) ==> r == Err::<Mpeg1Layer3Decoder, MPEG1DecoderNewError>(
            MPEG1DecoderNewError::UnsupportedLayer(header.layer),
        ),
{
    match header.layer {
        MPEGLayer::LayerI => Err(MPEG1DecoderNewError::UnsupportedLayer(header.layer)),
        MPEGLayer::LayerII => Err(MPEG1DecoderNewError::UnsupportedLayer(header.layer)),
        MPEGLayer::LayerIII => match mpeg1_layer3_decoder_new(header) {
            Ok(d) => Ok(d),
            Err(e) => Err(MPEG1DecoderNewError::FailedToCreateMPEG1Layer3Decoder(e)),
        },
    }
}

} // verus!
