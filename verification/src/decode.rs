//! The boundary with the decoder: what the analysis accepts of a decoded
//! stream. Only single-precision floating-point samples are accepted, and a
//! stream that reports no sample rate is taken to run at the default rate.

use vstd::prelude::*;

verus! {

/// The sample rate assumed for a stream that reports none, in hertz.
pub const DEFAULT_SAMPLE_RATE: u32 = 44_100;

/// The representation of the samples in a decoded buffer.
#[derive(Clone, Copy, Debug, PartialEq, Eq, Structural)]
pub enum SampleFormat {
    Unsigned8,
    Unsigned16,
    Unsigned24,
    Unsigned32,
    Signed8,
    Signed16,
    Signed24,
    Signed32,
    Float32,
    Float64,
}

/// What opening a stream found.
#[derive(Clone, Copy, Debug, PartialEq, Eq, Structural)]
pub enum ProbeOutcome {
    /// The container was not recognised.
    UnknownContainer,
    /// The container holds no track to decode.
    NoTrack,
    /// No decoder is at hand for the codec of the track.
    UnknownCodec,
    /// The track can be decoded; it reports this sample rate, or none.
    Ready(Option<u32>),
}

/// Why a stream cannot be analysed.
#[derive(Clone, Copy, Debug, PartialEq, Eq, Structural)]
pub enum DecodeError {
    /// The container or the codec was not recognised.
    UnrecognizedFormat,
    /// The decoder delivered samples in another representation than
    /// single-precision floating point.
    UnsupportedSampleFormat(SampleFormat),
}

/// The sample rate to analyse with: the reported one, or the default where
/// none is reported.
pub fn sample_rate_or_default(reported: Option<u32>) -> (rate: u32)
    ensures
        rate == match reported {
            Some(r) => r,
            None => DEFAULT_SAMPLE_RATE,
        },
{
    match reported {
        Some(r) => r,
        None => DEFAULT_SAMPLE_RATE,
    }
}

/// The sample rate of a stream that was opened, or the error that ends the
/// start-up: a stream is analysed only if its container was recognised, it
/// holds a track and the codec of the track is known.
pub fn stream_sample_rate(outcome: ProbeOutcome) -> (rate: Result<u32, DecodeError>)
    ensures
        rate == match outcome {
            ProbeOutcome::Ready(Some(r)) => Ok::<u32, DecodeError>(r),
            ProbeOutcome::Ready(None) => Ok::<u32, DecodeError>(DEFAULT_SAMPLE_RATE),
            _ => Err::<u32, DecodeError>(DecodeError::UnrecognizedFormat),
        },
{
    match outcome {
        ProbeOutcome::Ready(reported) => Ok(sample_rate_or_default(reported)),
        _ => Err(DecodeError::UnrecognizedFormat),
    }
}

/// Accepts a decoded buffer by the representation of its samples: only
/// single-precision floating point passes, every other representation is an
/// error that names it.
pub fn accept_sample_format(format: SampleFormat) -> (accepted: Result<(), DecodeError>)
    ensures
        accepted is Ok <==> format == SampleFormat::Float32,
        accepted is Err ==> accepted == Err::<(), DecodeError>(
            DecodeError::UnsupportedSampleFormat(format),
        ),
{
    match format {
        SampleFormat::Float32 => Ok(()),
        _ => Err(DecodeError::UnsupportedSampleFormat(format)),
    }
}

} // verus!
