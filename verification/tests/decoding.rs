use audio_spectrum::decode::{
    accept_sample_format, sample_rate_or_default, stream_sample_rate, DecodeError, ProbeOutcome,
    SampleFormat, DEFAULT_SAMPLE_RATE,
};

#[test]
fn default_sample_rate_is_44100_hz() {
    assert_eq!(DEFAULT_SAMPLE_RATE, 44_100);
}

#[test]
fn reported_sample_rate_is_kept() {
    assert_eq!(sample_rate_or_default(Some(48_000)), 48_000);
    assert_eq!(sample_rate_or_default(Some(8_000)), 8_000);
    assert_eq!(sample_rate_or_default(Some(0)), 0);
    assert_eq!(sample_rate_or_default(Some(u32::MAX)), u32::MAX);
}

#[test]
fn missing_sample_rate_falls_back_to_the_default() {
    assert_eq!(sample_rate_or_default(None), 44_100);
}

#[test]
fn ready_stream_gives_its_sample_rate() {
    assert_eq!(stream_sample_rate(ProbeOutcome::Ready(Some(22_050))), Ok(22_050));
    assert_eq!(stream_sample_rate(ProbeOutcome::Ready(None)), Ok(44_100));
}

#[test]
fn unrecognized_stream_is_a_decode_error() {
    assert_eq!(
        stream_sample_rate(ProbeOutcome::UnknownContainer),
        Err(DecodeError::UnrecognizedFormat)
    );
    assert_eq!(
        stream_sample_rate(ProbeOutcome::NoTrack),
        Err(DecodeError::UnrecognizedFormat)
    );
    assert_eq!(
        stream_sample_rate(ProbeOutcome::UnknownCodec),
        Err(DecodeError::UnrecognizedFormat)
    );
}

#[test]
fn single_precision_float_samples_are_accepted() {
    assert_eq!(accept_sample_format(SampleFormat::Float32), Ok(()));
}

#[test]
fn every_other_sample_format_is_refused_by_name() {
    let others: [SampleFormat; 9] = [
        SampleFormat::Unsigned8,
        SampleFormat::Unsigned16,
        SampleFormat::Unsigned24,
        SampleFormat::Unsigned32,
        SampleFormat::Signed8,
        SampleFormat::Signed16,
        SampleFormat::Signed24,
        SampleFormat::Signed32,
        SampleFormat::Float64,
    ];
    for &format in others.iter() {
        assert_eq!(
            accept_sample_format(format),
            Err(DecodeError::UnsupportedSampleFormat(format))
        );
    }
}
