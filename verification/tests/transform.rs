use audio_spectrum::audio::AudioData;
use audio_spectrum::bands::{map_bands, reference_band_table};
use audio_spectrum::config::AnalysisConfig;
use rustfft::num_complex::Complex;
use rustfft::FftPlanner;

fn magnitudes(window: &[f32]) -> Vec<f32> {
    let mut buffer: Vec<Complex<f32>> = window.iter().map(|x| Complex::new(*x, 0.0)).collect();
    let mut planner: FftPlanner<f32> = FftPlanner::new();
    let fft = planner.plan_fft_forward(window.len());
    fft.process(&mut buffer);
    buffer.iter().map(|c| c.norm()).collect()
}

fn to_fixed(values: &[f32]) -> Vec<u64> {
    values
        .iter()
        .map(|m| (*m as f64 * 1_000_000.0).round() as u64)
        .collect()
}

fn tone(hz: f32, sample_rate: f32, len: usize) -> Vec<f32> {
    (0..len)
        .map(|n| (2.0 * std::f32::consts::PI * hz * n as f32 / sample_rate).sin())
        .collect()
}

#[test]
fn transform_keeps_the_length_and_gives_no_negative_magnitude() {
    let mut size: usize = 2;
    while size <= 4096 {
        let window: Vec<f32> = (0..size)
            .map(|n| ((n * 37 % 101) as f32 / 50.0) - 1.0)
            .collect();
        let frame = magnitudes(&window);
        assert_eq!(frame.len(), size);
        for m in frame.iter() {
            assert!(*m >= 0.0);
            assert!(m.is_finite());
        }
        // the pipeline takes the frame of a window of its size
        let config = AnalysisConfig {
            fft_size: size,
            hop_size: size / 2,
            ..AnalysisConfig::default()
        };
        let mut audio = AudioData::<f32>::new(config).unwrap();
        audio.load(window.clone(), 44_100).unwrap();
        assert_eq!(audio.next_window(), Some(window));
        assert_eq!(audio.apply_frame(to_fixed(&frame), 500_000), Ok(()));
        assert_eq!(audio.fft().len(), size);
        size *= 2;
    }
}

#[test]
fn quarter_rate_tone_lands_in_bin_one_of_four() {
    let config = AnalysisConfig {
        fft_size: 4,
        hop_size: 1,
        ..AnalysisConfig::default()
    };
    let mut audio = AudioData::<f32>::new(config).unwrap();
    let samples: Vec<f32> = vec![1.0, 0.0, -1.0, 0.0, 1.0, 0.0, -1.0, 0.0];
    audio.load(samples, 44_100).unwrap();
    let window = audio.next_window().unwrap();
    assert_eq!(window, vec![1.0, 0.0, -1.0, 0.0]);
    assert_eq!(audio.position(), 1);
    let frame = magnitudes(&window);
    assert_eq!(frame.len(), 4);
    // the energy sits in bin 1, and in bin 3, its mirror image for a real signal
    assert!((frame[1] - 2.0).abs() < 1e-6);
    assert!((frame[3] - frame[1]).abs() < 1e-6);
    assert!(frame[0].abs() < 1e-6);
    assert!(frame[2].abs() < 1e-6);
    audio.apply_frame(to_fixed(&frame), 1_000_000).unwrap();
    assert_eq!(audio.fft(), &vec![0, 2_000_000, 0, 2_000_000]);
}

#[test]
fn tone_raises_the_band_that_holds_it() {
    let mut audio = AudioData::<f32>::default();
    audio.load(tone(3000.0, 44_100.0, 8192), 44_100).unwrap();
    let alpha: i64 = ((1.0 - (-10.0f64 / 60.0).exp()) * 1_000_000.0).round() as i64;
    let mut last_level: u64 = 0;
    for _ in 0..10 {
        let window = audio.next_window().unwrap();
        let frame = to_fixed(&magnitudes(&window));
        audio.apply_frame(frame, alpha).unwrap();
        assert!(audio.level() >= last_level);
        last_level = audio.level();
    }
    let bars = audio.bars();
    // 3 kHz lies in the band from 2 kHz to 4 kHz
    assert_eq!((bars[7].0, bars[7].1), (2000, 4000));
    for i in 0..10 {
        if i != 7 {
            assert!(bars[7].2 > bars[i].2);
        }
    }
    assert!(audio.level() > 0);
    assert!(audio.level() <= 5_000_000);
}

#[test]
fn band_mapper_on_a_transformed_frame_is_repeatable() {
    let window = tone(440.0, 44_100.0, 2048);
    let frame = to_fixed(&magnitudes(&window));
    let bands = reference_band_table();
    let first = map_bands(&frame, &bands, 44_100, 2048);
    let second = map_bands(&frame, &bands, 44_100, 2048);
    assert_eq!(first, second);
    // 440 Hz lies in the band from 250 Hz to 500 Hz
    for i in 0..10 {
        if i != 4 {
            assert!(first[4] > first[i]);
        }
    }
}
