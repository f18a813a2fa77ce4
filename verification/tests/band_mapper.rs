use audio_spectrum::bands::{
    band_energy, bin_range, map_bands, reference_band_table, BandRange, BAND_COUNT,
};

fn ramp(len: usize) -> Vec<u64> {
    let mut frame: Vec<u64> = Vec::new();
    for i in 0..len {
        frame.push((i as u64) * 1_000_000);
    }
    frame
}

#[test]
fn reference_table_has_ten_bands_from_20_hz_to_16_khz() {
    let bands = reference_band_table();
    assert_eq!(BAND_COUNT, 10);
    assert_eq!(bands.len(), 10);
    let expected: [(u32, u32); 10] = [
        (20, 31),
        (31, 63),
        (63, 125),
        (125, 250),
        (250, 500),
        (500, 1000),
        (1000, 2000),
        (2000, 4000),
        (4000, 8000),
        (8000, 16000),
    ];
    for i in 0..10 {
        assert_eq!(bands[i], BandRange(expected[i].0, expected[i].1));
    }
}

#[test]
fn reference_table_is_ascending_without_overlap() {
    let bands = reference_band_table();
    for i in 0..bands.len() {
        assert!(bands[i].0 < bands[i].1);
        for j in (i + 1)..bands.len() {
            assert!(bands[i].1 <= bands[j].0);
        }
        // within the Nyquist frequency of the default rate
        assert!(2 * bands[i].1 <= 44_100);
    }
}

#[test]
fn bin_range_of_the_level_band() {
    // bin width 44100 / 2048 = 21.53 Hz: 20 Hz is in bin 0, 8 kHz in bin 371
    assert_eq!(bin_range(BandRange(20, 8000), 44_100, 2048, 2048), Some((0, 371)));
}

#[test]
fn bin_range_of_each_reference_band() {
    let bands = reference_band_table();
    let edges: [usize; 11] = [0, 1, 2, 5, 11, 23, 46, 92, 185, 371, 743];
    for i in 0..10 {
        assert_eq!(
            bin_range(bands[i], 44_100, 2048, 2048),
            Some((edges[i], edges[i + 1]))
        );
    }
}

#[test]
fn bin_range_ends_at_the_last_bin_of_the_frame() {
    assert_eq!(bin_range(BandRange(2, 100), 8, 8, 8), Some((2, 7)));
    assert_eq!(bin_range(BandRange(2, 7), 8, 8, 8), Some((2, 7)));
    assert_eq!(bin_range(BandRange(2, 6), 8, 8, 8), Some((2, 6)));
    // a frame shorter than the window cuts the band off earlier
    assert_eq!(bin_range(BandRange(2, 100), 8, 8, 5), Some((2, 4)));
}

#[test]
fn bin_range_rounds_the_edges_down() {
    // bin width 10 / 4 = 2.5 Hz
    assert_eq!(bin_range(BandRange(4, 9), 10, 4, 4), Some((1, 3)));
    assert_eq!(bin_range(BandRange(5, 9), 10, 4, 4), Some((2, 3)));
    assert_eq!(bin_range(BandRange(0, 2), 10, 4, 4), None);
    assert_eq!(bin_range(BandRange(0, 3), 10, 4, 4), Some((0, 1)));
}

#[test]
fn bin_range_of_a_degenerate_band_is_none() {
    // one bin only
    assert_eq!(bin_range(BandRange(3, 3), 8, 8, 8), None);
    assert_eq!(bin_range(BandRange(20, 21), 44_100, 2048, 2048), None);
    // upper edge below the lower edge
    assert_eq!(bin_range(BandRange(5, 2), 8, 8, 8), None);
    // no frame, no rate, no window
    assert_eq!(bin_range(BandRange(1, 5), 8, 8, 0), None);
    assert_eq!(bin_range(BandRange(1, 5), 0, 8, 8), None);
    assert_eq!(bin_range(BandRange(1, 5), 8, 0, 8), None);
    // a frame of one bin
    assert_eq!(bin_range(BandRange(0, 5), 8, 8, 1), None);
}

#[test]
fn bin_range_with_the_largest_arguments() {
    assert_eq!(
        bin_range(BandRange(u32::MAX, u32::MAX), 1, usize::MAX, usize::MAX),
        None
    );
    assert_eq!(
        bin_range(BandRange(0, u32::MAX), 1, usize::MAX, 3),
        Some((0, 2))
    );
}

#[test]
fn band_energy_is_the_mean_of_its_bins() {
    let frame = ramp(8);
    // bins 2, 3, 4, 5 hold 2, 3, 4, 5
    assert_eq!(band_energy(&frame, BandRange(2, 5), 8, 8), 3_500_000);
    // bins 0 ..= 7
    assert_eq!(band_energy(&frame, BandRange(0, 7), 8, 8), 3_500_000);
    // bins 6 and 7, the upper edge beyond the frame
    assert_eq!(band_energy(&frame, BandRange(6, 1000), 8, 8), 6_500_000);
}

#[test]
fn band_energy_rounds_the_mean_down() {
    let frame: Vec<u64> = vec![1, 2, 2, 0];
    // (1 + 2 + 2) / 3
    assert_eq!(band_energy(&frame, BandRange(0, 2), 4, 4), 1);
    // (2 + 2 + 0) / 3
    assert_eq!(band_energy(&frame, BandRange(1, 3), 4, 4), 1);
    // (1 + 2) / 2
    assert_eq!(band_energy(&frame, BandRange(0, 1), 4, 4), 1);
}

#[test]
fn band_energy_of_a_degenerate_band_is_zero() {
    let frame = ramp(8);
    assert_eq!(band_energy(&frame, BandRange(3, 3), 8, 8), 0);
    assert_eq!(band_energy(&frame, BandRange(5, 2), 8, 8), 0);
    assert_eq!(band_energy(&frame, BandRange(1, 5), 0, 8), 0);
    assert_eq!(band_energy(&frame, BandRange(1, 5), 8, 0), 0);
    let empty: Vec<u64> = Vec::new();
    assert_eq!(band_energy(&empty, BandRange(1, 5), 8, 8), 0);
}

#[test]
fn band_beyond_the_frame_is_silent() {
    let frame: Vec<u64> = vec![9_000_000; 2048];
    // from the last bin on
    assert_eq!(band_energy(&frame, BandRange(44_079, 50_000), 44_100, 2048), 0);
    // from the sample rate on
    assert_eq!(band_energy(&frame, BandRange(44_100, 60_000), 44_100, 2048), 0);
    assert_eq!(band_energy(&frame, BandRange(50_000, 90_000), 44_100, 2048), 0);
    // one bin before the last the band is live
    assert_eq!(
        band_energy(&frame, BandRange(44_057, 50_000), 44_100, 2048),
        9_000_000
    );
}

#[test]
fn band_above_nyquist_is_silent_in_a_half_spectrum() {
    // the bins up to the Nyquist bin: 1025 of a window of 2048
    let frame: Vec<u64> = vec![9_000_000; 1025];
    assert_eq!(band_energy(&frame, BandRange(22_050, 30_000), 44_100, 2048), 0);
    assert_eq!(band_energy(&frame, BandRange(23_000, 44_000), 44_100, 2048), 0);
    // a band that only reaches above it is cut off at the Nyquist bin
    assert_eq!(
        band_energy(&frame, BandRange(16_000, 30_000), 44_100, 2048),
        9_000_000
    );
}

#[test]
fn band_between_nyquist_and_sample_rate_reads_the_upper_bins() {
    // a frame as long as the window holds bins up to the sample rate
    let frame: Vec<u64> = vec![0, 0, 5_000_000, 7_000_000];
    assert_eq!(bin_range(BandRange(23_000, 40_000), 44_100, 4, 4), Some((2, 3)));
    assert_eq!(band_energy(&frame, BandRange(23_000, 40_000), 44_100, 4), 6_000_000);
}

#[test]
fn band_energy_of_the_largest_magnitudes() {
    let frame: Vec<u64> = vec![u64::MAX; 64];
    assert_eq!(band_energy(&frame, BandRange(0, 63), 64, 64), u64::MAX);
}

#[test]
fn map_bands_gives_one_energy_per_band_in_order() {
    let frame = ramp(8);
    let bands: Vec<BandRange> = vec![
        BandRange(0, 1),
        BandRange(1, 3),
        BandRange(3, 3),
        BandRange(4, 7),
        BandRange(9, 12),
    ];
    let energies = map_bands(&frame, &bands, 8, 8);
    assert_eq!(energies, vec![500_000, 2_000_000, 0, 5_500_000, 0]);
    for i in 0..bands.len() {
        assert_eq!(energies[i], band_energy(&frame, bands[i], 8, 8));
    }
}

#[test]
fn map_bands_of_no_bands_is_empty() {
    let frame = ramp(8);
    let bands: Vec<BandRange> = Vec::new();
    assert_eq!(map_bands(&frame, &bands, 8, 8), Vec::<u64>::new());
}

#[test]
fn map_bands_is_a_pure_function() {
    let frame = ramp(2048);
    let bands = reference_band_table();
    let first = map_bands(&frame, &bands, 44_100, 2048);
    let second = map_bands(&frame, &bands, 44_100, 2048);
    assert_eq!(first, second);
    let frame_again = ramp(2048);
    let bands_again = reference_band_table();
    assert_eq!(map_bands(&frame_again, &bands_again, 44_100, 2048), first);
}

#[test]
fn map_bands_of_the_reference_table_over_a_ramp() {
    // bin i holds i: the mean of bins a ..= b is (a + b) / 2
    let frame = ramp(2048);
    let energies = map_bands(&frame, &reference_band_table(), 44_100, 2048);
    assert_eq!(
        energies,
        vec![
            500_000,
            1_500_000,
            3_500_000,
            8_000_000,
            17_000_000,
            34_500_000,
            69_000_000,
            138_500_000,
            278_000_000,
            557_000_000,
        ]
    );
}
