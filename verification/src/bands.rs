//! The band mapper: averages the magnitude bins of a spectrum frame over
//! frequency ranges.
//!
//! Frequencies are whole hertz. Bin `i` of a frame taken with a window of
//! `fft_size` samples at `sample_rate` hertz starts at `i * sample_rate /
//! fft_size` hertz, so a frequency `hz` falls into bin `hz * fft_size /
//! sample_rate`, rounded down.

use vstd::prelude::*;

verus! {

/// A frequency range: its lower and its upper edge, in hertz.
#[derive(Clone, Copy, Debug, PartialEq, Eq, Structural)]
pub struct BandRange(pub u32, pub u32);

/// The smoothed intensity of one band, in fixed-point units.
#[derive(Clone, Copy, Debug, PartialEq, Eq, Structural)]
pub struct BarValue(pub u64);

/// The number of bands in the reference table.
pub const BAND_COUNT: usize = 10;

/// The reference table: ten bands from 20 Hz to 16 kHz, in ascending order,
/// each beginning where the one before it ends.
pub open spec fn reference_bands() -> Seq<BandRange> {
    seq![
        BandRange(20, 31),
        BandRange(31, 63),
        BandRange(63, 125),
        BandRange(125, 250),
        BandRange(250, 500),
        BandRange(500, 1000),
        BandRange(1000, 2000),
        BandRange(2000, 4000),
        BandRange(4000, 8000),
        BandRange(8000, 16000),
    ]
}

/// The bands are in ascending order and do not overlap: each has a lower edge
/// below its upper edge, and none begins before an earlier one ends.
pub open spec fn bands_ascending(bands: Seq<BandRange>) -> bool {
    &&& forall|i: int| 0 <= i < bands.len() ==> (#[trigger] bands[i]).0 < bands[i].1
    &&& forall|i: int, j: int|
        0 <= i < j < bands.len() ==> (#[trigger] bands[i]).1 <= (#[trigger] bands[j]).0
}

/// All bands end at or below the Nyquist frequency of `sample_rate`.
pub open spec fn bands_within_nyquist(bands: Seq<BandRange>, sample_rate: int) -> bool {
    forall|i: int| 0 <= i < bands.len() ==> 2 * (#[trigger] bands[i]).1 <= sample_rate
}

/// The bin that the frequency `hz` falls into, for `sample_rate > 0`.
pub open spec fn bin_of(hz: int, sample_rate: int, fft_size: int) -> int {
    hz * fft_size / sample_rate
}

/// The first bin of a band.
pub open spec fn start_bin(band: BandRange, sample_rate: int, fft_size: int) -> int {
    bin_of(band.0 as int, sample_rate, fft_size)
}

/// The last bin of a band in a frame of `frame_len` bins: the bin of its
/// upper edge, or the last bin of the frame if that comes first.
pub open spec fn end_bin(band: BandRange, sample_rate: int, fft_size: int, frame_len: int) -> int {
    let upper = bin_of(band.1 as int, sample_rate, fft_size);
    if upper < frame_len - 1 {
        upper
    } else {
        frame_len - 1
    }
}

/// The band covers more than one bin of the frame. A band that does not is
/// degenerate and counts as silent.
pub open spec fn band_is_live(
    band: BandRange,
    sample_rate: int,
    fft_size: int,
    frame_len: int,
) -> bool {
    sample_rate > 0 && end_bin(band, sample_rate, fft_size, frame_len) > start_bin(
        band,
        sample_rate,
        fft_size,
    )
}

/// The sum of the bins `lo .. hi` of a frame.
pub open spec fn sum_bins(frame: Seq<u64>, lo: int, hi: int) -> int
    decreases hi - lo,
{
    if lo >= hi {
        0
    } else {
        sum_bins(frame, lo, hi - 1) + frame[hi - 1]
    }
}

/// The raw energy of a band: the mean of the magnitudes from its first to its
/// last bin, both included, rounded down; zero for a degenerate band.
pub open spec fn band_energy_of(
    frame: Seq<u64>,
    band: BandRange,
    sample_rate: int,
    fft_size: int,
) -> int {
    let first = start_bin(band, sample_rate, fft_size);
    let last = end_bin(band, sample_rate, fft_size, frame.len() as int);
    if band_is_live(band, sample_rate, fft_size, frame.len() as int) {
        sum_bins(frame, first, last + 1) / (last - first + 1)
    } else {
        0
    }
}

/// The raw energies of a list of bands, in band order.
pub open spec fn band_energies_of(
    frame: Seq<u64>,
    bands: Seq<BandRange>,
    sample_rate: int,
    fft_size: int,
) -> Seq<int> {
    Seq::new(bands.len(), |i: int| band_energy_of(frame, bands[i], sample_rate, fft_size))
}

/// The reference band table.
pub fn reference_band_table() -> (bands: Vec<BandRange>)
    ensures
        bands@ == reference_bands(),
        bands@.len() == BAND_COUNT,
{
    let mut bands: Vec<BandRange> = Vec::new();
    bands.push(BandRange(20, 31));
    bands.push(BandRange(31, 63));
    bands.push(BandRange(63, 125));
    bands.push(BandRange(125, 250));
    bands.push(BandRange(250, 500));
    bands.push(BandRange(500, 1000));
    bands.push(BandRange(1000, 2000));
    bands.push(BandRange(2000, 4000));
    bands.push(BandRange(4000, 8000));
    bands.push(BandRange(8000, 16000));
    assert(bands@ =~= reference_bands());
    bands
}

/// The bins of a band in a frame of `frame_len` bins: its first and its last
/// bin, or `None` for a degenerate band.
pub fn bin_range(band: BandRange, sample_rate: u32, fft_size: usize, frame_len: usize) -> (range:
    Option<(usize, usize)>)
    ensures
        range is Some <==> band_is_live(
            band,
            sample_rate as int,
            fft_size as int,
            frame_len as int,
        ),
        range matches Some((first, last)) ==> first == start_bin(
            band,
            sample_rate as int,
            fft_size as int,
        ) && last == end_bin(band, sample_rate as int, fft_size as int, frame_len as int) && first
            < last < frame_len,
{
    if sample_rate == 0 || frame_len == 0 {
        return None;
    }
    assert(band.0 * fft_size <= u32::MAX * usize::MAX && band.1 * fft_size <= u32::MAX
        * usize::MAX) by (nonlinear_arith)
        requires
            0 <= band.0 <= u32::MAX,
            0 <= band.1 <= u32::MAX,
            0 <= fft_size <= usize::MAX,
    ;
    let lower: u128 = (band.0 as u128) * (fft_size as u128) / (sample_rate as u128);
    let upper: u128 = (band.1 as u128) * (fft_size as u128) / (sample_rate as u128);
    let end_of_frame: u128 = (frame_len - 1) as u128;
    let last: u128 = if upper < end_of_frame {
        upper
    } else {
        end_of_frame
    };
    if last > lower {
        Some((lower as usize, last as usize))
    } else {
        None
    }
}

/// The raw energy of one band of a frame.
pub fn band_energy(frame: &Vec<u64>, band: BandRange, sample_rate: u32, fft_size: usize) -> (energy:
    u64)
    ensures
        energy == band_energy_of(frame@, band, sample_rate as int, fft_size as int),
{
    match bin_range(band, sample_rate, fft_size, frame.len()) {
        None => 0,
        Some((first, last)) => {
            let mut sum: u128 = 0;
            let mut i: usize = first;
            while i <= last
                invariant
                    first <= i <= last + 1,
                    last < frame.len(),
                    sum == sum_bins(frame@, first as int, i as int),
                    sum <= (i - first) * u64::MAX,
                decreases last + 1 - i,
            {
                sum = sum + frame[i] as u128;
                i = i + 1;
            }
            let count: u128 = (last - first + 1) as u128;
            let mean: u128 = sum / count;
            assert(mean <= u64::MAX) by (nonlinear_arith)
                requires
                    mean == sum / count,
                    count > 0,
                    sum <= count * u64::MAX,
            ;
            mean as u64
        },
    }
}

/// The band mapper: the raw energy of each band of a frame, in band order.
pub fn map_bands(frame: &Vec<u64>, bands: &Vec<BandRange>, sample_rate: u32, fft_size: usize) -> (
    energies: Vec<u64>)
    ensures
        energies@.len() == bands@.len(),
        forall|i: int|
            0 <= i < bands@.len() ==> #[trigger] energies@[i] == band_energy_of(
                frame@,
                bands@[i],
                sample_rate as int,
                fft_size as int,
            ),
        energies@.map_values(|e: u64| e as int) == band_energies_of(
            frame@,
            bands@,
            sample_rate as int,
            fft_size as int,
        ),
{
    let mut energies: Vec<u64> = Vec::new();
    let mut i: usize = 0;
    while i < bands.len()
        invariant
            i <= bands@.len(),
            energies@.len() == i,
            forall|j: int|
                0 <= j < i ==> #[trigger] energies@[j] == band_energy_of(
                    frame@,
                    bands@[j],
                    sample_rate as int,
                    fft_size as int,
                ),
        decreases bands@.len() - i,
    {
        energies.push(band_energy(frame, bands[i], sample_rate, fft_size));
        i = i + 1;
    }
    assert(energies@.map_values(|e: u64| e as int) =~= band_energies_of(
        frame@,
        bands@,
        sample_rate as int,
        fft_size as int,
    ));
    energies
}

/// The band mapper keeps no state: equal frames and equal configurations give
/// equal energies, band by band.
pub proof fn lemma_band_mapper_is_pure(
    frame_a: Seq<u64>,
    frame_b: Seq<u64>,
    bands_a: Seq<BandRange>,
    bands_b: Seq<BandRange>,
    sample_rate: int,
    fft_size: int,
)
    requires
        frame_a =~= frame_b,
        bands_a =~= bands_b,
    ensures
        band_energies_of(frame_a, bands_a, sample_rate, fft_size) == band_energies_of(
            frame_b,
            bands_b,
            sample_rate,
            fft_size,
        ),
{
}

/// A degenerate band is silent: a band that covers one bin or none of the
/// frame has the raw energy zero.
pub proof fn lemma_degenerate_band_is_silent(
    frame: Seq<u64>,
    band: BandRange,
    sample_rate: int,
    fft_size: int,
)
    requires
        !band_is_live(band, sample_rate, fft_size, frame.len() as int),
    ensures
        band_energy_of(frame, band, sample_rate, fft_size) == 0,
{
}

/// A band that begins at or beyond the last bin of the frame is silent. For a
/// frame as long as the window this is every band from the sample rate on; for
/// a frame that holds the bins up to the Nyquist frequency it is every band
/// that lies entirely above that frequency.
pub proof fn lemma_band_beyond_frame_is_silent(
    frame: Seq<u64>,
    band: BandRange,
    sample_rate: int,
    fft_size: int,
)
    requires
        sample_rate > 0,
        fft_size >= 0,
        band.0 * fft_size >= (frame.len() - 1) * sample_rate,
    ensures
        !band_is_live(band, sample_rate, fft_size, frame.len() as int),
        band_energy_of(frame, band, sample_rate, fft_size) == 0,
{
    let last = frame.len() - 1;
    let product = band.0 * fft_size;
    assert(product / sample_rate >= last) by (nonlinear_arith)
        requires
            product >= last * sample_rate,
            sample_rate > 0,
    ;
}

/// A band that lies entirely above the Nyquist frequency is silent in a frame
/// that ends at the Nyquist bin, that is, one of at most `fft_size / 2 + 1`
/// bins.
pub proof fn lemma_band_above_nyquist_is_silent(
    frame: Seq<u64>,
    band: BandRange,
    sample_rate: int,
    fft_size: int,
)
    requires
        sample_rate > 0,
        fft_size >= 0,
        2 * band.0 >= sample_rate,
        2 * (frame.len() - 1) <= fft_size,
    ensures
        band_energy_of(frame, band, sample_rate, fft_size) == 0,
{
    let last = frame.len() - 1;
    assert(band.0 * fft_size >= last * sample_rate) by (nonlinear_arith)
        requires
            2 * band.0 >= sample_rate,
            2 * last <= fft_size,
            sample_rate > 0,
            fft_size >= 0,
            band.0 >= 0,
    ;
    lemma_band_beyond_frame_is_silent(frame, band, sample_rate, fft_size);
}

/// The reference table is in ascending order without overlap, and lies within
/// the Nyquist frequency of every sample rate from 32 kHz on.
pub proof fn lemma_reference_bands_in_order(sample_rate: int)
    ensures
        reference_bands().len() == BAND_COUNT,
        bands_ascending(reference_bands()),
        sample_rate >= 32000 ==> bands_within_nyquist(reference_bands(), sample_rate),
{
    let b = reference_bands();
    assert(b[0] == BandRange(20, 31));
    assert(b[1] == BandRange(31, 63));
    assert(b[2] == BandRange(63, 125));
    assert(b[3] == BandRange(125, 250));
    assert(b[4] == BandRange(250, 500));
    assert(b[5] == BandRange(500, 1000));
    assert(b[6] == BandRange(1000, 2000));
    assert(b[7] == BandRange(2000, 4000));
    assert(b[8] == BandRange(4000, 8000));
    assert(b[9] == BandRange(8000, 16000));
}

} // verus!
