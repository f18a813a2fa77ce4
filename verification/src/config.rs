//! The configuration of the analysis, fixed when the pipeline is built.

use vstd::prelude::*;
use vstd::arithmetic::power2::is_pow2;
use crate::bands::BandRange;

verus! {

/// Why a pipeline cannot be built, or a signal or a frame not be taken.
#[derive(Clone, Copy, Debug, PartialEq, Eq, Structural)]
pub enum ConfigurationError {
    /// The window size is not a power of two of at least 2.
    WindowNotPowerOfTwo,
    /// The hop is not shorter than the window.
    HopNotBelowWindow,
    /// The signal is not empty and shorter than one window.
    SignalShorterThanWindow,
    /// A spectrum frame has not one magnitude per sample of the window.
    FrameLengthMismatch,
}

/// The static configuration of the analysis. Quantities are fixed-point
/// numbers, frequencies are whole hertz.
#[derive(Clone, Copy, Debug, PartialEq, Eq, Structural)]
pub struct AnalysisConfig {
    /// The number of samples in the analysis window.
    pub fft_size: usize,
    /// The number of samples by which the window moves on in each tick.
    pub hop_size: usize,
    /// The smoothing rate `k`, per second.
    pub smoothing_rate: u64,
    /// The frequency range over which the level is measured.
    pub level_band: BandRange,
    /// The divisor of the mean energy under the square root of the level.
    pub level_normalization: u64,
    /// The largest raw target of the level.
    pub level_cap: u64,
}

/// The window size of the default configuration.
pub const DEFAULT_FFT_SIZE: usize = 2048;

/// The hop of the default configuration.
pub const DEFAULT_HOP_SIZE: usize = 512;

/// The smoothing rate of the default configuration: 10 per second.
pub const DEFAULT_SMOOTHING_RATE: u64 = 10_000_000;

/// The level divisor of the default configuration: 10.
pub const DEFAULT_LEVEL_NORMALIZATION: u64 = 10_000_000;

/// The level cap of the default configuration: 5.
pub const DEFAULT_LEVEL_CAP: u64 = 5_000_000;

/// The window size is a power of two of at least 2.
pub open spec fn window_size_ok(fft_size: int) -> bool {
    fft_size >= 2 && is_pow2(fft_size)
}

/// The default configuration: a window of 2048 samples, a hop of 512, the
/// level measured from 20 Hz to 8 kHz.
pub open spec fn default_config() -> AnalysisConfig {
    AnalysisConfig {
        fft_size: DEFAULT_FFT_SIZE,
        hop_size: DEFAULT_HOP_SIZE,
        smoothing_rate: DEFAULT_SMOOTHING_RATE,
        level_band: BandRange(20, 8000),
        level_normalization: DEFAULT_LEVEL_NORMALIZATION,
        level_cap: DEFAULT_LEVEL_CAP,
    }
}

/// Whether `n` is a power of two.
pub fn is_power_of_two(n: usize) -> (yes: bool)
    ensures
        yes == is_pow2(n as int),
{
    if n == 0 {
        assert(!is_pow2(0)) by {
            reveal(is_pow2);
        }
        return false;
    }
    let mut m: usize = n;
    while m % 2 == 0
        invariant
            0 < m <= n,
            is_pow2(m as int) == is_pow2(n as int),
        decreases m,
    {
        assert(is_pow2(m as int) == is_pow2(m as int / 2)) by {
            reveal(is_pow2);
        }
        m = m / 2;
    }
    assert(is_pow2(m as int) == (m == 1)) by {
        reveal(is_pow2);
    }
    m == 1
}

impl AnalysisConfig {
    /// The window size is a power of two of at least 2 and the hop is shorter
    /// than the window.
    pub open spec fn valid(&self) -> bool {
        window_size_ok(self.fft_size as int) && self.hop_size < self.fft_size
    }

    /// The outcome of checking the configuration: the window size is
    /// checked first, then the hop.
    pub open spec fn validation(&self) -> Result<(), ConfigurationError> {
        if !window_size_ok(self.fft_size as int) {
            Err(ConfigurationError::WindowNotPowerOfTwo)
        } else if self.hop_size >= self.fft_size {
            Err(ConfigurationError::HopNotBelowWindow)
        } else {
            Ok(())
        }
    }

    /// Checks the configuration: the window size comes first, then the hop.
    pub fn validate(&self) -> (checked: Result<(), ConfigurationError>)
        ensures
            checked == self.validation(),
            checked is Ok <==> self.valid(),
    {
        if self.fft_size < 2 || !is_power_of_two(self.fft_size) {
            Err(ConfigurationError::WindowNotPowerOfTwo)
        } else if self.hop_size >= self.fft_size {
            Err(ConfigurationError::HopNotBelowWindow)
        } else {
            Ok(())
        }
    }
}

impl Default for AnalysisConfig {
    fn default() -> (config: Self)
        ensures
            config == default_config(),
            config.valid(),
    {
        proof {
            lemma_default_config_valid();
        }
        AnalysisConfig {
            fft_size: DEFAULT_FFT_SIZE,
            hop_size: DEFAULT_HOP_SIZE,
            smoothing_rate: DEFAULT_SMOOTHING_RATE,
            level_band: BandRange(20, 8000),
            level_normalization: DEFAULT_LEVEL_NORMALIZATION,
            level_cap: DEFAULT_LEVEL_CAP,
        }
    }
}

/// The default configuration is valid.
pub proof fn lemma_default_config_valid()
    ensures
        default_config().valid(),
{
    reveal_with_fuel(is_pow2, 13);
    assert(is_pow2(2048));
}

} // verus!
