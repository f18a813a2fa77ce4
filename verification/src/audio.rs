//! The pipeline state: the signal with its read cursor, the latest spectrum
//! frame, and the smoothed band intensities and level.
//!
//! A tick has two halves, with the transform of the window between them.
//! `next_window` hands out the window to transform and moves the cursor on;
//! `apply_frame` takes the magnitudes of the transformed window, maps them
//! to band energies and smooths the bands and the level toward them.

use vstd::prelude::*;
use crate::bands::{BandRange, BarValue, BAND_COUNT, reference_bands, reference_band_table,
    band_energy_of, band_energy};
use crate::config::{AnalysisConfig, ConfigurationError, default_config,
    lemma_default_config_valid};
use crate::cursor::{window_start, next_position, position_after, wrap_period,
    lemma_window_in_bounds, lemma_cursor_closed_form};
use crate::fixed::ONE;
use crate::decode::DEFAULT_SAMPLE_RATE;
use crate::smoother::{blend, clamp_unit, distance, level_target_of, smooth, level_target,
    lemma_blend_between};

verus! {

/// The state of the analysis pipeline over samples of type `T`.
pub struct AudioData<T> {
    samples: Vec<T>,
    position: usize,
    fft: Vec<u64>,
    config: AnalysisConfig,
    sample_rate: u32,
    level: u64,
    bands: Vec<BandRange>,
    bars: Vec<BarValue>,
}

/// The mathematical model of the pipeline state.
#[verifier::ext_equal]
pub struct AudioView<T> {
    /// The mono signal.
    pub samples: Seq<T>,
    /// The read cursor into the signal.
    pub position: int,
    /// The latest spectrum frame: one magnitude per bin, or empty before the
    /// first frame.
    pub fft: Seq<u64>,
    /// The configuration the pipeline was built with.
    pub config: AnalysisConfig,
    /// The sample rate of the signal, in hertz.
    pub sample_rate: int,
    /// The smoothed level.
    pub level: int,
    /// The smoothed intensity of each reference band, in band order.
    pub bars: Seq<int>,
}

impl<T> AudioView<T> {
    /// The state of a pipeline that has seen no signal yet.
    pub open spec fn initial(config: AnalysisConfig) -> Self {
        AudioView {
            samples: Seq::empty(),
            position: 0,
            fft: Seq::empty(),
            config,
            sample_rate: DEFAULT_SAMPLE_RATE as int,
            level: 0,
            bars: Seq::new(BAND_COUNT as nat, |i: int| 0int),
        }
    }

    /// The invariant of the pipeline state: a valid configuration, a signal
    /// that is empty or holds at least one window, the cursor inside the
    /// signal, a frame that is absent or has one magnitude per sample of the
    /// window, and one intensity per reference band.
    pub open spec fn valid(self) -> bool {
        &&& self.config.valid()
        &&& self.samples.len() == 0 || self.samples.len() >= self.config.fft_size
        &&& self.samples.len() == 0 ==> self.position == 0
        &&& self.samples.len() > 0 ==> 0 <= self.position < self.samples.len()
        &&& self.fft.len() == 0 || self.fft.len() == self.config.fft_size
        &&& self.bars.len() == BAND_COUNT
    }

    /// The signal can be taken: it is empty or holds at least one window.
    pub open spec fn accepts(self, samples: Seq<T>) -> bool {
        samples.len() == 0 || samples.len() >= self.config.fft_size
    }

    /// The state after a new signal has been taken: the cursor is back at the
    /// start, the frame and the smoothed values stay.
    pub open spec fn loaded(self, samples: Seq<T>, sample_rate: int) -> Self {
        AudioView { samples, position: 0, sample_rate, ..self }
    }

    /// Where the window of the next tick starts.
    pub open spec fn window_start(self) -> int {
        window_start(self.position, self.config.fft_size as int, self.samples.len() as int)
    }

    /// The window of the next tick.
    pub open spec fn window(self) -> Seq<T> {
        self.samples.subrange(self.window_start(), self.window_start() + self.config.fft_size)
    }

    /// The state after the window of a tick has been handed out: the cursor
    /// has moved one hop past the start of that window.
    pub open spec fn advanced(self) -> Self {
        AudioView {
            position: next_position(
                self.position,
                self.config.fft_size as int,
                self.config.hop_size as int,
                self.samples.len() as int,
            ),
            ..self
        }
    }

    /// The state after the windows of `ticks` ticks have been handed out.
    pub open spec fn advanced_by(self, ticks: nat) -> Self
        decreases ticks,
    {
        if ticks == 0 {
            self
        } else {
            self.advanced_by((ticks - 1) as nat).advanced()
        }
    }

    /// The raw energy of reference band `i` in `frame`.
    pub open spec fn band_target(self, frame: Seq<u64>, i: int) -> int {
        band_energy_of(frame, reference_bands()[i], self.sample_rate, self.config.fft_size as int)
    }

    /// The raw target of the level for `frame`: the compressed mean energy
    /// of the level band.
    pub open spec fn level_target(self, frame: Seq<u64>) -> int {
        level_target_of(
            band_energy_of(
                frame,
                self.config.level_band,
                self.sample_rate,
                self.config.fft_size as int,
            ),
            self.config.level_normalization as int,
            self.config.level_cap as int,
        )
    }

    /// The state after a frame has been applied with the blend factor
    /// `alpha`: the frame replaces the one before, and each band and the level
    /// move toward their raw targets.
    pub open spec fn with_frame(self, frame: Seq<u64>, alpha: int) -> Self {
        AudioView {
            fft: frame,
            level: blend(self.level, self.level_target(frame), alpha),
            bars: Seq::new(
                BAND_COUNT as nat,
                |i: int| blend(self.bars[i], self.band_target(frame, i), alpha),
            ),
            ..self
        }
    }
}

/// The first half of a tick keeps the invariant: the window it hands out
/// lies inside the signal and has the length of the analysis window, and the
/// cursor stays inside the signal.
pub proof fn lemma_window_keeps_state_valid<T>(state: AudioView<T>)
    requires
        state.valid(),
        state.samples.len() > 0,
    ensures
        0 <= state.window_start() <= state.samples.len() - state.config.fft_size,
        state.window().len() == state.config.fft_size,
        state.advanced().valid(),
{
    lemma_window_in_bounds(
        state.position,
        state.config.fft_size as int,
        state.config.hop_size as int,
        state.samples.len() as int,
    );
}

/// Over any number of ticks the cursor follows the wrap rule and nothing
/// else changes: the state stays valid, every window lies inside the signal,
/// and a cursor that started at the beginning of the signal stands at
/// `((ticks - 1) mod period + 1) * hop` after `ticks >= 1` ticks.
pub proof fn lemma_cursor_over_ticks<T>(state: AudioView<T>, ticks: nat)
    requires
        state.valid(),
        state.samples.len() > 0,
    ensures
        state.advanced_by(ticks).valid(),
        state.advanced_by(ticks) == (AudioView {
            position: position_after(
                state.position,
                state.config.fft_size as int,
                state.config.hop_size as int,
                state.samples.len() as int,
                ticks,
            ),
            ..state
        }),
        0 <= state.advanced_by(ticks).window_start() <= state.samples.len()
            - state.config.fft_size,
        state.position == 0 && ticks >= 1 ==> state.advanced_by(ticks).position == ((ticks - 1)
            % wrap_period(
            state.config.fft_size as int,
            state.config.hop_size as int,
            state.samples.len() as int,
        ) + 1) * state.config.hop_size,
    decreases ticks,
{
    if ticks > 0 {
        let before = (ticks - 1) as nat;
        lemma_cursor_over_ticks(state, before);
        lemma_window_keeps_state_valid(state.advanced_by(before));
        if state.position == 0 {
            lemma_cursor_closed_form(
                state.config.fft_size as int,
                state.config.hop_size as int,
                state.samples.len() as int,
                ticks,
            );
        }
    }
    lemma_window_keeps_state_valid(state.advanced_by(ticks));
}

/// The second half of a tick keeps the invariant for a frame with one
/// magnitude per sample of the window, and never moves a band or the level
/// past its raw target.
pub proof fn lemma_frame_keeps_state_valid<T>(state: AudioView<T>, frame: Seq<u64>, alpha: int)
    requires
        state.valid(),
        frame.len() == state.config.fft_size,
        0 <= alpha <= ONE,
    ensures
        state.with_frame(frame, alpha).valid(),
        state.with_frame(frame, alpha).fft == frame,
        distance(state.level_target(frame), state.with_frame(frame, alpha).level) <= distance(
            state.level_target(frame),
            state.level,
        ),
        forall|i: int|
            0 <= i < BAND_COUNT ==> distance(
                state.band_target(frame, i),
                #[trigger] state.with_frame(frame, alpha).bars[i],
            ) <= distance(state.band_target(frame, i), state.bars[i]),
{
    lemma_blend_between(state.level, state.level_target(frame), alpha);
    assert forall|i: int| 0 <= i < BAND_COUNT implies distance(
        state.band_target(frame, i),
        #[trigger] state.with_frame(frame, alpha).bars[i],
    ) <= distance(state.band_target(frame, i), state.bars[i]) by {
        lemma_blend_between(state.bars[i], state.band_target(frame, i), alpha);
    }
}

impl<T> View for AudioData<T> {
    type V = AudioView<T>;

    closed spec fn view(&self) -> AudioView<T> {
        AudioView {
            samples: self.samples@,
            position: self.position as int,
            fft: self.fft@,
            config: self.config,
            sample_rate: self.sample_rate as int,
            level: self.level as int,
            bars: Seq::new(self.bars@.len(), |i: int| self.bars@[i].0 as int),
        }
    }
}

impl<T> AudioData<T> {
    #[verifier::type_invariant]
    spec fn inv(&self) -> bool {
        self@.valid() && self.bands@ == reference_bands()
    }

    fn with_valid_config(config: AnalysisConfig) -> (audio: Self)
        requires
            config.valid(),
        ensures
            audio@ == AudioView::<T>::initial(config),
    {
        let mut bars: Vec<BarValue> = Vec::new();
        let mut i: usize = 0;
        while i < BAND_COUNT
            invariant
                i <= BAND_COUNT,
                bars@.len() == i,
                forall|j: int| 0 <= j < i ==> (#[trigger] bars@[j]).0 == 0,
            decreases BAND_COUNT - i,
        {
            bars.push(BarValue(0));
            i = i + 1;
        }
        let audio = AudioData {
            samples: Vec::new(),
            position: 0,
            fft: Vec::new(),
            config,
            sample_rate: DEFAULT_SAMPLE_RATE,
            level: 0,
            bands: reference_band_table(),
            bars,
        };
        assert(audio@.bars =~= AudioView::<T>::initial(config).bars);
        audio
    }

    /// A pipeline with the given configuration and no signal yet: the cursor
    /// at the start, no frame, and all intensities and the level at zero. An
    /// invalid configuration is refused with the error of its check.
    pub fn new(config: AnalysisConfig) -> (built: Result<Self, ConfigurationError>)
        ensures
            built is Ok <==> config.valid(),
            built matches Ok(audio) ==> audio@ == AudioView::<T>::initial(config),
            built matches Err(e) ==> config.validation() == Err::<(), ConfigurationError>(e),
    {
        match config.validate() {
            Ok(()) => Ok(Self::with_valid_config(config)),
            Err(e) => Err(e),
        }
    }

    /// Takes a decoded signal and its sample rate and puts the cursor at the
    /// start. A signal that is not empty and shorter than one window is
    /// refused, and nothing changes.
    pub fn load(&mut self, samples: Vec<T>, sample_rate: u32) -> (taken: Result<
        (),
        ConfigurationError,
    >)
        ensures
            taken is Ok <==> old(self)@.accepts(samples@),
            taken is Ok ==> final(self)@ == old(self)@.loaded(samples@, sample_rate as int),
            taken is Err ==> taken == Err::<(), ConfigurationError>(
                ConfigurationError::SignalShorterThanWindow,
            ) && final(self)@ == old(self)@,
            final(self)@.valid(),
    {
        proof {
            use_type_invariant(&*self);
        }
        if samples.len() != 0 && samples.len() < self.config.fft_size {
            return Err(ConfigurationError::SignalShorterThanWindow);
        }
        self.position = 0;
        self.samples = samples;
        self.sample_rate = sample_rate;
        Ok(())
    }

    /// Takes the magnitudes of the transformed window as the new spectrum
    /// frame and smooths the bands and the level toward their raw targets,
    /// with the blend factor `raw_alpha` clamped into `[0, 1]`. A frame that
    /// has not one magnitude per sample of the window is refused, and nothing
    /// changes.
    pub fn apply_frame(&mut self, magnitudes: Vec<u64>, raw_alpha: i64) -> (applied: Result<
        (),
        ConfigurationError,
    >)
        ensures
            applied is Ok <==> magnitudes@.len() == old(self)@.config.fft_size,
            applied is Ok ==> final(self)@ == old(self)@.with_frame(
                magnitudes@,
                clamp_unit(raw_alpha as int),
            ),
            applied is Err ==> applied == Err::<(), ConfigurationError>(
                ConfigurationError::FrameLengthMismatch,
            ) && final(self)@ == old(self)@,
            final(self)@.valid(),
    {
        proof {
            use_type_invariant(&*self);
        }
        if magnitudes.len() != self.config.fft_size {
            return Err(ConfigurationError::FrameLengthMismatch);
        }
        let ghost before = self@;
        let ghost alpha = clamp_unit(raw_alpha as int);
        let mut bars: Vec<BarValue> = Vec::new();
        let mut i: usize = 0;
        while i < BAND_COUNT
            invariant
                i <= BAND_COUNT,
                bars@.len() == i,
                self.bars@.len() == BAND_COUNT,
                self.bands@ == reference_bands(),
                before == self@,
                alpha == clamp_unit(raw_alpha as int),
                forall|j: int|
                    0 <= j < i ==> (#[trigger] bars@[j]).0 == blend(
                        before.bars[j],
                        before.band_target(magnitudes@, j),
                        alpha,
                    ),
            decreases BAND_COUNT - i,
        {
            let energy: u64 = band_energy(
                &magnitudes,
                self.bands[i],
                self.sample_rate,
                self.config.fft_size,
            );
            bars.push(BarValue(smooth(self.bars[i].0, energy, raw_alpha)));
            i = i + 1;
        }
        let level_energy: u64 = band_energy(
            &magnitudes,
            self.config.level_band,
            self.sample_rate,
            self.config.fft_size,
        );
        let target: u64 = level_target(
            level_energy,
            self.config.level_normalization,
            self.config.level_cap,
        );
        let level: u64 = smooth(self.level, target, raw_alpha);
        self.fft = magnitudes;
        self.level = level;
        self.bars = bars;
        assert(self@.bars =~= before.with_frame(magnitudes@, alpha).bars);
        Ok(())
    }

    /// The read cursor.
    pub fn position(&self) -> (position: usize)
        ensures
            position == self@.position,
    {
        self.position
    }

    /// The number of samples in the analysis window.
    pub fn fft_size(&self) -> (fft_size: usize)
        ensures
            fft_size == self@.config.fft_size,
    {
        self.config.fft_size
    }

    /// The sample rate of the signal, in hertz.
    pub fn sample_rate(&self) -> (sample_rate: u32)
        ensures
            sample_rate == self@.sample_rate,
    {
        self.sample_rate
    }

    /// The smoothed level.
    pub fn level(&self) -> (level: u64)
        ensures
            level == self@.level,
    {
        self.level
    }

    /// The configuration the pipeline was built with.
    pub fn config(&self) -> (config: AnalysisConfig)
        ensures
            config == self@.config,
            config.valid(),
    {
        proof {
            use_type_invariant(self);
        }
        self.config
    }

    /// The signal.
    pub fn samples(&self) -> (samples: &Vec<T>)
        ensures
            samples@ == self@.samples,
    {
        &self.samples
    }

    /// The latest spectrum frame, empty before the first.
    pub fn fft(&self) -> (frame: &Vec<u64>)
        ensures
            frame@ == self@.fft,
    {
        &self.fft
    }

    /// What a display reads after a tick: for each reference band, in
    /// ascending order, its lower edge, its upper edge and its smoothed
    /// intensity.
    pub fn bars(&self) -> (bars: Vec<(u32, u32, u64)>)
        ensures
            bars@.len() == BAND_COUNT,
            forall|i: int|
                0 <= i < BAND_COUNT ==> (#[trigger] bars@[i]).0 == reference_bands()[i].0
                    && bars@[i].1 == reference_bands()[i].1 && bars@[i].2 == self@.bars[i],
    {
        proof {
            use_type_invariant(self);
        }
        let mut bars: Vec<(u32, u32, u64)> = Vec::new();
        let mut i: usize = 0;
        while i < BAND_COUNT
            invariant
                i <= BAND_COUNT,
                bars@.len() == i,
                self.bars@.len() == BAND_COUNT,
                self.bands@ == reference_bands(),
                self.bands@.len() == BAND_COUNT,
                forall|j: int|
                    0 <= j < i ==> (#[trigger] bars@[j]).0 == reference_bands()[j].0
                        && bars@[j].1 == reference_bands()[j].1 && bars@[j].2 == self@.bars[j],
            decreases BAND_COUNT - i,
        {
            let band: BandRange = self.bands[i];
            bars.push((band.0, band.1, self.bars[i].0));
            i = i + 1;
        }
        bars
    }
}

impl<T: Copy> AudioData<T> {
    /// The first half of a tick: hands out the window to transform and moves
    /// the cursor on by the hop. A cursor whose window would reach the end of
    /// the signal goes back to the start first. With an empty signal there is
    /// no window and nothing changes.
    pub fn next_window(&mut self) -> (window: Option<Vec<T>>)
        ensures
            window is Some <==> old(self)@.samples.len() > 0,
            window is None ==> final(self)@ == old(self)@,
            window matches Some(w) ==> w@ == old(self)@.window() && w@.len() == old(
                self,
            )@.config.fft_size && final(self)@ == old(self)@.advanced(),
            final(self)@.valid(),
    {
        proof {
            use_type_invariant(&*self);
        }
        let len: usize = self.samples.len();
        if len == 0 {
            return None;
        }
        let fft_size: usize = self.config.fft_size;
        let start: usize = if fft_size >= len - self.position {
            0
        } else {
            self.position
        };
        let mut window: Vec<T> = Vec::new();
        let mut i: usize = 0;
        while i < fft_size
            invariant
                i <= fft_size,
                start + fft_size <= len,
                len == self.samples@.len(),
                window@ == self.samples@.subrange(start as int, start + i),
            decreases fft_size - i,
        {
            window.push(self.samples[start + i]);
            assert(window@ =~= self.samples@.subrange(start as int, start + i + 1));
            i = i + 1;
        }
        self.position = start + self.config.hop_size;
        Some(window)
    }
}

impl<T> Default for AudioData<T> {
    /// The pipeline of the default configuration, with no signal yet.
    fn default() -> (audio: Self)
        ensures
            audio@ == AudioView::<T>::initial(default_config()),
    {
        proof {
            lemma_default_config_valid();
        }
        Self::with_valid_config(AnalysisConfig::default())
    }
}

} // verus!
