//! Which allocations are sampled.

use crate::config::{TracerConfig, SAMPLING_RATE_ONE};
use crate::origin::Origin;
use vstd::prelude::*;

verus! {

/// How often allocations are sampled where sampling goes by chance.
#[derive(Debug, Clone, Copy, PartialEq, Eq, Structural)]
pub enum SamplingRate {
    All,
    /// A rate between zero and one, in the units of [`SAMPLING_RATE_ONE`].
    Fraction(u64),
    Nothing,
}

/// Sampling by the number of bytes allocated.
#[derive(Debug, Clone, Copy, PartialEq, Eq, Structural)]
pub struct SamplingBytes {
    pub interval: u64,
    pub next_sample: u64,
    pub total_observed: u64,
}

/// How allocations are chosen. Where `bytes` is set, it alone decides.
#[derive(Debug, Clone, Copy, PartialEq, Eq, Structural)]
pub struct SamplingState {
    pub bytes: Option<SamplingBytes>,
    pub rate: SamplingRate,
}

impl SamplingBytes {
    /// Nothing observed yet; the first sample is due after one interval.
    pub open spec fn initial(interval: u64) -> SamplingBytes {
        SamplingBytes { interval, next_sample: interval, total_observed: 0 }
    }

    pub open spec fn wf(self) -> bool {
        self.interval > 0
    }

    /// The number of bytes observed once the given number is added.
    pub open spec fn total_with(self, size: usize) -> u64 {
        self.total_observed.saturating_add(size as u64)
    }

    /// Whether an allocation of the given size is sampled.
    pub open spec fn samples(self, size: usize) -> bool {
        size > 0 && self.total_with(size) >= self.next_sample
    }

    /// The state once an allocation of the given size has been observed.
    pub open spec fn observe(self, size: usize) -> SamplingBytes {
        if size == 0 {
            self
        } else {
            SamplingBytes {
                interval: self.interval,
                next_sample: if self.samples(size) {
                    self.next_sample.saturating_add(self.interval)
                } else {
                    self.next_sample
                },
                total_observed: self.total_observed.wrapping_add(size as u64),
            }
        }
    }

    pub fn new(interval: u64) -> (bytes: Self)
        requires
            interval > 0,
        ensures
            bytes.wf(),
            bytes == SamplingBytes::initial(interval),
    {
        SamplingBytes { interval, next_sample: interval, total_observed: 0 }
    }

    pub fn should_sample(&mut self, size: usize) -> (sampled: bool)
        requires
            old(self).wf(),
        ensures
            final(self).wf(),
            sampled == old(self).samples(size),
            *final(self) == old(self).observe(size),
    {
        if size == 0 {
            return false;
        }
        let size: u64 = size as u64;
        let previous: u64 = self.total_observed;
        self.total_observed = previous.wrapping_add(size);
        let total: u64 = previous.saturating_add(size);
        if total < self.next_sample {
            return false;
        }
        self.next_sample = self.next_sample.saturating_add(self.interval);
        true
    }
}

/// `fastrand::u64` over the full range: a number drawn by chance. All that can
/// be said of it is that it was drawn.
#[verifier::external_body]
fn draw_number() -> (number: u64)
    ensures
        Origin::drawn(number),
{
    fastrand::u64(..)
}

impl SamplingState {
    /// How a configuration asks for allocations to be chosen.
    pub open spec fn initial(config: TracerConfig) -> SamplingState {
        match config.sampling_bytes {
            Some(interval) if interval > 0 => SamplingState {
                bytes: Some(SamplingBytes::initial(interval)),
                rate: SamplingRate::All,
            },
            _ => SamplingState {
                bytes: None,
                rate: if config.sampling_rate == 0 {
                    SamplingRate::Nothing
                } else if config.sampling_rate >= SAMPLING_RATE_ONE {
                    SamplingRate::All
                } else {
                    SamplingRate::Fraction(config.sampling_rate)
                },
            },
        }
    }

    pub open spec fn wf(self) -> bool {
        self.bytes matches Some(bytes) ==> bytes.wf()
    }

    /// Whether some allocations may go unsampled.
    pub open spec fn enabled(self) -> bool {
        self.bytes is Some || self.rate != SamplingRate::All
    }

    /// Whether chance decides.
    pub open spec fn by_chance(self) -> bool {
        self.bytes is None && self.rate is Fraction
    }

    /// Whether a drawn number lies below a rate. Of a number, the upper 63
    /// bits count.
    pub open spec fn below(number: u64, rate: u64) -> bool {
        number / 2 < rate
    }

    /// Whether an allocation of the given size is sampled, given the number
    /// that is drawn.
    pub open spec fn samples(self, size: usize, number: u64) -> bool {
        match self.bytes {
            Some(bytes) => bytes.samples(size),
            None => match self.rate {
                SamplingRate::All => true,
                SamplingRate::Nothing => false,
                SamplingRate::Fraction(rate) => Self::below(number, rate),
            },
        }
    }

    /// The state once an allocation of the given size has been decided on.
    pub open spec fn observe(self, size: usize) -> SamplingState {
        match self.bytes {
            Some(bytes) => SamplingState { bytes: Some(bytes.observe(size)), ..self },
            None => self,
        }
    }

    #[must_use]
    pub fn is_enabled(&self) -> (enabled: bool)
        ensures
            enabled == self.enabled(),
    {
        match self.bytes {
            Some(_) => true,
            None => match self.rate {
                SamplingRate::All => false,
                _ => true,
            },
        }
    }

    #[must_use]
    pub fn new(config: &TracerConfig) -> (state: Self)
        ensures
            state.wf(),
            state == SamplingState::initial(*config),
    {
        let bytes: Option<SamplingBytes> = match config.sampling_bytes {
            Some(interval) => {
                if interval > 0 {
                    Some(SamplingBytes::new(interval))
                } else {
                    None
                }
            },
            None => None,
        };
        let rate = if bytes.is_some() {
            SamplingRate::All
        } else if config.sampling_rate == 0 {
            SamplingRate::Nothing
        } else if config.sampling_rate >= SAMPLING_RATE_ONE {
            SamplingRate::All
        } else {
            SamplingRate::Fraction(config.sampling_rate)
        };
        SamplingState { bytes, rate }
    }

    /// Whether an allocation of the given size is sampled. Draws a number
    /// where chance decides.
    pub fn should_sample(&mut self, size: usize) -> (sampled: bool)
        requires
            old(self).wf(),
        ensures
            final(self).wf(),
            exists|number: u64|
                {
                    &&& old(self).by_chance() ==> Origin::drawn(number)
                    &&& sampled == #[trigger] old(self).samples(size, number)
                },
            old(self).bytes is None && old(self).rate is Fraction ==> exists|number: u64| #[trigger]
                Origin::drawn(number) && (sampled <==> number / 2 < old(self).rate->Fraction_0),
            *final(self) == old(self).observe(size),
    {
        let number: u64 = match self.bytes {
            Some(_) => 0,
            None => match self.rate {
                SamplingRate::Fraction(_) => draw_number(),
                _ => 0,
            },
        };
        let sampled: bool = self.should_sample_at(size, number);
        assert(sampled == old(self).samples(size, number));
        sampled
    }

    /// Whether an allocation of the given size is sampled, given the number
    /// that is drawn.
    pub fn should_sample_at(&mut self, size: usize, number: u64) -> (sampled: bool)
        requires
            old(self).wf(),
        ensures
            final(self).wf(),
            sampled == old(self).samples(size, number),
            *final(self) == old(self).observe(size),
    {
        match self.bytes {
            Some(bytes) => {
                let mut bytes = bytes;
                let sampled: bool = bytes.should_sample(size);
                self.bytes = Some(bytes);
                sampled
            },
            None => match self.rate {
                SamplingRate::All => true,
                SamplingRate::Nothing => false,
                SamplingRate::Fraction(rate) => number / 2 < rate,
            },
        }
    }
}

impl SamplingBytes {
    /// The state once all the sizes have been observed.
    pub open spec fn observe_all(self, sizes: Seq<usize>) -> SamplingBytes
        decreases sizes.len(),
    {
        if sizes.len() == 0 {
            self
        } else {
            self.observe_all(sizes.drop_last()).observe(sizes.last())
        }
    }

    /// How many of the sizes are sampled.
    pub open spec fn count(self, sizes: Seq<usize>) -> nat
        decreases sizes.len(),
    {
        if sizes.len() == 0 {
            0
        } else {
            self.count(sizes.drop_last()) + (if self.observe_all(sizes.drop_last()).samples(
                sizes.last(),
            ) {
                1nat
            } else {
                0
            })
        }
    }

    /// The bytes of all the sizes.
    pub open spec fn sum(sizes: Seq<usize>) -> nat
        decreases sizes.len(),
    {
        if sizes.len() == 0 {
            0
        } else {
            Self::sum(sizes.drop_last()) + sizes.last() as nat
        }
    }
}

/// Where sampling by bytes stands after the sizes: the next sample is due when
/// one more whole interval has been observed than samples were taken.
proof fn lemma_next_sample(interval: u64, sizes: Seq<usize>)
    requires
        interval > 0,
        SamplingBytes::sum(sizes) <= u64::MAX,
    ensures
        ({
            let start = SamplingBytes::initial(interval);
            let state = start.observe_all(sizes);
            let due = (start.count(sizes) + 1) * interval;
            &&& state.interval == interval
            &&& state.total_observed == SamplingBytes::sum(sizes)
            &&& state.next_sample == if due > u64::MAX {
                u64::MAX as int
            } else {
                due
            }
        }),
    decreases sizes.len(),
{
    let start = SamplingBytes::initial(interval);
    if sizes.len() == 0 {
        assert((start.count(sizes) + 1) * interval == interval) by (nonlinear_arith)
            requires
                start.count(sizes) == 0,
        ;
    } else {
        let rest = sizes.drop_last();
        lemma_next_sample(interval, rest);
        let n = start.count(rest);
        assert((n + 1) * interval + interval == (n + 1 + 1) * interval) by (nonlinear_arith);
        assert(0 <= (n + 1) * interval) by (nonlinear_arith);
    }
}

/// Sampling by bytes catches up with the bytes: after any allocations, the
/// next one is sampled exactly where it is not empty and more whole intervals
/// of bytes have been observed with it than samples were taken before.
pub proof fn law_samples_catch_up_with_the_bytes(interval: u64, sizes: Seq<usize>, size: usize)
    requires
        interval > 0,
        SamplingBytes::sum(sizes) + size < u64::MAX,
    ensures
        SamplingBytes::initial(interval).observe_all(sizes).samples(size) <==> size > 0 && (
        SamplingBytes::sum(sizes) + size) / interval as int > SamplingBytes::initial(
            interval,
        ).count(sizes),
{
    lemma_next_sample(interval, sizes);
    let n = SamplingBytes::initial(interval).count(sizes) as int;
    let total = SamplingBytes::sum(sizes) + size;
    let due = (n + 1) * interval;
    assert(total >= due <==> total / interval as int > n) by (nonlinear_arith)
        requires
            interval > 0,
            due == (n + 1) * interval,
            total >= 0,
            n >= 0,
    ;
}

/// As long as no allocation is larger than the interval, there is one sample
/// for each whole interval of bytes allocated.
pub proof fn law_one_sample_per_interval(interval: u64, sizes: Seq<usize>)
    requires
        interval > 0,
        forall|i: int| 0 <= i < sizes.len() ==> #[trigger] sizes[i] <= interval,
        SamplingBytes::sum(sizes) < u64::MAX,
    ensures
        SamplingBytes::initial(interval).count(sizes) == SamplingBytes::sum(sizes) as int
            / interval as int,
    decreases sizes.len(),
{
    if sizes.len() == 0 {
        assert(0int / interval as int == 0) by (nonlinear_arith)
            requires
                interval > 0,
        ;
    } else {
        let rest = sizes.drop_last();
        let size = sizes.last();
        assert forall|i: int| 0 <= i < rest.len() implies #[trigger] rest[i] <= interval by {
            assert(rest[i] == sizes[i]);
        }
        assert(sizes[sizes.len() - 1] <= interval);
        law_one_sample_per_interval(interval, rest);
        law_samples_catch_up_with_the_bytes(interval, rest, size);
        let before = SamplingBytes::sum(rest) as int;
        assert(before / interval as int <= (before + size) / interval as int <= before
            / interval as int + 1) by (nonlinear_arith)
            requires
                interval > 0,
                0 <= before,
                0 <= size <= interval,
        ;
    }
}

/// A rate of zero samples nothing and a rate of one samples everything,
/// whatever numbers are drawn.
pub proof fn law_rates_at_the_ends(config: TracerConfig, size: usize, number: u64)
    requires
        config.sampling_bytes is None || config.sampling_bytes == Some(0u64),
    ensures
        config.sampling_rate == 0 ==> !SamplingState::initial(config).samples(size, number),
        config.sampling_rate == SAMPLING_RATE_ONE ==> SamplingState::initial(config).samples(
            size,
            number,
        ),
        config.sampling_rate == SAMPLING_RATE_ONE <==> !SamplingState::initial(config).enabled()
            && config.sampling_rate <= SAMPLING_RATE_ONE,
{
}

/// A rate between zero and one samples by the number that is drawn alone: of
/// all numbers, the lowest are sampled, and they make up as large a part as the
/// rate says. Nothing is remembered from one allocation to the next.
pub proof fn law_rates_are_the_part_that_is_sampled(config: TracerConfig, size: usize, number: u64)
    requires
        config.sampling_bytes is None || config.sampling_bytes == Some(0u64),
        config.sampling_rate <= SAMPLING_RATE_ONE,
    ensures
        SamplingState::initial(config).samples(size, number) <==> (number as int) < 2
            * config.sampling_rate,
        SamplingState::initial(config).by_chance() <==> 0 < config.sampling_rate
            < 0x8000_0000_0000_0000,
        SamplingState::initial(config).observe(size) == SamplingState::initial(config),
        2 * SAMPLING_RATE_ONE == u64::MAX + 1,
{
}

/// Some allocations may go unsampled exactly where sampling by bytes is asked
/// for or the rate is below one.
pub proof fn law_sampling_is_enabled_where_asked_for(config: TracerConfig)
    ensures
        SamplingState::initial(config).enabled() <==> (config.sampling_bytes matches Some(interval)
            && 0 < interval) || config.sampling_rate < 0x8000_0000_0000_0000,
{
}

/// One step of sampling by bytes: an allocation is sampled where it is not
/// empty and the bytes observed with it reach the mark; the mark then moves on
/// by one interval, and stops at the largest number. The bytes observed are
/// counted whether the allocation is sampled or not.
pub proof fn law_samples_are_taken_at_the_mark(
    bytes: SamplingBytes,
    size: usize,
    rate: SamplingRate,
    number: u64,
)
    ensures
        ({
            let state = SamplingState { bytes: Some(bytes), rate };
            let after = state.observe(size);
            let next = bytes.next_sample + bytes.interval;
            let observed = bytes.total_observed + size;
            &&& state.samples(size, number) <==> size > 0 && (observed >= bytes.next_sample
                || observed > u64::MAX)
            &&& after.rate == rate
            &&& after.bytes matches Some(later) && {
                &&& later.interval == bytes.interval
                &&& later.total_observed == observed || later.total_observed == observed - u64::MAX
                    - 1
                &&& !state.samples(size, number) ==> later.next_sample == bytes.next_sample
                &&& state.samples(size, number) && next <= u64::MAX ==> later.next_sample == next
                &&& state.samples(size, number) && next > u64::MAX ==> later.next_sample
                    == u64::MAX
            }
        }),
{
}

/// Sampling by bytes starts with nothing observed and the mark at one interval.
pub proof fn law_the_first_mark_is_one_interval(config: TracerConfig, interval: u64)
    requires
        config.sampling_bytes == Some(interval),
        0 < interval,
    ensures
        SamplingState::initial(config).bytes matches Some(bytes) && bytes.interval == interval
            && bytes.next_sample == interval && bytes.total_observed == 0,
{
}

/// Where sampling by bytes is asked for, the rate does not matter.
pub proof fn law_bytes_take_precedence(config: TracerConfig, rate: u64)
    requires
        config.sampling_bytes matches Some(interval) && interval > 0,
    ensures
        SamplingState::initial(config) == SamplingState::initial(
            (TracerConfig { sampling_rate: rate, ..config }),
        ),
{
}

} // verus!
