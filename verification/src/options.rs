//! The arguments with which tracing is started.

use crate::config::{TracerConfig, SAMPLING_RATE_ONE};
use crate::state::TracerBuilder;
use vstd::prelude::*;

verus! {

/// What was given for `sampling`. Rates are in the units of
/// [`SAMPLING_RATE_ONE`].
#[derive(Debug, Clone, Copy, PartialEq, Eq, Structural)]
pub enum SamplingArgument {
    Absent,
    /// A mapping, with what it holds for `rate` and `bytes`.
    Mapping { rate: Option<u64>, bytes: Option<u64> },
    /// A floating-point number.
    Probability(u64),
    /// An integer.
    Interval(u64),
    /// A value of some other type.
    Other,
}

/// What was given for `exporters`.
#[derive(Debug)]
pub enum ExportersArgument {
    Absent,
    Text(String),
    /// An iterable: the text of each item, as far as the item is a text.
    Items(Vec<Option<String>>),
    /// A value of some other type.
    Other,
}

/// Why an argument is refused.
#[derive(Debug, Clone, Copy, PartialEq, Eq, Structural)]
pub enum ArgumentError {
    /// An item of the exporters is no text.
    ExporterItem,
    /// The exporters are neither a text nor an iterable.
    Exporters,
    Sampling,
}

impl ArgumentError {
    /// What is wrong with the argument, in words.
    #[must_use]
    pub fn message(&self) -> (message: &'static str)
        ensures
            message@ == (match *self {
                ArgumentError::ExporterItem => "exporters must be strings or iterables of strings"@,
                ArgumentError::Exporters => "exporters must be a string or iterable of strings"@,
                ArgumentError::Sampling => "sampling must be a float probability, integer byte interval, or mapping with 'rate'/'bytes'"@,
            }),
    {
        match self {
            ArgumentError::ExporterItem => "exporters must be strings or iterables of strings",
            ArgumentError::Exporters => "exporters must be a string or iterable of strings",
            ArgumentError::Sampling => "sampling must be a float probability, integer byte interval, or mapping with 'rate'/'bytes'",
        }
    }
}

/// How allocations are to be sampled.
#[derive(Debug, Clone, Copy, PartialEq, Eq, Structural)]
pub struct SamplingOptions {
    pub rate: Option<u64>,
    pub bytes: Option<u64>,
}

impl Default for SamplingOptions {
    fn default() -> (options: Self)
        ensures
            options == (SamplingOptions { rate: None, bytes: None }),
    {
        SamplingOptions { rate: None, bytes: None }
    }
}

/// What the argument `sampling` asks for.
///
/// # Errors
///
/// Returns an error if the argument has a type that says nothing about
/// sampling.
pub fn parse_sampling(argument: SamplingArgument) -> (options: Result<
    SamplingOptions,
    ArgumentError,
>)
    ensures
        match argument {
            SamplingArgument::Absent => options == Ok::<SamplingOptions, ArgumentError>(
                SamplingOptions { rate: None, bytes: None },
            ),
            SamplingArgument::Mapping { rate, bytes } => options == Ok::<
                SamplingOptions,
                ArgumentError,
            >(SamplingOptions { rate, bytes }),
            SamplingArgument::Probability(rate) => options == Ok::<SamplingOptions, ArgumentError>(
                SamplingOptions { rate: Some(rate), bytes: None },
            ),
            SamplingArgument::Interval(bytes) => options == Ok::<SamplingOptions, ArgumentError>(
                SamplingOptions { rate: None, bytes: Some(bytes) },
            ),
            SamplingArgument::Other => options == Err::<SamplingOptions, ArgumentError>(
                ArgumentError::Sampling,
            ),
        },
{
    let mut options = SamplingOptions::default();
    match argument {
        SamplingArgument::Absent => {},
        SamplingArgument::Mapping { rate, bytes } => {
            options.rate = rate;
            options.bytes = bytes;
        },
        SamplingArgument::Probability(rate) => {
            options.rate = Some(rate);
        },
        SamplingArgument::Interval(bytes) => {
            options.bytes = Some(bytes);
        },
        SamplingArgument::Other => {
            return Err(ArgumentError::Sampling);
        },
    }
    Ok(options)
}

impl ExportersArgument {
    /// Whether every item is a text.
    pub open spec fn all_texts(items: Seq<Option<String>>) -> bool {
        forall|i: int| 0 <= i < items.len() ==> (#[trigger] items[i]) is Some
    }
}

/// The names of the exporters that the argument `exporters` asks for.
///
/// # Errors
///
/// Returns an error if the argument is neither a text nor an iterable of
/// texts.
pub fn parse_exporters(argument: ExportersArgument) -> (names: Result<Vec<String>, ArgumentError>)
    ensures
        match argument {
            ExportersArgument::Absent => names matches Ok(names) && names@.len() == 0,
            ExportersArgument::Text(text) => names matches Ok(names) && names@ == seq![text],
            ExportersArgument::Items(items) => if ExportersArgument::all_texts(items@) {
                names matches Ok(names) && names@ == items@.map_values(
                    |item: Option<String>| item.unwrap(),
                )
            } else {
                names matches Err(error) && error == ArgumentError::ExporterItem
            },
            ExportersArgument::Other => names matches Err(error) && error
                == ArgumentError::Exporters,
        },
{
    match argument {
        ExportersArgument::Absent => Ok(Vec::new()),
        ExportersArgument::Text(text) => {
            let mut names: Vec<String> = Vec::new();
            names.push(text);
            assert(names@ =~= seq![text]);
            Ok(names)
        },
        ExportersArgument::Items(items) => texts_of(items),
        ExportersArgument::Other => Err(ArgumentError::Exporters),
    }
}

fn texts_of(items: Vec<Option<String>>) -> (names: Result<Vec<String>, ArgumentError>)
    ensures
        if ExportersArgument::all_texts(items@) {
            names matches Ok(names) && names@ == items@.map_values(
                |item: Option<String>| item.unwrap(),
            )
        } else {
            names matches Err(error) && error == ArgumentError::ExporterItem
        },
{
    let ghost texts = items@;
    let mut names: Vec<String> = Vec::new();
    for item in iter: items
        invariant
            texts == items@,
            iter.seq() == texts,
            names@.len() == iter.index(),
            forall|j: int| 0 <= j < names@.len() ==> #[trigger] texts[j] == Some(names@[j]),
    {
        match item {
            Some(name) => {
                names.push(name);
            },
            None => {
                return Err(ArgumentError::ExporterItem);
            },
        }
    }
    assert(names@ =~= texts.map_values(|item: Option<String>| item.unwrap()));
    Ok(names)
}

/// With what tracing is started.
#[derive(Debug, Clone, Copy)]
pub struct StartOptions {
    pub nframe: Option<u16>,
    pub capture_native: Option<bool>,
    pub sampling: SamplingOptions,
    pub ring_buffer_bytes: Option<usize>,
}

impl StartOptions {
    /// The configuration that the options ask for. What is not given is as in
    /// any configuration, but native frames are captured only on request.
    pub open spec fn configured(self) -> TracerConfig {
        let initial = TracerConfig::initial();
        TracerConfig {
            start_enabled: true,
            max_stack_depth: match self.nframe {
                Some(depth) => depth,
                None => initial.max_stack_depth,
            },
            capture_native: match self.capture_native {
                Some(capture) => capture,
                None => false,
            },
            sampling_bytes: match self.sampling.bytes {
                Some(bytes) => Some(bytes),
                None => initial.sampling_bytes,
            },
            sampling_rate: match self.sampling.rate {
                Some(rate) if self.sampling.bytes is None => if rate > SAMPLING_RATE_ONE {
                    SAMPLING_RATE_ONE
                } else {
                    rate
                },
                _ => initial.sampling_rate,
            },
            ring_buffer_bytes: match self.ring_buffer_bytes {
                Some(bytes) => if bytes == 0 {
                    1
                } else {
                    bytes
                },
                None => initial.ring_buffer_bytes,
            },
            ..initial
        }
    }

    /// A builder for the tracer that the options ask for.
    #[must_use]
    pub fn builder(&self) -> (builder: TracerBuilder)
        ensures
            builder@ == self.configured(),
    {
        let mut builder = TracerBuilder::new().start_enabled(true);
        if let Some(depth) = self.nframe {
            builder = builder.max_stack_depth(depth);
        }
        if let Some(native) = self.capture_native {
            builder = builder.capture_native(native);
        } else {
            builder = builder.capture_native(false);
        }
        if let Some(bytes) = self.sampling.bytes {
            builder = builder.sampling_bytes(Some(bytes));
        }
        if self.sampling.bytes.is_none() {
            if let Some(rate) = self.sampling.rate {
                builder = builder.sampling_rate(rate);
            }
        }
        if let Some(bytes) = self.ring_buffer_bytes {
            builder = builder.ring_buffer_bytes(bytes);
        }
        builder
    }
}

impl StartOptions {
    /// Each option that is given reaches the configuration: a depth as it is,
    /// an interval as it is, a rate up to one and only where no interval is
    /// given, and a buffer of at least one byte. What is not given is one frame,
    /// no native frames, every allocation and 256 KiB.
    pub proof fn law_options_reach_the_configuration(self)
        ensures
            ({
                let config = self.configured();
                &&& config.start_enabled
                &&& self.nframe matches Some(depth) ==> config.max_stack_depth == depth
                &&& self.nframe is None ==> config.max_stack_depth == 1
                &&& config.capture_native <==> self.capture_native == Some(true)
                &&& config.sampling_bytes == self.sampling.bytes
                &&& self.sampling.bytes is Some || self.sampling.rate is None
                    ==> config.sampling_rate == 0x8000_0000_0000_0000
                &&& self.sampling.bytes is None ==> (self.sampling.rate matches Some(rate)
                    ==> config.sampling_rate == if rate < 0x8000_0000_0000_0000 {
                    rate
                } else {
                    0x8000_0000_0000_0000
                })
                &&& self.ring_buffer_bytes is None ==> config.ring_buffer_bytes == 256 * 1024
                &&& self.ring_buffer_bytes == Some(0usize) ==> config.ring_buffer_bytes == 1
                &&& self.ring_buffer_bytes matches Some(bytes) ==> 0 < bytes
                    ==> config.ring_buffer_bytes == bytes
                &&& config.native_skip_frames == 0
                &&& config.python_skip_frames == 0
                &&& config.drain_interval == crate::config::milliseconds(25)
            }),
    {
    }
}

} // verus!
