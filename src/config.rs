//! The driver's configuration record and its canonicalisation.

use vstd::prelude::*;
use crate::decimal::Decimal;

verus! {

/// Settings of one stream direction (input or output).
#[derive(Clone, Debug, PartialEq, Eq)]
pub struct StreamSettings {
    pub device: Option<String>,
    pub suggested_latency_seconds: Option<Decimal>,
    pub wasapi_exclusive_mode: Option<bool>,
    pub wasapi_auto_convert: Option<bool>,
    pub channels: Option<u8>,
}

/// The persisted driver configuration. Every field is optional; an absent
/// field is left out of the file.
#[derive(Clone, Debug, PartialEq, Eq)]
pub struct Configuration {
    pub backend: Option<String>,
    pub buffer_size_samples: Option<u32>,
    pub input: Option<StreamSettings>,
    pub output: Option<StreamSettings>,
}

/// The contents of a `StreamSettings`, with text as character sequences.
pub struct StreamView {
    pub device: Option<Seq<char>>,
    pub suggested_latency_seconds: Option<Decimal>,
    pub wasapi_exclusive_mode: Option<bool>,
    pub wasapi_auto_convert: Option<bool>,
    pub channels: Option<u8>,
}

/// The contents of a `Configuration`, with text as character sequences.
pub struct ConfigView {
    pub backend: Option<Seq<char>>,
    pub buffer_size_samples: Option<u32>,
    pub input: Option<StreamView>,
    pub output: Option<StreamView>,
}

pub open spec fn text_view(s: Option<String>) -> Option<Seq<char>> {
    match s {
        Some(t) => Some(t@),
        None => None,
    }
}

pub open spec fn stream_view(s: Option<StreamSettings>) -> Option<StreamView> {
    match s {
        Some(t) => Some(t@),
        None => None,
    }
}

impl View for StreamSettings {
    type V = StreamView;

    open spec fn view(&self) -> StreamView {
        StreamView {
            device: text_view(self.device),
            suggested_latency_seconds: self.suggested_latency_seconds,
            wasapi_exclusive_mode: self.wasapi_exclusive_mode,
            wasapi_auto_convert: self.wasapi_auto_convert,
            channels: self.channels,
        }
    }
}

impl View for Configuration {
    type V = ConfigView;

    open spec fn view(&self) -> ConfigView {
        ConfigView {
            backend: text_view(self.backend),
            buffer_size_samples: self.buffer_size_samples,
            input: stream_view(self.input),
            output: stream_view(self.output),
        }
    }
}

pub open spec fn latency_wf(d: Option<Decimal>) -> bool {
    match d {
        Some(x) => x.wf(),
        None => true,
    }
}

impl StreamView {
    pub open spec fn wf(self) -> bool {
        latency_wf(self.suggested_latency_seconds)
    }
}

pub open spec fn stream_wf(s: Option<StreamView>) -> bool {
    match s {
        Some(t) => t.wf(),
        None => true,
    }
}

impl ConfigView {
    /// Every latency present is a decimal in range.
    pub open spec fn wf(self) -> bool {
        stream_wf(self.input) && stream_wf(self.output)
    }
}

/// A latency rounded to one fractional digit, half to even.
pub open spec fn normalize_latency(d: Option<Decimal>) -> Option<Decimal> {
    match d {
        Some(x) => Some(x.round_dp_spec(1)),
        None => None,
    }
}

pub open spec fn normalize_stream(s: Option<StreamView>) -> Option<StreamView> {
    match s {
        Some(t) => Some(
            StreamView {
                suggested_latency_seconds: normalize_latency(t.suggested_latency_seconds),
                ..t
            },
        ),
        None => None,
    }
}

/// The canonical form of a configuration: both latencies rounded to one
/// fractional digit, every other field as it was.
pub open spec fn normalize_spec(c: ConfigView) -> ConfigView {
    ConfigView { input: normalize_stream(c.input), output: normalize_stream(c.output), ..c }
}

/// Rounds a present latency to one fractional digit, half to even.
pub fn normalize_decimal(d: Option<Decimal>) -> (r: Option<Decimal>)
    requires
        latency_wf(d),
    ensures
        r == normalize_latency(d),
        latency_wf(r),
{
    match d {
        Some(x) => Some(x.round_dp(1)),
        None => None,
    }
}

fn normalize_settings(s: Option<StreamSettings>) -> (r: Option<StreamSettings>)
    requires
        stream_wf(stream_view(s)),
    ensures
        stream_view(r) == normalize_stream(stream_view(s)),
        stream_wf(stream_view(r)),
{
    match s {
        Some(t) => {
            let latency = normalize_decimal(t.suggested_latency_seconds);
            Some(StreamSettings { suggested_latency_seconds: latency, ..t })
        },
        None => None,
    }
}

/// The canonical form that is written to disk: each present
/// `suggested_latency_seconds` rounded to one fractional digit, half to even;
/// every other field kept as it is.
pub fn normalize_config(config: Configuration) -> (r: Configuration)
    requires
        config@.wf(),
    ensures
        r@ == normalize_spec(config@),
        r@.wf(),
{
    let Configuration { backend, buffer_size_samples, input, output } = config;
    Configuration {
        backend,
        buffer_size_samples,
        input: normalize_settings(input),
        output: normalize_settings(output),
    }
}

/// After normalisation each latency has at most one fractional digit and is
/// the half-to-even rounding, on the magnitude, of the value it replaces.
pub proof fn lemma_normalized_latency_one_digit(d: Decimal)
    requires
        d.wf(),
    ensures
        d.round_dp_spec(1).scale <= 1,
        d.scale <= 1 ==> d.round_dp_spec(1) == d,
        d.scale > 1 ==> d.round_dp_spec(1).scale == 1 && d.round_dp_spec(1).mantissa
            == crate::decimal::rounded_mantissa(d.mantissa as int, d.scale as nat, 1),
{
    crate::decimal::lemma_rounded_in_range(d.mantissa as int, d.scale as nat, 1);
}

/// Normalising twice gives what normalising once gives.
pub proof fn lemma_normalize_idempotent(c: ConfigView)
    ensures
        normalize_spec(normalize_spec(c)) == normalize_spec(c),
{
}

} // verus!
