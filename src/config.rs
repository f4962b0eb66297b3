//! Stream parameters shared by the encode and decode sides, and the choice of
//! an output sample rate that the codec accepts.

use vstd::prelude::*;

verus! {

/// The sample rate of every stream, in Hz.
pub const SAMPLE_RATE: u32 = 48000;

/// The duration of one codec frame, in milliseconds.
pub const FRAME_DURATION_MS: u32 = 20;

/// The rate used when the device offers none that the codec accepts.
pub const FALLBACK_RATE: u32 = 48000;

/// Sample rate, channel count and frame duration of a voice stream.
#[derive(Clone, Copy, Debug, PartialEq, Eq, Structural)]
pub struct StreamConfig {
    pub sample_rate: u32,
    pub channels: u16,
    pub frame_duration_ms: u32,
}

impl StreamConfig {
    /// The configuration every side of the link uses: 48 kHz, 20 ms frames,
    /// one or two channels.
    pub open spec fn wf(&self) -> bool {
        &&& self.sample_rate == SAMPLE_RATE
        &&& self.frame_duration_ms == FRAME_DURATION_MS
        &&& (self.channels == 1 || self.channels == 2)
    }

    /// Samples (over all channels) in one codec frame.
    pub open spec fn spec_frame_size(&self) -> nat {
        (self.sample_rate as nat / 1000) * (self.frame_duration_ms as nat) * (self.channels as nat)
    }

    /// The stream configuration for a device with `channels` channels; `None`
    /// unless the codec can carry that many (one or two).
    pub fn new(channels: u16) -> (r: Option<StreamConfig>)
        ensures
            r.is_some() <==> (channels == 1 || channels == 2),
            r.is_some() ==> r.unwrap().wf() && r.unwrap().channels == channels,
    {
        if channels == 1 || channels == 2 {
            Some(StreamConfig { sample_rate: SAMPLE_RATE, channels, frame_duration_ms: FRAME_DURATION_MS })
        } else {
            None
        }
    }

    /// `sample_rate / 1000 * frame_duration_ms * channels`: the number of
    /// samples that one encode or decode call handles.
    pub fn frame_size(&self) -> (r: usize)
        requires
            self.wf(),
        ensures
            r == self.spec_frame_size(),
            r == 960 * self.channels,
    {
        let per_ms: usize = (self.sample_rate / 1000) as usize;
        assert(per_ms == 48);
        let per_channel: usize = per_ms * (self.frame_duration_ms as usize);
        assert(per_channel == 960);
        per_channel * (self.channels as usize)
    }
}

/// Both ends compute the same frame size from a well-formed configuration:
/// 960 samples for one channel, 1920 for two.
pub proof fn lemma_frame_size_fixed(c: StreamConfig)
    requires
        c.sample_rate == 48000,
        c.frame_duration_ms == 20,
        c.channels == 1 || c.channels == 2,
    ensures
        c.channels == 1 ==> c.spec_frame_size() == 960,
        c.channels == 2 ==> c.spec_frame_size() == 1920,
{
}

/// The sample rates the codec accepts, most preferred first.
pub open spec fn codec_rates() -> Seq<u32> {
    seq![48000u32, 24000u32, 16000u32, 12000u32, 8000u32]
}

/// A range of output sample rates that a device reports it supports.
#[derive(Clone, Copy, Debug, PartialEq, Eq, Structural)]
pub struct RateRange {
    /// Whether the range has the channel count and sample format of the
    /// device's default configuration.
    pub matches_device: bool,
    pub min_rate: u32,
    pub max_rate: u32,
}

/// Some range that matches the device covers `rate`.
pub open spec fn rate_supported(ranges: Seq<RateRange>, rate: u32) -> bool {
    exists|i: int|
        0 <= i < ranges.len() && (#[trigger] ranges[i]).matches_device && ranges[i].min_rate <= rate
            && rate <= ranges[i].max_rate
}

/// The first of `rates` that `ranges` support.
pub open spec fn first_supported(rates: Seq<u32>, ranges: Seq<RateRange>) -> Option<u32>
    decreases rates.len(),
{
    if rates.len() == 0 {
        None
    } else if rate_supported(ranges, rates[0]) {
        Some(rates[0])
    } else {
        first_supported(rates.drop_first(), ranges)
    }
}

/// The output rate for a device: its default rate where the codec accepts
/// it, else the most preferred codec rate that a matching range covers, else
/// the fallback rate.
pub open spec fn chosen_output_rate(default_rate: u32, ranges: Seq<RateRange>) -> u32 {
    if codec_rates().contains(default_rate) {
        default_rate
    } else {
        match first_supported(codec_rates(), ranges) {
            Some(r) => r,
            None => FALLBACK_RATE,
        }
    }
}

/// The codec's sample rates, most preferred first.
pub fn codec_rate_list() -> (r: Vec<u32>)
    ensures
        r@ == codec_rates(),
{
    let r: Vec<u32> = vec![48000, 24000, 16000, 12000, 8000];
    assert(r@ =~= codec_rates());
    r
}

/// Whether some range of `ranges` that matches the device covers `rate`.
pub fn is_rate_supported(ranges: &Vec<RateRange>, rate: u32) -> (r: bool)
    ensures
        r == rate_supported(ranges@, rate),
{
    let mut i: usize = 0;
    while i < ranges.len()
        invariant
            i <= ranges@.len(),
            forall|j: int|
                0 <= j < i ==> !((#[trigger] ranges@[j]).matches_device && ranges@[j].min_rate
                    <= rate && rate <= ranges@[j].max_rate),
        decreases ranges@.len() - i,
    {
        let g = &ranges[i];
        if g.matches_device && g.min_rate <= rate && rate <= g.max_rate {
            return true;
        }
        i += 1;
    }
    false
}

/// Picks the output sample rate for a device whose default rate is
/// `default_rate` and which reports the rate ranges `ranges`.
pub fn pick_output_rate(default_rate: u32, ranges: &Vec<RateRange>) -> (r: u32)
    ensures
        r == chosen_output_rate(default_rate, ranges@),
        codec_rates().contains(r),
{
    let rates = codec_rate_list();
    let mut k: usize = 0;
    while k < rates.len()
        invariant
            rates@ == codec_rates(),
            k <= rates@.len(),
            forall|j: int| 0 <= j < k ==> rates@[j] != default_rate,
        decreases rates@.len() - k,
    {
        if rates[k] == default_rate {
            assert(codec_rates()[k as int] == default_rate);
            return default_rate;
        }
        k += 1;
    }
    assert(!codec_rates().contains(default_rate));
    let mut i: usize = 0;
    assert(rates@.skip(0) =~= rates@);
    while i < rates.len()
        invariant
            rates@ == codec_rates(),
            i <= rates@.len(),
            !codec_rates().contains(default_rate),
            first_supported(codec_rates(), ranges@) == first_supported(rates@.skip(i as int), ranges@),
        decreases rates@.len() - i,
    {
        let rate = rates[i];
        assert(rates@.skip(i as int)[0] == rate);
        assert(rates@.skip(i as int).drop_first() =~= rates@.skip(i as int + 1));
        if is_rate_supported(ranges, rate) {
            assert(codec_rates()[i as int] == rate);
            return rate;
        }
        i += 1;
    }
    assert(rates@.skip(i as int).len() == 0);
    assert(codec_rates()[0] == FALLBACK_RATE);
    FALLBACK_RATE
}

} // verus!
