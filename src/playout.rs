//! The playout side of the jitter buffer: decoded samples wait in a ring
//! until the output device asks for them; a request that the ring cannot
//! meet is completed with silence.

use crate::config::StreamConfig;
use std::collections::VecDeque;
use vstd::prelude::*;

verus! {

/// The value written for an output slot that no decoded sample fills.
pub const SILENCE: i16 = 0;

/// One diagnostic observation is due on every this-many-th callback.
pub const REPORT_EVERY: u64 = 100;

/// `n` silent samples.
pub open spec fn silence(n: nat) -> Seq<i16> {
    Seq::new(n, |i: int| SILENCE)
}

/// The samples that a decode outcome contributes: the first
/// `per_channel * channels` samples of `decoded` where the decoder reported
/// `per_channel` samples per channel and they fit in `decoded`; `None` for a
/// failed (or impossible) decode.
pub open spec fn decoded_samples(decoded: Seq<i16>, outcome: Option<usize>, channels: nat) -> Option<
    Seq<i16>,
> {
    match outcome {
        Some(n) => if n * channels <= decoded.len() {
            Some(decoded.take((n * channels) as int))
        } else {
            None
        },
        None => None,
    }
}

/// The ring after one decode outcome has been absorbed.
pub open spec fn absorb_one(
    ring: Seq<i16>,
    decoded: Seq<i16>,
    outcome: Option<usize>,
    channels: nat,
) -> Seq<i16> {
    match decoded_samples(decoded, outcome, channels) {
        Some(s) => ring + s,
        None => ring,
    }
}

/// The ring after a run of decode outcomes has been absorbed, in order.
pub open spec fn absorb_all(
    ring: Seq<i16>,
    outcomes: Seq<(Seq<i16>, Option<usize>)>,
    channels: nat,
) -> Seq<i16>
    decreases outcomes.len(),
{
    if outcomes.len() == 0 {
        ring
    } else {
        absorb_all(
            absorb_one(ring, outcomes[0].0, outcomes[0].1, channels),
            outcomes.drop_first(),
            channels,
        )
    }
}

/// How many samples a request of `requested` slots takes from a ring of
/// `available` samples.
pub open spec fn served(available: nat, requested: nat) -> nat {
    if available < requested {
        available
    } else {
        requested
    }
}

/// A periodic observation of the playout state.
#[derive(Clone, Copy, Debug, PartialEq, Eq, Structural)]
pub struct Diagnostics {
    /// The number of the callback, counted from one.
    pub callback: u64,
    /// Output slots filled with decoded samples in this callback.
    pub written: usize,
    /// Output slots filled with silence in this callback.
    pub silent: usize,
    /// Samples left in the ring.
    pub depth: usize,
}

/// Decoded samples awaiting playout, and the callback count.
pub struct Playout {
    channels: usize,
    frame_size: usize,
    pcm: VecDeque<i16>,
    callbacks: u64,
}

impl Playout {
    /// The samples waiting to be played, oldest first.
    pub closed spec fn ring(&self) -> Seq<i16> {
        self.pcm@
    }

    /// The stream's channel count.
    pub closed spec fn channel_count(&self) -> nat {
        self.channels as nat
    }

    /// Samples in one decoded frame.
    pub closed spec fn frame_samples(&self) -> nat {
        self.frame_size as nat
    }

    /// Output callbacks seen so far (modulo 2^64).
    pub closed spec fn callback_count(&self) -> u64 {
        self.callbacks
    }

    pub closed spec fn wf(&self) -> bool {
        &&& (self.channels == 1 || self.channels == 2)
        &&& self.frame_size == 960 * self.channels
    }

    /// An empty ring for the stream `config`.
    pub fn new(config: StreamConfig) -> (r: Playout)
        requires
            config.wf(),
        ensures
            r.wf(),
            r.ring() == Seq::<i16>::empty(),
            r.channel_count() == config.channels,
            r.frame_samples() == config.spec_frame_size(),
            r.callback_count() == 0,
    {
        Playout {
            channels: config.channels as usize,
            frame_size: config.frame_size(),
            pcm: VecDeque::new(),
            callbacks: 0,
        }
    }

    /// The size of the buffer to decode one packet into: one frame.
    pub fn decode_buffer_len(&self) -> (r: usize)
        requires
            self.wf(),
        ensures
            r == self.frame_samples(),
    {
        self.frame_size
    }

    /// Samples waiting in the ring.
    pub fn depth(&self) -> (r: usize)
        ensures
            r == self.ring().len(),
    {
        self.pcm.len()
    }

    /// Takes in the outcome of decoding one packet into `decoded`: `Some(n)`
    /// where the decoder reported `n` samples per channel, `None` where it
    /// failed. Decoded samples join the back of the ring; a failed packet
    /// leaves the ring as it was. Returns whether samples were taken.
    pub fn absorb_decoded(&mut self, decoded: &[i16], outcome: Option<usize>) -> (accepted: bool)
        requires
            old(self).wf(),
        ensures
            final(self).wf(),
            final(self).channel_count() == old(self).channel_count(),
            final(self).frame_samples() == old(self).frame_samples(),
            final(self).callback_count() == old(self).callback_count(),
            accepted == decoded_samples(decoded@, outcome, old(self).channel_count()).is_some(),
            final(self).ring() == absorb_one(
                old(self).ring(),
                decoded@,
                outcome,
                old(self).channel_count(),
            ),
    {
        let n: usize = match outcome {
            Some(n) => n,
            None => {
                return false;
            },
        };
        let ch = self.channels;
        let len = decoded.len();
        if n > len / ch {
            proof {
                assert(n * ch > len) by (nonlinear_arith)
                    requires
                        n > len / ch,
                        ch >= 1,
                ;
            }
            return false;
        }
        proof {
            assert(n * ch <= len) by (nonlinear_arith)
                requires
                    n <= len / ch,
                    ch >= 1,
            ;
        }
        let total: usize = n * ch;
        let ghost start = self.pcm@;
        let mut i: usize = 0;
        while i < total
            invariant
                self.wf(),
                self.channels == ch,
                self.frame_size == old(self).frame_size,
                self.callbacks == old(self).callbacks,
                total == n * ch,
                total <= decoded@.len(),
                i <= total,
                self.pcm@ == start + decoded@.take(i as int),
            decreases total - i,
        {
            self.pcm.push_back(decoded[i]);
            i += 1;
            assert(self.pcm@ =~= start + decoded@.take(i as int));
        }
        true
    }

    /// Fills `output` from the front of the ring, one sample per slot, and
    /// writes silence into the slots that the ring cannot fill. Never waits.
    /// Returns the number of slots filled with decoded samples.
    pub fn fill_output(&mut self, output: &mut [i16]) -> (written: usize)
        requires
            old(self).wf(),
        ensures
            final(self).wf(),
            final(self).channel_count() == old(self).channel_count(),
            final(self).frame_samples() == old(self).frame_samples(),
            final(self).callback_count() == old(self).callback_count(),
            written == served(old(self).ring().len(), old(output)@.len()),
            final(output)@ == old(self).ring().take(written as int) + silence(
                (old(output)@.len() - written) as nat,
            ),
            final(self).ring() == old(self).ring().skip(written as int),
    {
        let ghost ring0 = self.pcm@;
        let n = output.len();
        let mut written: usize = 0;
        let mut i: usize = 0;
        while i < n
            invariant
                self.wf(),
                self.channels == old(self).channels,
                self.frame_size == old(self).frame_size,
                self.callbacks == old(self).callbacks,
                ring0 == old(self).pcm@,
                n == output@.len(),
                n == old(output)@.len(),
                i <= n,
                written == served(ring0.len(), i as nat),
                self.pcm@ == ring0.skip(written as int),
                output@.take(i as int) == ring0.take(written as int) + silence(
                    (i - written) as nat,
                ),
            decreases n - i,
        {
            let ghost before = output@;
            match self.pcm.pop_front() {
                Some(v) => {
                    output[i] = v;
                    assert(written == i);
                    assert(ring0.skip(written as int)[0] == v);
                    assert(ring0.take(written + 1) =~= ring0.take(written as int).push(v));
                    written += 1;
                    assert(self.pcm@ =~= ring0.skip(written as int));
                },
                None => {
                    output[i] = SILENCE;
                    assert(written == ring0.len());
                    assert(silence((i + 1 - written) as nat) =~= silence((i - written) as nat).push(
                        SILENCE,
                    ));
                },
            }
            assert(output@.take(i + 1) =~= before.take(i as int).push(output@[i as int]));
            i += 1;
            assert(output@.take(i as int) =~= ring0.take(written as int) + silence(
                (i - written) as nat,
            ));
        }
        assert(output@.take(n as int) =~= output@);
        written
    }

    /// Counts one output callback; on every `REPORT_EVERY`-th one returns a
    /// diagnostic observation of a callback that filled `written` of
    /// `requested` slots from the ring.
    pub fn end_callback(&mut self, written: usize, requested: usize) -> (r: Option<Diagnostics>)
        requires
            old(self).wf(),
            written <= requested,
        ensures
            final(self).wf(),
            final(self).ring() == old(self).ring(),
            final(self).channel_count() == old(self).channel_count(),
            final(self).frame_samples() == old(self).frame_samples(),
            final(self).callback_count() == (if old(self).callback_count() == u64::MAX {
                0
            } else {
                (old(self).callback_count() + 1) as u64
            }),
            r.is_some() <==> final(self).callback_count() % REPORT_EVERY == 0,
            r.is_some() ==> r.unwrap() == (Diagnostics {
                callback: final(self).callback_count(),
                written,
                silent: (requested - written) as usize,
                depth: old(self).ring().len() as usize,
            }),
    {
        self.callbacks = if self.callbacks == u64::MAX {
            0
        } else {
            self.callbacks + 1
        };
        if self.callbacks % REPORT_EVERY == 0 {
            Some(
                Diagnostics {
                    callback: self.callbacks,
                    written,
                    silent: requested - written,
                    depth: self.pcm.len(),
                },
            )
        } else {
            None
        }
    }
}

/// A packet that fails to decode contributes nothing and stops nothing: the
/// ring after a run of outcomes with one failure in it is the ring after the
/// same run without it, so every later packet's samples still arrive, in order.
pub proof fn lemma_failed_packet_isolated(
    ring: Seq<i16>,
    before: Seq<(Seq<i16>, Option<usize>)>,
    bad: (Seq<i16>, Option<usize>),
    after: Seq<(Seq<i16>, Option<usize>)>,
    channels: nat,
)
    requires
        decoded_samples(bad.0, bad.1, channels).is_none(),
    ensures
        absorb_all(ring, before.push(bad) + after, channels) == absorb_all(
            ring,
            before + after,
            channels,
        ),
    decreases before.len(),
{
    if before.len() == 0 {
        assert(before.push(bad) + after =~= seq![bad] + after);
        assert((seq![bad] + after).drop_first() =~= after);
        assert(before + after =~= after);
    } else {
        let head = before[0];
        let next = absorb_one(ring, head.0, head.1, channels);
        lemma_failed_packet_isolated(next, before.drop_first(), bad, after, channels);
        assert((before.push(bad) + after).drop_first() =~= before.drop_first().push(bad) + after);
        assert((before + after).drop_first() =~= before.drop_first() + after);
        assert((before.push(bad) + after)[0] == head);
        assert((before + after)[0] == head);
    }
}

} // verus!
