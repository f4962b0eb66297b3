//! The capture side: microphone samples gathered into fixed-size codec
//! frames, oldest first, while the transmit gate is open.

use crate::config::StreamConfig;
use std::collections::VecDeque;
use vstd::prelude::*;

verus! {

/// Room given to the encoder for one compressed packet, in bytes.
pub const ENCODE_BUFFER_LEN: usize = 4000;

/// The whole frames of `fs` samples at the front of `s`, in order.
pub open spec fn split_frames(s: Seq<i16>, fs: nat) -> Seq<Seq<i16>>
    decreases s.len(),
{
    if fs > 0 && s.len() >= fs {
        seq![s.take(fs as int)] + split_frames(s.skip(fs as int), fs)
    } else {
        Seq::empty()
    }
}

/// The samples of `s` left over once its whole frames are taken.
pub open spec fn frame_remainder(s: Seq<i16>, fs: nat) -> Seq<i16>
    decreases s.len(),
{
    if fs > 0 && s.len() >= fs {
        frame_remainder(s.skip(fs as int), fs)
    } else {
        s
    }
}

/// The concatenation of `frames`, in order.
pub open spec fn joined(frames: Seq<Seq<i16>>) -> Seq<i16>
    decreases frames.len(),
{
    if frames.len() == 0 {
        Seq::empty()
    } else {
        frames[0] + joined(frames.drop_first())
    }
}

/// One capture callback on accumulator `acc` with frame size `fs`: the new
/// accumulator and the frames handed to the encoder. While push-to-talk is
/// off, or with nobody to send to, the input is dropped and nothing changes.
pub open spec fn capture_step(
    acc: Seq<i16>,
    fs: nat,
    gate_open: bool,
    has_peers: bool,
    input: Seq<i16>,
) -> (Seq<i16>, Seq<Seq<i16>>) {
    if gate_open && has_peers {
        (frame_remainder(acc + input, fs), split_frames(acc + input, fs))
    } else {
        (acc, Seq::empty())
    }
}

/// The packet produced by one encode call: `Some(n)` where the encoder
/// wrote `n` bytes into `buf` (the buffer is cut to that length, as
/// `Vec::truncate` does), `None` where it failed and the frame is dropped.
pub open spec fn packet_of(buf: Seq<u8>, outcome: Option<usize>) -> Option<Seq<u8>> {
    match outcome {
        Some(n) => Some(
            if n < buf.len() {
                buf.take(n as int)
            } else {
                buf
            },
        ),
        None => None,
    }
}

/// Samples gathered from the microphone that do not yet fill a frame.
pub struct CaptureFramer {
    frame_size: usize,
    acc: VecDeque<i16>,
}

impl CaptureFramer {
    /// The samples waiting for a full frame, oldest first.
    pub closed spec fn pending(&self) -> Seq<i16> {
        self.acc@
    }

    /// Samples in one frame.
    pub closed spec fn frame_samples(&self) -> nat {
        self.frame_size as nat
    }

    pub closed spec fn wf(&self) -> bool {
        &&& self.frame_size > 0
        &&& self.acc@.len() < self.frame_size
    }

    /// An empty accumulator for the stream `config`.
    pub fn new(config: StreamConfig) -> (r: CaptureFramer)
        requires
            config.wf(),
        ensures
            r.wf(),
            r.pending() == Seq::<i16>::empty(),
            r.frame_samples() == config.spec_frame_size(),
    {
        CaptureFramer { frame_size: config.frame_size(), acc: VecDeque::new() }
    }

    /// Samples in one frame.
    pub fn frame_size(&self) -> (r: usize)
        ensures
            r == self.frame_samples(),
    {
        self.frame_size
    }

    /// Samples waiting for a full frame.
    pub fn pending_len(&self) -> (r: usize)
        ensures
            r == self.pending().len(),
    {
        self.acc.len()
    }

    /// One input callback. While push-to-talk is on and someone listens, the
    /// input joins the back of the accumulator and every whole frame is taken
    /// from its front and returned, oldest first, each of exactly one frame's
    /// samples; otherwise the input is discarded and nothing changes.
    pub fn capture(&mut self, gate_open: bool, has_peers: bool, input: &[i16]) -> (frames: Vec<
        Vec<i16>,
    >)
        requires
            old(self).wf(),
        ensures
            final(self).wf(),
            final(self).frame_samples() == old(self).frame_samples(),
            final(self).pending() == capture_step(
                old(self).pending(),
                old(self).frame_samples(),
                gate_open,
                has_peers,
                input@,
            ).0,
            frames@.map_values(|f: Vec<i16>| f@) == capture_step(
                old(self).pending(),
                old(self).frame_samples(),
                gate_open,
                has_peers,
                input@,
            ).1,
            forall|i: int|
                0 <= i < frames@.len() ==> (#[trigger] frames@[i])@.len()
                    == old(self).frame_samples(),
    {
        let mut frames: Vec<Vec<i16>> = Vec::new();
        if !gate_open || !has_peers {
            assert(frames@.map_values(|f: Vec<i16>| f@) =~= Seq::<Seq<i16>>::empty());
            return frames;
        }
        let ghost total = self.acc@ + input@;
        let fs = self.frame_size;
        let mut i: usize = 0;
        while i < input.len()
            invariant
                fs == self.frame_size,
                fs > 0,
                i <= input@.len(),
                total == old(self).acc@ + input@,
                self.acc@ == old(self).acc@ + input@.take(i as int),
            decreases input@.len() - i,
        {
            self.acc.push_back(input[i]);
            i += 1;
            assert(self.acc@ =~= old(self).acc@ + input@.take(i as int));
        }
        assert(input@.take(input@.len() as int) =~= input@);
        while self.acc.len() >= fs
            invariant
                fs == self.frame_size,
                fs > 0,
                split_frames(total, fs as nat) == frames@.map_values(|f: Vec<i16>| f@)
                    + split_frames(self.acc@, fs as nat),
                frame_remainder(total, fs as nat) == frame_remainder(self.acc@, fs as nat),
                forall|k: int|
                    0 <= k < frames@.len() ==> (#[trigger] frames@[k])@.len() == fs,
            decreases self.acc@.len(),
        {
            let ghost a = self.acc@;
            let mut frame: Vec<i16> = Vec::with_capacity(fs);
            let mut j: usize = 0;
            while j < fs
                invariant
                    fs == self.frame_size,
                    a.len() >= fs,
                    j <= fs,
                    frame@ == a.take(j as int),
                    self.acc@ == a.skip(j as int),
                decreases fs - j,
            {
                match self.acc.pop_front() {
                    Some(x) => {
                        assert(a.skip(j as int)[0] == x);
                        frame.push(x);
                    },
                    None => {},
                }
                j += 1;
                assert(frame@ =~= a.take(j as int));
                assert(self.acc@ =~= a.skip(j as int));
            }
            let ghost before = frames@.map_values(|f: Vec<i16>| f@);
            assert(split_frames(a, fs as nat) == seq![a.take(fs as int)] + split_frames(
                a.skip(fs as int),
                fs as nat,
            ));
            assert(before + (seq![frame@] + split_frames(self.acc@, fs as nat)) =~= before.push(
                frame@,
            ) + split_frames(self.acc@, fs as nat));
            frames.push(frame);
            assert(frames@.map_values(|f: Vec<i16>| f@) =~= before.push(frame@));
        }
        assert(split_frames(self.acc@, fs as nat) =~= Seq::<Seq<i16>>::empty());
        assert(frame_remainder(self.acc@, fs as nat) == self.acc@);
        assert(frames@.map_values(|f: Vec<i16>| f@) =~= split_frames(total, fs as nat));
        frames
    }
}

/// The packet to send after one encode call into `buf`: `Some(n)` where the
/// encoder wrote `n` bytes, `None` where it failed (the frame is dropped).
pub fn encoded_packet(buf: Vec<u8>, outcome: Option<usize>) -> (r: Option<Vec<u8>>)
    ensures
        r.is_some() == packet_of(buf@, outcome).is_some(),
        r.is_some() ==> r.unwrap()@ == packet_of(buf@, outcome).unwrap(),
{
    match outcome {
        Some(n) => {
            let mut buf = buf;
            buf.truncate(n);
            Some(buf)
        },
        None => None,
    }
}

/// Audio captured while push-to-talk is off is dropped on the spot: the
/// accumulator is unchanged, nothing is encoded, and a later callback with
/// push-to-talk on behaves exactly as if the dropped input had never come.
pub proof fn lemma_closed_gate_discards(
    acc: Seq<i16>,
    fs: nat,
    has_peers: bool,
    dropped: Seq<i16>,
    gate_later: bool,
    peers_later: bool,
    later: Seq<i16>,
)
    ensures
        capture_step(acc, fs, false, has_peers, dropped) == (acc, Seq::<Seq<i16>>::empty()),
        capture_step(
            capture_step(acc, fs, false, has_peers, dropped).0,
            fs,
            gate_later,
            peers_later,
            later,
        ) == capture_step(acc, fs, gate_later, peers_later, later),
{
}

/// Cutting samples into frames keeps their order and loses none: every frame
/// holds exactly `fs` samples, the frames followed by the remainder give back
/// the samples, and the remainder is shorter than a frame.
pub proof fn lemma_frames_exact(s: Seq<i16>, fs: nat)
    requires
        fs > 0,
    ensures
        forall|i: int|
            0 <= i < split_frames(s, fs).len() ==> (#[trigger] split_frames(s, fs)[i]).len() == fs,
        joined(split_frames(s, fs)) + frame_remainder(s, fs) == s,
        frame_remainder(s, fs).len() < fs,
    decreases s.len(),
{
    if s.len() >= fs {
        let rest = s.skip(fs as int);
        lemma_frames_exact(rest, fs);
        let fr = split_frames(s, fs);
        assert(fr == seq![s.take(fs as int)] + split_frames(rest, fs));
        assert(fr.drop_first() =~= split_frames(rest, fs));
        assert forall|i: int| 0 <= i < fr.len() implies (#[trigger] fr[i]).len() == fs by {
            if i > 0 {
                assert(fr[i] == split_frames(rest, fs)[i - 1]);
            }
        }
        assert(joined(fr) == s.take(fs as int) + joined(split_frames(rest, fs)));
        assert(s.take(fs as int) + (joined(split_frames(rest, fs)) + frame_remainder(rest, fs))
            =~= s);
    } else {
        assert(joined(Seq::<Seq<i16>>::empty()) == Seq::<i16>::empty());
        assert(Seq::<i16>::empty() + s =~= s);
    }
}

} // verus!
