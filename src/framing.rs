//! Length-prefixed framing of compressed packets inside a byte queue.
//!
//! A framed unit is a two-byte little-endian length followed by that many
//! payload bytes. The queue holds such units back to back; consumers only ever
//! remove whole units.

use std::collections::VecDeque;
use vstd::arithmetic::div_mod::lemma_fundamental_div_mod;
use vstd::prelude::*;

verus! {

/// Largest payload that a two-byte length prefix can describe.
pub const MAX_PAYLOAD: usize = 65535;

/// The length announced by the prefix at the head of `q`.
pub open spec fn prefix_len(q: Seq<u8>) -> nat
    recommends
        q.len() >= 2,
{
    q[0] as nat + 256 * (q[1] as nat)
}

/// `q` starts with a complete framed unit.
pub open spec fn has_frame(q: Seq<u8>) -> bool {
    q.len() >= 2 && q.len() >= 2 + prefix_len(q)
}

/// The payload of the unit at the head of `q`.
pub open spec fn head_payload(q: Seq<u8>) -> Seq<u8>
    recommends
        has_frame(q),
{
    q.subrange(2, 2 + prefix_len(q) as int)
}

/// What stays in `q` once the unit at its head is removed.
pub open spec fn after_head(q: Seq<u8>) -> Seq<u8>
    recommends
        has_frame(q),
{
    q.subrange(2 + prefix_len(q) as int, q.len() as int)
}

/// The framed unit for payload `p`: its length, low byte first, then `p`.
pub open spec fn framed(p: Seq<u8>) -> Seq<u8> {
    seq![(p.len() % 256) as u8, (p.len() / 256) as u8] + p
}

/// The payloads of all complete units at the front of `q`, in queue order.
pub open spec fn frames_of(q: Seq<u8>) -> Seq<Seq<u8>>
    decreases q.len(),
{
    if has_frame(q) {
        seq![head_payload(q)] + frames_of(after_head(q))
    } else {
        Seq::empty()
    }
}

/// The bytes left once every complete unit has been taken from the front of `q`.
pub open spec fn leftover(q: Seq<u8>) -> Seq<u8>
    decreases q.len(),
{
    if has_frame(q) {
        leftover(after_head(q))
    } else {
        q
    }
}

/// The concatenation of the framed units of `ps`, in order.
pub open spec fn framed_all(ps: Seq<Seq<u8>>) -> Seq<u8>
    decreases ps.len(),
{
    if ps.len() == 0 {
        Seq::empty()
    } else {
        framed(ps[0]) + framed_all(ps.drop_first())
    }
}

/// Frames `payload`: two length bytes, low byte first, then the payload.
pub fn frame(payload: &Vec<u8>) -> (r: Vec<u8>)
    requires
        payload@.len() <= MAX_PAYLOAD,
    ensures
        r@ == framed(payload@),
{
    let len: usize = payload.len();
    let mut r: Vec<u8> = Vec::with_capacity(len + 2);
    r.push((len % 256) as u8);
    r.push((len / 256) as u8);
    let mut i: usize = 0;
    while i < len
        invariant
            len == payload@.len(),
            i <= len,
            r@ == framed(payload@).subrange(0, 2 + i as int),
        decreases len - i,
    {
        r.push(payload[i]);
        i += 1;
    }
    assert(r@ =~= framed(payload@));
    r
}

/// Appends the framed unit of `packet` to the back of `buffer`.
pub fn push_opus_packet(buffer: &mut VecDeque<u8>, packet: &[u8])
    requires
        packet@.len() <= MAX_PAYLOAD,
    ensures
        final(buffer)@ == old(buffer)@ + framed(packet@),
{
    let len: usize = packet.len();
    buffer.push_back((len % 256) as u8);
    buffer.push_back((len / 256) as u8);
    let ghost start = old(buffer)@;
    let mut i: usize = 0;
    while i < len
        invariant
            len == packet@.len(),
            i <= len,
            buffer@ == start + framed(packet@).subrange(0, 2 + i as int),
        decreases len - i,
    {
        buffer.push_back(packet[i]);
        i += 1;
        assert(buffer@ =~= start + framed(packet@).subrange(0, 2 + i as int));
    }
    assert(framed(packet@).subrange(0, 2 + len as int) =~= framed(packet@));
}

/// Removes the complete unit at the head of `queue` and returns its payload.
/// Where the head unit is incomplete (or fewer than two bytes are queued),
/// returns `None` and leaves the queue as it was.
pub fn try_extract_one(queue: &mut VecDeque<u8>) -> (r: Option<Vec<u8>>)
    ensures
        has_frame(old(queue)@) ==> r.is_some() && r.unwrap()@ == head_payload(old(queue)@)
            && final(queue)@ == after_head(old(queue)@),
        !has_frame(old(queue)@) ==> r.is_none() && final(queue)@ == old(queue)@,
{
    if queue.len() < 2 {
        return None;
    }
    let len: usize = queue[0] as usize + 256 * (queue[1] as usize);
    if queue.len() - 2 < len {
        return None;
    }
    let ghost q0 = queue@;
    queue.pop_front();
    queue.pop_front();
    let mut payload: Vec<u8> = Vec::with_capacity(len);
    let mut i: usize = 0;
    while i < len
        invariant
            has_frame(q0),
            len == prefix_len(q0),
            i <= len,
            payload@ == q0.subrange(2, 2 + i as int),
            queue@ == q0.subrange(2 + i as int, q0.len() as int),
        decreases len - i,
    {
        let b = queue.pop_front();
        match b {
            Some(x) => payload.push(x),
            None => {},
        }
        i += 1;
        assert(payload@ =~= q0.subrange(2, 2 + i as int));
        assert(queue@ =~= q0.subrange(2 + i as int, q0.len() as int));
    }
    Some(payload)
}

/// Queues one received datagram, which holds exactly one compressed packet:
/// an empty datagram, or one too long for the length prefix, is skipped and
/// the queue left as it was. Returns whether the datagram was queued.
pub fn accept_datagram(queue: &mut VecDeque<u8>, datagram: &[u8]) -> (queued: bool)
    ensures
        queued == (0 < datagram@.len() <= MAX_PAYLOAD),
        queued ==> final(queue)@ == old(queue)@ + framed(datagram@),
        !queued ==> final(queue)@ == old(queue)@,
{
    if datagram.len() == 0 || datagram.len() > MAX_PAYLOAD {
        return false;
    }
    push_opus_packet(queue, datagram);
    true
}

/// Takes every complete unit from the front of `queue`, oldest first, and
/// leaves only the incomplete tail behind.
pub fn drain_frames(queue: &mut VecDeque<u8>) -> (r: Vec<Vec<u8>>)
    ensures
        r@.map_values(|v: Vec<u8>| v@) == frames_of(old(queue)@),
        final(queue)@ == leftover(old(queue)@),
{
    let ghost q0 = queue@;
    let mut r: Vec<Vec<u8>> = Vec::new();
    loop
        invariant
            q0 == old(queue)@,
            frames_of(q0) == r@.map_values(|v: Vec<u8>| v@) + frames_of(queue@),
            leftover(q0) == leftover(queue@),
        decreases queue@.len(),
    {
        let ghost q = queue@;
        match try_extract_one(queue) {
            Some(p) => {
                let ghost before = r@.map_values(|v: Vec<u8>| v@);
                assert(frames_of(q) == seq![p@] + frames_of(queue@));
                assert(before + (seq![p@] + frames_of(queue@)) =~= before.push(p@) + frames_of(
                    queue@,
                ));
                r.push(p);
                assert(r@.map_values(|v: Vec<u8>| v@) =~= before.push(p@));
            },
            None => {
                assert(frames_of(q) =~= Seq::<Seq<u8>>::empty());
                assert(leftover(q) == q);
                assert(r@.map_values(|v: Vec<u8>| v@) =~= frames_of(q0));
                return r;
            },
        }
    }
}

/// The length prefix written for a payload reads back as the payload's length.
pub proof fn lemma_prefix_of_framed(p: Seq<u8>)
    requires
        p.len() <= MAX_PAYLOAD,
    ensures
        framed(p).len() == p.len() + 2,
        prefix_len(framed(p)) == p.len(),
{
    lemma_fundamental_div_mod(p.len() as int, 256);
    assert(p.len() / 256 < 256);
}

/// A framed unit followed by any bytes: the unit is complete, its payload is
/// the original one, and removing it leaves exactly the bytes that followed.
pub proof fn lemma_extract_framed_head(p: Seq<u8>, rest: Seq<u8>)
    requires
        p.len() <= MAX_PAYLOAD,
    ensures
        has_frame(framed(p) + rest),
        head_payload(framed(p) + rest) == p,
        after_head(framed(p) + rest) == rest,
        frames_of(framed(p) + rest) == seq![p] + frames_of(rest),
        leftover(framed(p) + rest) == leftover(rest),
{
    let q = framed(p) + rest;
    lemma_prefix_of_framed(p);
    assert(q[0] == framed(p)[0] && q[1] == framed(p)[1]);
    assert(prefix_len(q) == p.len());
    assert(head_payload(q) =~= p);
    assert(after_head(q) =~= rest);
}

/// Framing then extracting gives the payload back and leaves the queue empty.
pub proof fn lemma_frame_round_trip(p: Seq<u8>)
    requires
        p.len() <= MAX_PAYLOAD,
    ensures
        has_frame(framed(p)),
        head_payload(framed(p)) == p,
        after_head(framed(p)) == Seq::<u8>::empty(),
        frames_of(framed(p)) == seq![p],
        leftover(framed(p)) == Seq::<u8>::empty(),
{
    lemma_extract_framed_head(p, Seq::empty());
    assert(framed(p) + Seq::<u8>::empty() =~= framed(p));
    assert(!has_frame(Seq::<u8>::empty()));
    assert(frames_of(Seq::<u8>::empty()) =~= Seq::<Seq<u8>>::empty());
    assert(seq![p] + Seq::<Seq<u8>>::empty() =~= seq![p]);
}

/// Any strict prefix of a framed unit is incomplete: nothing can be taken
/// from a queue that holds only those bytes.
pub proof fn lemma_partial_frame_incomplete(p: Seq<u8>, k: nat)
    requires
        p.len() <= MAX_PAYLOAD,
        k < framed(p).len(),
    ensures
        !has_frame(framed(p).take(k as int)),
        frames_of(framed(p).take(k as int)) == Seq::<Seq<u8>>::empty(),
        leftover(framed(p).take(k as int)) == framed(p).take(k as int),
{
    lemma_prefix_of_framed(p);
    let q = framed(p).take(k as int);
    if q.len() >= 2 {
        assert(q[0] == framed(p)[0] && q[1] == framed(p)[1]);
        assert(prefix_len(q) == p.len());
    }
}

/// Units framed one after another come out in the order they went in, each
/// with its own payload, and nothing is left over.
pub proof fn lemma_frames_in_order(ps: Seq<Seq<u8>>)
    requires
        forall|i: int| 0 <= i < ps.len() ==> #[trigger] ps[i].len() <= MAX_PAYLOAD,
    ensures
        frames_of(framed_all(ps)) == ps,
        leftover(framed_all(ps)) == Seq::<u8>::empty(),
        ps.len() > 0 ==> has_frame(framed_all(ps)) && head_payload(framed_all(ps)) == ps[0]
            && after_head(framed_all(ps)) == framed_all(ps.drop_first()),
    decreases ps.len(),
{
    if ps.len() == 0 {
        assert(!has_frame(Seq::<u8>::empty()));
        assert(frames_of(Seq::<u8>::empty()) =~= Seq::<Seq<u8>>::empty());
        assert(framed_all(ps) =~= Seq::<u8>::empty());
        assert(ps =~= Seq::<Seq<u8>>::empty());
    } else {
        let tail = ps.drop_first();
        assert forall|i: int| 0 <= i < tail.len() implies #[trigger] tail[i].len()
            <= MAX_PAYLOAD by {
            assert(tail[i] == ps[i + 1]);
        }
        lemma_frames_in_order(tail);
        assert(ps[0].len() <= MAX_PAYLOAD);
        lemma_extract_framed_head(ps[0], framed_all(tail));
        assert(seq![ps[0]] + tail =~= ps);
    }
}

} // verus!
