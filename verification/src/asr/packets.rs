//! Cutting a stream of samples into packets.

use vstd::prelude::*;

use crate::asr::protocol::{audio_frame, audio_request, compressed, gunzipped, gzipped,
    ProtocolError, ProtocolErrorView};
use crate::asr_options::AUDIO_EDGE_GUARD_MS;
use crate::audio::TARGET_SAMPLE_RATE;
use crate::bytes::{encode_pcm, pcm_bytes};

verus! {

pub const AUDIO_PACKET_SAMPLES: usize = 3_200;

/// The number of samples in the silence around a recording.
pub fn edge_guard_samples() -> (result: usize)
    ensures
        result == TARGET_SAMPLE_RATE * AUDIO_EDGE_GUARD_MS / 1_000,
        result == 3_200,
{
    TARGET_SAMPLE_RATE as usize * AUDIO_EDGE_GUARD_MS / 1_000
}

/// The silence around a recording.
pub open spec fn edge_guard() -> Seq<i16> {
    Seq::new(3_200, |i: int| 0i16)
}

/// A piece of the audio stream, as it is sent.
#[derive(Debug)]
pub struct AudioPacket {
    pub sequence: i32,
    pub samples: Vec<i16>,
    pub is_last: bool,
}

/// An [`AudioPacket`] with its samples as a sequence.
pub struct PacketView {
    pub sequence: int,
    pub samples: Seq<i16>,
    pub is_last: bool,
}

impl View for AudioPacket {
    type V = PacketView;

    open spec fn view(&self) -> PacketView {
        PacketView {
            sequence: self.sequence as int,
            samples: self.samples@,
            is_last: self.is_last,
        }
    }
}

/// A list of packets, each by its view.
pub open spec fn packet_views(packets: Seq<AudioPacket>) -> Seq<PacketView> {
    Seq::new(packets.len(), |i: int| packets[i]@)
}

/// The packets that can be sent of an open stream: as many full ones as there are.
pub open spec fn full_packets(samples: Seq<i16>, sequence: int) -> Seq<PacketView>
    decreases samples.len(),
{
    if samples.len() < AUDIO_PACKET_SAMPLES {
        Seq::empty()
    } else {
        let first = PacketView {
            sequence,
            samples: samples.take(AUDIO_PACKET_SAMPLES as int),
            is_last: false,
        };
        seq![first] + full_packets(samples.skip(AUDIO_PACKET_SAMPLES as int), sequence + 1)
    }
}

/// What is left of an open stream behind its full packets.
pub open spec fn unsent(samples: Seq<i16>) -> Seq<i16>
    decreases samples.len(),
{
    if samples.len() < AUDIO_PACKET_SAMPLES {
        samples
    } else {
        unsent(samples.skip(AUDIO_PACKET_SAMPLES as int))
    }
}

/// The packets of a stream that is complete: the last one has at least one sample,
/// unless there is none at all, and is marked.
pub open spec fn all_packets(samples: Seq<i16>, sequence: int) -> Seq<PacketView>
    decreases samples.len(),
{
    if samples.len() <= AUDIO_PACKET_SAMPLES {
        seq![PacketView { sequence, samples, is_last: true }]
    } else {
        let first = PacketView {
            sequence,
            samples: samples.take(AUDIO_PACKET_SAMPLES as int),
            is_last: false,
        };
        seq![first] + all_packets(samples.skip(AUDIO_PACKET_SAMPLES as int), sequence + 1)
    }
}

/// The samples of all packets, one behind the other.
pub open spec fn packet_samples(packets: Seq<PacketView>) -> Seq<i16>
    decreases packets.len(),
{
    if packets.len() == 0 {
        Seq::empty()
    } else {
        packets[0].samples + packet_samples(packets.skip(1))
    }
}

pub proof fn lemma_full_packets_len(samples: Seq<i16>, sequence: int)
    ensures
        full_packets(samples, sequence).len() == samples.len() / AUDIO_PACKET_SAMPLES as nat,
        unsent(samples).len() == samples.len() % AUDIO_PACKET_SAMPLES as nat,
    decreases samples.len(),
{
    if samples.len() >= AUDIO_PACKET_SAMPLES {
        lemma_full_packets_len(samples.skip(AUDIO_PACKET_SAMPLES as int), sequence + 1);
    }
}

/// Sending what is full at once and the rest later sends the same packets as cutting
/// the complete stream.
pub proof fn law_packets_do_not_depend_on_when_they_are_cut(
    samples: Seq<i16>,
    more: Seq<i16>,
    sequence: int,
)
    requires
        more.len() > 0,
    ensures
        full_packets(samples, sequence) + all_packets(
            unsent(samples) + more,
            sequence + full_packets(samples, sequence).len(),
        ) == all_packets(samples + more, sequence),
    decreases samples.len(),
{
    if samples.len() < AUDIO_PACKET_SAMPLES {
        assert(full_packets(samples, sequence) + all_packets(samples + more, sequence)
            =~= all_packets(samples + more, sequence));
    } else {
        let rest = samples.skip(AUDIO_PACKET_SAMPLES as int);
        law_packets_do_not_depend_on_when_they_are_cut(rest, more, sequence + 1);
        assert((samples + more).take(AUDIO_PACKET_SAMPLES as int) == samples.take(
            AUDIO_PACKET_SAMPLES as int,
        ));
        assert((samples + more).skip(AUDIO_PACKET_SAMPLES as int) == rest + more);
        let first = PacketView {
            sequence,
            samples: samples.take(AUDIO_PACKET_SAMPLES as int),
            is_last: false,
        };
        let front = full_packets(rest, sequence + 1);
        let back = all_packets(
            unsent(rest) + more,
            sequence + 1 + front.len(),
        );
        assert((seq![first] + front) + back =~= seq![first] + (front + back));
    }
}

/// Sending the full packets of two pieces of a stream in turn sends those of both
/// together.
pub proof fn law_full_packets_do_not_depend_on_chunks(
    samples: Seq<i16>,
    more: Seq<i16>,
    sequence: int,
)
    ensures
        full_packets(samples, sequence) + full_packets(
            unsent(samples) + more,
            sequence + full_packets(samples, sequence).len(),
        ) == full_packets(samples + more, sequence),
        unsent(unsent(samples) + more) == unsent(samples + more),
    decreases samples.len(),
{
    if samples.len() < AUDIO_PACKET_SAMPLES {
        assert(full_packets(samples, sequence) + full_packets(samples + more, sequence)
            =~= full_packets(samples + more, sequence));
    } else {
        let rest = samples.skip(AUDIO_PACKET_SAMPLES as int);
        law_full_packets_do_not_depend_on_chunks(rest, more, sequence + 1);
        assert((samples + more).take(AUDIO_PACKET_SAMPLES as int) == samples.take(
            AUDIO_PACKET_SAMPLES as int,
        ));
        assert((samples + more).skip(AUDIO_PACKET_SAMPLES as int) == rest + more);
        let first = PacketView {
            sequence,
            samples: samples.take(AUDIO_PACKET_SAMPLES as int),
            is_last: false,
        };
        let front = full_packets(rest, sequence + 1);
        let back = full_packets(unsent(rest) + more, sequence + 1 + front.len());
        assert((seq![first] + front) + back =~= seq![first] + (front + back));
    }
}

/// The packets of a complete stream hold every sample once and in order; they are
/// numbered one after the other; all but the last are full; only the last is marked.
pub proof fn law_packets_hold_the_stream(samples: Seq<i16>, sequence: int)
    ensures
        ({
            let packets = all_packets(samples, sequence);
            &&& packet_samples(packets) == samples
            &&& packets.len() >= 1
            &&& packets.last().samples.len() <= AUDIO_PACKET_SAMPLES
            &&& samples.len() > 0 ==> packets.last().samples.len() > 0
            &&& forall|i: int|
                0 <= i < packets.len() ==> (#[trigger] packets[i]).sequence == sequence + i
                    && packets[i].is_last == (i == packets.len() - 1) && (i < packets.len() - 1
                    ==> packets[i].samples.len() == AUDIO_PACKET_SAMPLES)
        }),
    decreases samples.len(),
{
    let packets = all_packets(samples, sequence);
    if samples.len() <= AUDIO_PACKET_SAMPLES {
        reveal_with_fuel(packet_samples, 2);
        assert(packets.skip(1) =~= Seq::empty());
        assert(packet_samples(packets) =~= samples);
    } else {
        let rest = samples.skip(AUDIO_PACKET_SAMPLES as int);
        law_packets_hold_the_stream(rest, sequence + 1);
        assert(packets.skip(1) =~= all_packets(rest, sequence + 1));
        assert(packets.last() == all_packets(rest, sequence + 1).last());
        assert(packet_samples(packets) =~= samples.take(AUDIO_PACKET_SAMPLES as int) + rest);
        assert(samples =~= samples.take(AUDIO_PACKET_SAMPLES as int) + rest);
        assert forall|i: int| 0 <= i < packets.len() implies (#[trigger] packets[i]).sequence
            == sequence + i && packets[i].is_last == (i == packets.len() - 1) && (i < packets.len()
            - 1 ==> packets[i].samples.len() == AUDIO_PACKET_SAMPLES) by {
            if i > 0 {
                assert(packets[i] == all_packets(rest, sequence + 1)[i - 1]);
            }
        }
    }
}

/// The audio that still has to be sent, and the number of the next packet.
pub struct AudioPackets {
    pending: Vec<i16>,
    sequence: i32,
}

/// [`AudioPackets`] as plain values.
pub struct PacketsView {
    pub pending: Seq<i16>,
    pub sequence: int,
}

impl View for AudioPackets {
    type V = PacketsView;

    closed spec fn view(&self) -> PacketsView {
        PacketsView { pending: self.pending@, sequence: self.sequence as int }
    }
}

impl PacketsView {
    /// Whether the packets of `more` further samples can still be numbered.
    pub open spec fn room(self, more: nat) -> bool {
        &&& self.sequence >= 1
        &&& self.sequence + (self.pending.len() + more) / (AUDIO_PACKET_SAMPLES as nat) < i32::MAX
        &&& self.pending.len() + more <= usize::MAX
    }
}

impl AudioPackets {
    /// The stream begins with silence; the number before its first packet belongs to
    /// the request that opens the session.
    pub fn new() -> (result: AudioPackets)
        ensures
            result@ == (PacketsView { pending: edge_guard(), sequence: 2 }),
    {
        let pending: Vec<i16> = vec![0i16; edge_guard_samples()];
        proof {
            assert(pending@ =~= edge_guard());
        }
        AudioPackets { pending, sequence: 2 }
    }

    /// Whether the packets of `more` further samples can still be numbered.
    pub fn has_room(&self, more: usize) -> (result: bool)
        ensures
            result == self@.room(more as nat),
    {
        match self.pending.len().checked_add(more) {
            Some(total) => self.sequence >= 1 && (self.sequence as u64) + ((total as u64)
                / (AUDIO_PACKET_SAMPLES as u64)) < i32::MAX as u64,
            None => false,
        }
    }

    /// Adds samples that are sent later.
    pub fn absorb(&mut self, samples: &[i16])
        ensures
            final(self)@ == (PacketsView {
                pending: old(self)@.pending + samples@,
                sequence: old(self)@.sequence,
            }),
    {
        let mut i: usize = 0;
        proof {
            assert(self.pending@ =~= old(self).pending@ + samples@.take(0));
        }
        while i < samples.len()
            invariant
                i <= samples@.len(),
                self.sequence == old(self).sequence,
                self.pending@ == old(self).pending@ + samples@.take(i as int),
            decreases samples@.len() - i,
        {
            self.pending.push(samples[i]);
            proof {
                assert(self.pending@ =~= old(self).pending@ + samples@.take(i + 1));
            }
            i += 1;
        }
        proof {
            assert(samples@.take(samples@.len() as int) =~= samples@);
        }
    }

    /// Adds samples and takes out the packets that are full.
    pub fn push(&mut self, samples: &[i16]) -> (result: Vec<AudioPacket>)
        requires
            old(self)@.room(samples@.len()),
        ensures
            packet_views(result@) == full_packets(
                old(self)@.pending + samples@,
                old(self)@.sequence,
            ),
            final(self)@ == (PacketsView {
                pending: unsent(old(self)@.pending + samples@),
                sequence: old(self)@.sequence + result@.len(),
            }),
    {
        self.absorb(samples);
        let ghost all = self@.pending;
        let ghost first = self@.sequence;
        let mut packets: Vec<AudioPacket> = Vec::new();
        let mut start: usize = 0;
        proof {
            lemma_full_packets_len(all, first);
            assert(all.skip(0) =~= all);
            assert(packet_views(packets@) + full_packets(all, first) =~= full_packets(all, first));
        }
        while self.pending.len() - start >= AUDIO_PACKET_SAMPLES
            invariant
                start <= self.pending@.len(),
                self.pending@ == all,
                self.sequence == first + packets@.len(),
                packet_views(packets@) + full_packets(
                    all.skip(start as int),
                    self.sequence as int,
                ) == full_packets(all, first),
                unsent(all.skip(start as int)) == unsent(all),
                full_packets(all, first).len() == all.len() / AUDIO_PACKET_SAMPLES as nat,
                first >= 1,
                first + all.len() / (AUDIO_PACKET_SAMPLES as nat) < i32::MAX,
            decreases self.pending@.len() - start,
        {
            let samples = copy_samples(&self.pending, start, start + AUDIO_PACKET_SAMPLES);
            let ghost before = packets@;
            let ghost sent = PacketView {
                sequence: self.sequence as int,
                samples: samples@,
                is_last: false,
            };
            proof {
                let here = all.skip(start as int);
                assert(here.take(AUDIO_PACKET_SAMPLES as int) =~= samples@);
                assert(here.skip(AUDIO_PACKET_SAMPLES as int) =~= all.skip(
                    start + AUDIO_PACKET_SAMPLES,
                ));
                assert(full_packets(here, self.sequence as int).len() >= 1);
            }
            packets.push(AudioPacket { sequence: self.sequence, samples, is_last: false });
            proof {
                assert(packet_views(packets@) =~= packet_views(before).push(sent));
                let back = full_packets(
                    all.skip(start + AUDIO_PACKET_SAMPLES),
                    self.sequence + 1,
                );
                assert(packet_views(before).push(sent) + back =~= packet_views(before) + (
                seq![sent] + back));
            }
            start = start + AUDIO_PACKET_SAMPLES;
            self.sequence = self.sequence + 1;
        }
        let rest = copy_samples(&self.pending, start, self.pending.len());
        proof {
            assert(rest@ =~= all.skip(start as int));
            assert(packet_views(packets@) + Seq::empty() =~= packet_views(packets@));
        }
        self.pending = rest;
        packets
    }

    /// Adds the closing silence and takes out all that is left, the last packet marked.
    pub fn finish(&mut self) -> (result: Vec<AudioPacket>)
        requires
            old(self)@.room(edge_guard().len()),
        ensures
            packet_views(result@) == all_packets(
                old(self)@.pending + edge_guard(),
                old(self)@.sequence,
            ),
            final(self)@.pending == Seq::<i16>::empty(),
            final(self)@.sequence == old(self)@.sequence + result@.len() - 1,
    {
        let guard: Vec<i16> = vec![0i16; edge_guard_samples()];
        proof {
            assert(guard@ =~= edge_guard());
        }
        self.absorb(guard.as_slice());
        let ghost all = self@.pending;
        let ghost first = self@.sequence;
        let mut packets: Vec<AudioPacket> = Vec::new();
        let mut start: usize = 0;
        proof {
            assert(all.skip(0) =~= all);
            assert(packet_views(packets@) + all_packets(all, first) =~= all_packets(all, first));
        }
        while self.pending.len() - start > AUDIO_PACKET_SAMPLES
            invariant
                start <= self.pending@.len(),
                start == packets@.len() * AUDIO_PACKET_SAMPLES,
                self.pending@ == all,
                self.sequence == first + packets@.len(),
                packet_views(packets@) + all_packets(all.skip(start as int), self.sequence as int)
                    == all_packets(all, first),
                first >= 1,
                first + all.len() / (AUDIO_PACKET_SAMPLES as nat) < i32::MAX,
            decreases self.pending@.len() - start,
        {
            let samples = copy_samples(&self.pending, start, start + AUDIO_PACKET_SAMPLES);
            let ghost before = packets@;
            let ghost sent = PacketView {
                sequence: self.sequence as int,
                samples: samples@,
                is_last: false,
            };
            proof {
                let here = all.skip(start as int);
                assert(here.take(AUDIO_PACKET_SAMPLES as int) =~= samples@);
                assert(here.skip(AUDIO_PACKET_SAMPLES as int) =~= all.skip(
                    start + AUDIO_PACKET_SAMPLES,
                ));
            }
            packets.push(AudioPacket { sequence: self.sequence, samples, is_last: false });
            proof {
                assert(packet_views(packets@) =~= packet_views(before).push(sent));
                let back = all_packets(all.skip(start + AUDIO_PACKET_SAMPLES), self.sequence + 1);
                assert(packet_views(before).push(sent) + back =~= packet_views(before) + (
                seq![sent] + back));
            }
            start = start + AUDIO_PACKET_SAMPLES;
            self.sequence = self.sequence + 1;
        }
        let rest = copy_samples(&self.pending, start, self.pending.len());
        let ghost before = packets@;
        proof {
            assert(rest@ =~= all.skip(start as int));
        }
        packets.push(AudioPacket { sequence: self.sequence, samples: rest, is_last: true });
        proof {
            assert(packet_views(packets@) =~= packet_views(before) + all_packets(
                all.skip(start as int),
                self.sequence as int,
            ));
        }
        self.pending = Vec::new();
        packets
    }
}

fn copy_samples(samples: &Vec<i16>, from: usize, to: usize) -> (result: Vec<i16>)
    requires
        from <= to <= samples@.len(),
    ensures
        result@ == samples@.subrange(from as int, to as int),
{
    let mut result: Vec<i16> = Vec::new();
    let mut i: usize = from;
    while i < to
        invariant
            from <= i <= to <= samples@.len(),
            result@ == samples@.subrange(from as int, i as int),
        decreases to - i,
    {
        result.push(samples[i]);
        proof {
            assert(result@ =~= samples@.subrange(from as int, i + 1));
        }
        i += 1;
    }
    result
}

/// The frame that carries a packet.
pub fn packet_frame(packet: &AudioPacket) -> (result: Result<Vec<u8>, ProtocolError>)
    requires
        packet.sequence != i32::MIN,
    ensures
        match result {
            Ok(frame) => compressed(gzipped(pcm_bytes(packet.samples@))) is Ok && frame@
                == audio_frame(
                packet.sequence,
                compressed(gzipped(pcm_bytes(packet.samples@)))->Ok_0,
                packet.is_last,
            ) && gunzipped(frame@.skip(12)) == Some(pcm_bytes(packet.samples@)),
            Err(error) => compressed(gzipped(pcm_bytes(packet.samples@))) == Err::<
                Seq<u8>,
                ProtocolErrorView,
            >(error@),
        },
{
    let pcm = encode_pcm(packet.samples.as_slice());
    audio_request(packet.sequence, pcm.as_slice(), packet.is_last)
}

/// The full packets of an open stream and what is left of it hold every sample once and in
/// order; each packet has 3200 samples, less than a packet is left, the packets are numbered
/// one after the other, and none is marked as the last.
pub proof fn law_full_packets_hold_the_stream(samples: Seq<i16>, sequence: int)
    ensures
        ({
            let packets = full_packets(samples, sequence);
            &&& packet_samples(packets) + unsent(samples) == samples
            &&& unsent(samples).len() < 3_200
            &&& forall|i: int|
                0 <= i < packets.len() ==> (#[trigger] packets[i]).sequence == sequence + i
                    && !packets[i].is_last && packets[i].samples.len() == 3_200
        }),
    decreases samples.len(),
{
    let packets = full_packets(samples, sequence);
    if samples.len() < AUDIO_PACKET_SAMPLES {
        assert(packet_samples(packets) + unsent(samples) =~= samples);
    } else {
        let rest = samples.skip(AUDIO_PACKET_SAMPLES as int);
        law_full_packets_hold_the_stream(rest, sequence + 1);
        assert(packets.skip(1) =~= full_packets(rest, sequence + 1));
        assert(samples.take(AUDIO_PACKET_SAMPLES as int) + packet_samples(packets.skip(1)) + unsent(
            rest,
        ) =~= samples.take(AUDIO_PACKET_SAMPLES as int) + (packet_samples(packets.skip(1))
            + unsent(rest)));
        assert(samples =~= samples.take(AUDIO_PACKET_SAMPLES as int) + rest);
        assert forall|i: int| 0 <= i < packets.len() implies (#[trigger] packets[i]).sequence
            == sequence + i && !packets[i].is_last && packets[i].samples.len() == 3_200 by {
            if i > 0 {
                assert(packets[i] == full_packets(rest, sequence + 1)[i - 1]);
            }
        }
    }
}

/// There is room for further samples exactly when the number behind the full packets still is
/// one that a packet may have, and all that is not sent can be held at once.
pub proof fn law_room_is_for_numbers(packets: PacketsView, samples: Seq<i16>)
    ensures
        packets.room(samples.len()) <==> packets.sequence >= 1 && packets.sequence + full_packets(
            packets.pending + samples,
            packets.sequence,
        ).len() < 0x7fff_ffff && packets.pending.len() + samples.len() <= usize::MAX,
{
    lemma_full_packets_len(packets.pending + samples, packets.sequence);
}

} // verus!
