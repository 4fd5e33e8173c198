//! The three taps of a session, one for each phase of the protocol: they take
//! what the connection delivered in one cycle, in order, and hand it to the
//! recorder before anything else consumes it.

use crate::archive::ENTRY_LIMIT;
use crate::error::Error;
use crate::framing::{FrameView, HEADER_LEN};
use crate::recorder::{Recorder, RecorderView};
use vstd::prelude::*;

verus! {

/// A packet that the protocol codec has decoded, written out again as the
/// bytes of its identifier and of its body.
#[derive(Clone, Debug, PartialEq, Eq)]
pub struct DecodedPacket {
    /// The packet's identifier in the variable-length encoding of the wire.
    pub identifier: Vec<u8>,
    /// The packet's fields as they stand on the wire.
    pub body: Vec<u8>,
    /// Whether this is the login packet that negotiates compression.
    pub negotiates_compression: bool,
}

/// What a [`DecodedPacket`] stands for.
pub ghost struct DecodedPacketView {
    pub identifier: Seq<u8>,
    pub body: Seq<u8>,
    pub negotiates_compression: bool,
}

impl DecodedPacketView {
    /// The bytes that are recorded for this packet.
    pub open spec fn payload(self) -> Seq<u8> {
        self.identifier + self.body
    }
}

impl View for DecodedPacket {
    type V = DecodedPacketView;

    open spec fn view(&self) -> DecodedPacketView {
        DecodedPacketView {
            identifier: self.identifier@,
            body: self.body@,
            negotiates_compression: self.negotiates_compression,
        }
    }
}

/// The views of the packets of one cycle.
pub open spec fn packet_views(packets: Seq<DecodedPacket>) -> Seq<DecodedPacketView> {
    packets.map_values(|packet: DecodedPacket| packet@)
}

/// The views of the buffers of one cycle.
pub open spec fn buffer_views(buffers: Seq<Vec<u8>>) -> Seq<Seq<u8>> {
    buffers.map_values(|buffer: Vec<u8>| buffer@)
}

/// The payloads of a sequence of frames, in order.
pub open spec fn payloads(frames: Seq<FrameView>) -> Seq<Seq<u8>> {
    frames.map_values(|frame: FrameView| frame.payload)
}

/// The payloads of a sequence of packets, in order.
pub open spec fn packet_payloads(packets: Seq<DecodedPacketView>) -> Seq<Seq<u8>> {
    packets.map_values(|packet: DecodedPacketView| packet.payload())
}

/// The payloads that a tap hands to the recorder: those of all packets, in
/// order, but for the ones that negotiate compression where these are
/// excluded.
pub open spec fn kept_payloads(packets: Seq<DecodedPacketView>, exclude: bool) -> Seq<Seq<u8>>
    decreases packets.len(),
{
    if packets.len() == 0 {
        Seq::empty()
    } else if exclude && packets.last().negotiates_compression {
        kept_payloads(packets.drop_last(), exclude)
    } else {
        kept_payloads(packets.drop_last(), exclude).push(packets.last().payload())
    }
}

/// The bytes that these payloads take in the packet entry, each in a frame
/// of its own.
pub open spec fn framed_size(payloads: Seq<Seq<u8>>) -> nat
    decreases payloads.len(),
{
    if payloads.len() == 0 {
        0
    } else {
        framed_size(payloads.drop_last()) + HEADER_LEN as nat + payloads.last().len()
    }
}

/// The first payloads of a sequence take no more bytes than all of them.
pub proof fn lemma_framed_size_prefix(payloads: Seq<Seq<u8>>, count: int)
    requires
        0 <= count <= payloads.len(),
    ensures
        framed_size(payloads.take(count)) <= framed_size(payloads),
    decreases payloads.len(),
{
    if count == payloads.len() {
        assert(payloads.take(count) =~= payloads);
    } else {
        lemma_framed_size_prefix(payloads.drop_last(), count);
        assert(payloads.drop_last().take(count) =~= payloads.take(count));
    }
}

/// Of the first packets of a sequence no more bytes are kept than of all of
/// them.
pub proof fn lemma_kept_size_prefix(packets: Seq<DecodedPacketView>, exclude: bool, count: int)
    requires
        0 <= count <= packets.len(),
    ensures
        framed_size(kept_payloads(packets.take(count), exclude)) <= framed_size(
            kept_payloads(packets, exclude),
        ),
    decreases packets.len(),
{
    if count == packets.len() {
        assert(packets.take(count) =~= packets);
    } else {
        lemma_kept_size_prefix(packets.drop_last(), exclude, count);
        assert(packets.drop_last().take(count) =~= packets.take(count));
        if !(exclude && packets.last().negotiates_compression) {
            assert(kept_payloads(packets, exclude).drop_last() =~= kept_payloads(
                packets.drop_last(),
                exclude,
            ));
        }
    }
}

/// The recorder after packets with these payloads came, one after another,
/// each at its time into the session.
pub open spec fn after_packets(
    start: RecorderView,
    payloads: Seq<Seq<u8>>,
    times: Seq<int>,
) -> RecorderView
    decreases payloads.len(),
{
    if payloads.len() == 0 {
        start
    } else {
        after_packets(start, payloads.drop_last(), times.drop_last()).after_packet(
            times.last(),
            payloads.last(),
        )
    }
}

/// How many of the packets that came, one after another, each at its time
/// into the session, were not written.
pub open spec fn refused(start: RecorderView, payloads: Seq<Seq<u8>>, times: Seq<int>) -> nat
    decreases payloads.len(),
{
    if payloads.len() == 0 {
        0
    } else {
        refused(start, payloads.drop_last(), times.drop_last()) + if after_packets(
            start,
            payloads.drop_last(),
            times.drop_last(),
        ).takes(times.last(), payloads.last()) {
            0nat
        } else {
            1nat
        }
    }
}

/// Every failure of the sequence is one of size, none of writing.
pub open spec fn only_size_failures(failures: Seq<Error>) -> bool {
    forall|i: int| 0 <= i < failures.len() ==> #[trigger] failures[i] == Error::SizeOverflow
}

/// With nothing excluded, every packet is kept, in order.
pub proof fn lemma_exclusion_off(packets: Seq<DecodedPacketView>)
    ensures
        kept_payloads(packets, false) == packet_payloads(packets),
        kept_payloads(packets, false).len() == packets.len(),
    decreases packets.len(),
{
    if packets.len() > 0 {
        lemma_exclusion_off(packets.drop_last());
        assert(packet_payloads(packets.drop_last()).push(packets.last().payload())
            =~= packet_payloads(packets));
    } else {
        assert(kept_payloads(packets, false) =~= packet_payloads(packets));
    }
}

/// Packets of which none negotiates compression are all kept, in order,
/// whether or not such packets are excluded.
pub proof fn lemma_nothing_to_exclude(packets: Seq<DecodedPacketView>, exclude: bool)
    requires
        forall|i: int| 0 <= i < packets.len() ==> !(#[trigger] packets[i]).negotiates_compression,
    ensures
        kept_payloads(packets, exclude) == packet_payloads(packets),
    decreases packets.len(),
{
    if packets.len() > 0 {
        lemma_nothing_to_exclude(packets.drop_last(), exclude);
        assert(packet_payloads(packets.drop_last()).push(packets.last().payload())
            =~= packet_payloads(packets));
    } else {
        assert(kept_payloads(packets, exclude) =~= packet_payloads(packets));
    }
}

/// With exclusion on, of packets among which exactly one, the one at `at`,
/// negotiates compression, all the others are kept, in order and unchanged:
/// one fewer than came in.
pub proof fn lemma_exclusion_on(packets: Seq<DecodedPacketView>, at: int)
    requires
        0 <= at < packets.len(),
        forall|i: int|
            0 <= i < packets.len() ==> ((#[trigger] packets[i]).negotiates_compression <==> i
                == at),
    ensures
        kept_payloads(packets, true) == packet_payloads(packets.remove(at)),
        kept_payloads(packets, true).len() == packets.len() - 1,
    decreases packets.len(),
{
    let front = packets.drop_last();
    if at == packets.len() - 1 {
        lemma_nothing_to_exclude(front, true);
        assert(packets.remove(at) =~= front);
    } else {
        lemma_exclusion_on(front, at);
        assert(packet_payloads(front.remove(at)).push(packets.last().payload())
            =~= packet_payloads(packets.remove(at)));
    }
}

/// Hands the packets of one cycle to the recorder, in order, leaving out
/// those that negotiate compression where `exclude` is set, and collects the
/// failures.
fn record_packets(recorder: &mut Recorder, packets: &[DecodedPacket], exclude: bool) -> (failures:
    Vec<Error>)
    ensures
        final(recorder)@.same_session(old(recorder)@),
        failures@.len() <= kept_payloads(packet_views(packets@), exclude).len(),
        old(recorder)@.intact() && old(recorder)@.stream().len() + framed_size(
            kept_payloads(packet_views(packets@), exclude),
        ) < ENTRY_LIMIT ==> only_size_failures(failures@),
        !old(recorder)@.open ==> final(recorder)@ == old(recorder)@ && failures@.len()
            == kept_payloads(packet_views(packets@), exclude).len(),
        old(recorder)@.usable() ==> final(recorder)@.usable() && exists|times: Seq<int>|
            {
                &&& times.len() == kept_payloads(packet_views(packets@), exclude).len()
                &&& final(recorder)@ == #[trigger] after_packets(
                    old(recorder)@,
                    kept_payloads(packet_views(packets@), exclude),
                    times,
                )
                &&& failures@.len() == refused(
                    old(recorder)@,
                    kept_payloads(packet_views(packets@), exclude),
                    times,
                )
            },
        old(recorder)@.intact() && only_size_failures(failures@) ==> {
            &&& final(recorder)@.intact()
            &&& old(recorder)@.frames().is_prefix_of(final(recorder)@.frames())
            &&& final(recorder)@.frames().len() + failures@.len() == old(recorder)@.frames().len()
                + kept_payloads(packet_views(packets@), exclude).len()
        },
        old(recorder)@.intact() && failures@.len() == 0 ==> payloads(final(recorder)@.frames())
            == payloads(old(recorder)@.frames()) + kept_payloads(packet_views(packets@), exclude),
{
    let mut failures: Vec<Error> = Vec::new();
    let mut i: usize = 0;
    let ghost mut times: Seq<int> = Seq::empty();
    proof {
        assert(packet_views(packets@).take(0) =~= Seq::<DecodedPacketView>::empty());
        assert(payloads(recorder@.frames()) + Seq::<Seq<u8>>::empty() =~= payloads(
            recorder@.frames(),
        ));
    }
    while i < packets.len()
        invariant
            i <= packets@.len(),
            recorder@.same_session(old(recorder)@),
            failures@.len() <= kept_payloads(packet_views(packets@).take(i as int), exclude).len(),
            old(recorder)@.intact() && old(recorder)@.stream().len() + framed_size(
                kept_payloads(packet_views(packets@), exclude),
            ) < ENTRY_LIMIT ==> only_size_failures(failures@),
            !old(recorder)@.open ==> recorder@ == old(recorder)@ && failures@.len()
                == kept_payloads(packet_views(packets@).take(i as int), exclude).len(),
            old(recorder)@.usable() ==> {
                &&& recorder@.usable()
                &&& times.len() == kept_payloads(
                    packet_views(packets@).take(i as int),
                    exclude,
                ).len()
                &&& recorder@ == after_packets(
                    old(recorder)@,
                    kept_payloads(packet_views(packets@).take(i as int), exclude),
                    times,
                )
                &&& failures@.len() == refused(
                    old(recorder)@,
                    kept_payloads(packet_views(packets@).take(i as int), exclude),
                    times,
                )
            },
            old(recorder)@.intact() && only_size_failures(failures@) ==> recorder@.stream().len()
                <= old(recorder)@.stream().len() + framed_size(
                kept_payloads(packet_views(packets@).take(i as int), exclude),
            ),
            old(recorder)@.intact() && only_size_failures(failures@) ==> {
                &&& recorder@.intact()
                &&& old(recorder)@.frames().is_prefix_of(recorder@.frames())
                &&& recorder@.frames().len() + failures@.len() == old(recorder)@.frames().len()
                    + kept_payloads(packet_views(packets@).take(i as int), exclude).len()
            },
            old(recorder)@.intact() && failures@.len() == 0 ==> payloads(recorder@.frames())
                == payloads(old(recorder)@.frames()) + kept_payloads(
                packet_views(packets@).take(i as int),
                exclude,
            ),
        decreases packets@.len() - i,
    {
        let packet = &packets[i];
        let ghost before = recorder@;
        let ghost seen = packet_views(packets@).take(i as int);
        let ghost next = packet_views(packets@).take(i + 1);
        proof {
            assert(next.drop_last() =~= seen);
            assert(next.last() == packet@);
            lemma_kept_size_prefix(packet_views(packets@), exclude, i + 1);
            if !(exclude && packet.negotiates_compression) {
                assert(kept_payloads(next, exclude).drop_last() =~= kept_payloads(seen, exclude));
            }
        }
        if !(exclude && packet.negotiates_compression) {
            let saved = recorder.save_packet(
                packet.identifier.as_slice(),
                packet.body.as_slice(),
            );
            proof {
                if old(recorder)@.usable() {
                    let time = choose|time: int|
                        recorder@ == #[trigger] before.after_packet(time, packet@.payload()) && (
                        saved is Ok <==> before.takes(time, packet@.payload()));
                    assert(kept_payloads(next, exclude).last() == packet@.payload());
                    assert(times.push(time).drop_last() =~= times);
                    times = times.push(time);
                }
            }
            match saved {
                Ok(()) => {
                    proof {
                        if old(recorder)@.intact() && only_size_failures(failures@) {
                            let frames = recorder@.frames();
                            assert(frames =~= before.frames().push(frames.last()));
                            if failures@.len() == 0 {
                                assert(payloads(frames) =~= payloads(before.frames()).push(
                                    packet@.payload(),
                                ));
                                assert(payloads(frames) =~= payloads(old(recorder)@.frames())
                                    + kept_payloads(next, exclude));
                            }
                        }
                    }
                },
                Err(error) => {
                    let ghost earlier = failures@;
                    failures.push(error);
                    proof {
                        if only_size_failures(failures@) {
                            assert(failures@[earlier.len() as int] == Error::SizeOverflow);
                            assert forall|k: int| 0 <= k < earlier.len() implies earlier[k]
                                == Error::SizeOverflow by {
                                assert(failures@[k] == earlier[k]);
                            }
                        }
                    }
                },
            }
        }
        i += 1;
    }
    proof {
        assert(packet_views(packets@).take(i as int) =~= packet_views(packets@));
    }
    failures
}

/// The tap of the login phase: records each decoded packet of this cycle, in
/// order, but for the one that negotiates compression where the recorder
/// leaves it out. Returns the failures, in order; a packet that failed is
/// skipped and the next one is tried,
/// so that each one is written or gives one failure. On an intact recorder
/// with room for all of them nothing but the time can make one fail.
///
/// Where the recorder was intact and nothing failed, the frames it holds
/// afterwards are those it held before, followed by one frame for each packet
/// kept, with that packet's identifier and body as payload.
pub fn record_login_packets(recorder: &mut Recorder, packets: &[DecodedPacket]) -> (failures: Vec<
    Error,
>)
    ensures
        final(recorder)@.same_session(old(recorder)@),
        failures@.len() <= kept_payloads(
            packet_views(packets@),
            old(recorder)@.should_ignore_compression,
        ).len(),
        old(recorder)@.intact() && old(recorder)@.stream().len() + framed_size(
            kept_payloads(packet_views(packets@), old(recorder)@.should_ignore_compression),
        ) < ENTRY_LIMIT ==> only_size_failures(failures@),
        !old(recorder)@.open ==> final(recorder)@ == old(recorder)@ && failures@.len()
            == kept_payloads(
            packet_views(packets@),
            old(recorder)@.should_ignore_compression,
        ).len(),
        old(recorder)@.usable() ==> final(recorder)@.usable() && exists|times: Seq<int>|
            {
                &&& times.len() == kept_payloads(
                    packet_views(packets@),
                    old(recorder)@.should_ignore_compression,
                ).len()
                &&& final(recorder)@ == #[trigger] after_packets(
                    old(recorder)@,
                    kept_payloads(packet_views(packets@), old(recorder)@.should_ignore_compression),
                    times,
                )
                &&& failures@.len() == refused(
                    old(recorder)@,
                    kept_payloads(packet_views(packets@), old(recorder)@.should_ignore_compression),
                    times,
                )
            },
        old(recorder)@.intact() && only_size_failures(failures@) ==> {
            &&& final(recorder)@.intact()
            &&& old(recorder)@.frames().is_prefix_of(final(recorder)@.frames())
            &&& final(recorder)@.frames().len() + failures@.len() == old(recorder)@.frames().len()
                + kept_payloads(
                packet_views(packets@),
                old(recorder)@.should_ignore_compression,
            ).len()
        },
        old(recorder)@.intact() && failures@.len() == 0 ==> payloads(final(recorder)@.frames())
            == payloads(old(recorder)@.frames()) + kept_payloads(
            packet_views(packets@),
            old(recorder)@.should_ignore_compression,
        ),
{
    let exclude = recorder.should_ignore_compression();
    record_packets(recorder, packets, exclude)
}

/// The tap of the configuration phase: records every decoded packet of this
/// cycle, in order. Returns the failures, in order; a packet that failed is
/// skipped and the next one is tried,
/// so that each one is written or gives one failure. On an intact recorder
/// with room for all of them nothing but the time can make one fail.
///
/// Where the recorder was intact and nothing failed, the frames it holds
/// afterwards are those it held before, followed by one frame for each
/// packet, with that packet's identifier and body as payload.
pub fn record_configuration_packets(recorder: &mut Recorder, packets: &[DecodedPacket]) -> (failures:
    Vec<Error>)
    ensures
        final(recorder)@.same_session(old(recorder)@),
        failures@.len() <= packets@.len(),
        old(recorder)@.intact() && old(recorder)@.stream().len() + framed_size(
            packet_payloads(packet_views(packets@)),
        ) < ENTRY_LIMIT ==> only_size_failures(failures@),
        !old(recorder)@.open ==> final(recorder)@ == old(recorder)@ && failures@.len()
            == packets@.len(),
        old(recorder)@.usable() ==> final(recorder)@.usable() && exists|times: Seq<int>|
            {
                &&& times.len() == packets@.len()
                &&& final(recorder)@ == #[trigger] after_packets(
                    old(recorder)@,
                    packet_payloads(packet_views(packets@)),
                    times,
                )
                &&& failures@.len() == refused(
                    old(recorder)@,
                    packet_payloads(packet_views(packets@)),
                    times,
                )
            },
        old(recorder)@.intact() && only_size_failures(failures@) ==> {
            &&& final(recorder)@.intact()
            &&& old(recorder)@.frames().is_prefix_of(final(recorder)@.frames())
            &&& final(recorder)@.frames().len() + failures@.len() == old(recorder)@.frames().len()
                + packets@.len()
        },
        old(recorder)@.intact() && failures@.len() == 0 ==> payloads(final(recorder)@.frames())
            == payloads(old(recorder)@.frames()) + packet_payloads(packet_views(packets@)),
{
    proof {
        lemma_exclusion_off(packet_views(packets@));
    }
    record_packets(recorder, packets, false)
}

/// The tap of the game phase: records every buffer of the connection's
/// incoming queue, as received and in order. Returns the failures, in order;
/// a buffer that failed is skipped and the next one is tried,
/// so that each one is written or gives one failure. On an intact recorder
/// with room for all of them nothing but the time can make one fail.
///
/// Where the recorder was intact and nothing failed, the frames it holds
/// afterwards are those it held before, followed by one frame for each
/// buffer, with that buffer's bytes as payload.
pub fn record_game_packets(recorder: &mut Recorder, queue: &[Vec<u8>]) -> (failures: Vec<Error>)
    ensures
        final(recorder)@.same_session(old(recorder)@),
        failures@.len() <= queue@.len(),
        old(recorder)@.intact() && old(recorder)@.stream().len() + framed_size(
            buffer_views(queue@),
        ) < ENTRY_LIMIT ==> only_size_failures(failures@),
        !old(recorder)@.open ==> final(recorder)@ == old(recorder)@ && failures@.len()
            == queue@.len(),
        old(recorder)@.usable() ==> final(recorder)@.usable() && exists|times: Seq<int>|
            {
                &&& times.len() == queue@.len()
                &&& final(recorder)@ == #[trigger] after_packets(
                    old(recorder)@,
                    buffer_views(queue@),
                    times,
                )
                &&& failures@.len() == refused(old(recorder)@, buffer_views(queue@), times)
            },
        old(recorder)@.intact() && only_size_failures(failures@) ==> {
            &&& final(recorder)@.intact()
            &&& old(recorder)@.frames().is_prefix_of(final(recorder)@.frames())
            &&& final(recorder)@.frames().len() + failures@.len() == old(recorder)@.frames().len()
                + queue@.len()
        },
        old(recorder)@.intact() && failures@.len() == 0 ==> payloads(final(recorder)@.frames())
            == payloads(old(recorder)@.frames()) + buffer_views(queue@),
{
    let mut failures: Vec<Error> = Vec::new();
    let mut i: usize = 0;
    let ghost mut times: Seq<int> = Seq::empty();
    proof {
        assert(buffer_views(queue@).take(0) =~= Seq::<Seq<u8>>::empty());
        assert(payloads(recorder@.frames()) + Seq::<Seq<u8>>::empty() =~= payloads(
            recorder@.frames(),
        ));
    }
    while i < queue.len()
        invariant
            i <= queue@.len(),
            recorder@.same_session(old(recorder)@),
            failures@.len() <= i,
            old(recorder)@.intact() && old(recorder)@.stream().len() + framed_size(
                buffer_views(queue@),
            ) < ENTRY_LIMIT ==> only_size_failures(failures@),
            !old(recorder)@.open ==> recorder@ == old(recorder)@ && failures@.len() == i,
            old(recorder)@.usable() ==> {
                &&& recorder@.usable()
                &&& times.len() == i
                &&& recorder@ == after_packets(
                    old(recorder)@,
                    buffer_views(queue@).take(i as int),
                    times,
                )
                &&& failures@.len() == refused(
                    old(recorder)@,
                    buffer_views(queue@).take(i as int),
                    times,
                )
            },
            old(recorder)@.intact() && only_size_failures(failures@) ==> recorder@.stream().len()
                <= old(recorder)@.stream().len() + framed_size(
                buffer_views(queue@).take(i as int),
            ),
            old(recorder)@.intact() && only_size_failures(failures@) ==> {
                &&& recorder@.intact()
                &&& old(recorder)@.frames().is_prefix_of(recorder@.frames())
                &&& recorder@.frames().len() + failures@.len() == old(recorder)@.frames().len() + i
            },
            old(recorder)@.intact() && failures@.len() == 0 ==> payloads(recorder@.frames())
                == payloads(old(recorder)@.frames()) + buffer_views(queue@).take(i as int),
        decreases queue@.len() - i,
    {
        let buffer = &queue[i];
        let ghost before = recorder@;
        proof {
            lemma_framed_size_prefix(buffer_views(queue@), i + 1);
            assert(buffer_views(queue@).take(i + 1).drop_last() =~= buffer_views(queue@).take(
                i as int,
            ));
            assert(buffer_views(queue@).take(i + 1).last() == buffer@);
        }
        let saved = recorder.save_raw_packet(buffer.as_slice());
        proof {
            if old(recorder)@.usable() {
                let time = choose|time: int|
                    recorder@ == #[trigger] before.after_packet(time, buffer@) && (saved is Ok
                        <==> before.takes(time, buffer@));
                assert(times.push(time).drop_last() =~= times);
                times = times.push(time);
            }
        }
        match saved {
            Ok(()) => {
                proof {
                    if old(recorder)@.intact() && only_size_failures(failures@) {
                        let frames = recorder@.frames();
                        assert(frames =~= before.frames().push(frames.last()));
                        if failures@.len() == 0 {
                            assert(payloads(frames) =~= payloads(before.frames()).push(buffer@));
                            assert(buffer_views(queue@).take(i + 1) =~= buffer_views(queue@).take(
                                i as int,
                            ).push(buffer@));
                        }
                    }
                }
            },
            Err(error) => {
                let ghost earlier = failures@;
                failures.push(error);
                proof {
                    if only_size_failures(failures@) {
                        assert(failures@[earlier.len() as int] == Error::SizeOverflow);
                        assert forall|k: int| 0 <= k < earlier.len() implies earlier[k]
                            == Error::SizeOverflow by {
                            assert(failures@[k] == earlier[k]);
                        }
                    }
                }
            },
        }
        i += 1;
    }
    proof {
        assert(buffer_views(queue@).take(i as int) =~= buffer_views(queue@));
    }
    failures
}

} // verus!
