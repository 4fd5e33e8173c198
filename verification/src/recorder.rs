//! The recorder of one session: it stamps each packet with the time since
//! the session began, frames it, and appends it to the packet entry of the
//! archive; at the end it adds the metadata entry and closes the archive.

use crate::archive::{
    archive_listing, closable, has_name, with_appended, ArchiveWriter, Entry, ENTRY_LIMIT,
    SEAL_LIMIT,
};
use crate::clock::{elapsed_millis, unix_millis};
use crate::error::Error;
use crate::framing::{
    all_fit, encode, lemma_parse_append, lemma_parse_round_trip, parse_stream, stream_bytes,
    FrameView, HEADER_LEN,
};
use crate::metadata::{reading, timing_fits, SessionMetadata, SessionMetadataView};
use std::time::Instant;
use vstd::prelude::*;
use vstd::utf8::encode_utf8;

verus! {

/// Name of the archive entry that holds the framed packets.
pub const PACKET_ENTRY: &'static str = "recording.tmcpr";

/// Name of the archive entry that holds the session metadata.
pub const METADATA_ENTRY: &'static str = "metaData.json";

/// Records the packets of one session into a replay archive.
pub struct Recorder {
    archive: ArchiveWriter,
    start: Instant,
    server: String,
    game_version: String,
    protocol_version: i32,
    generator: String,
    should_ignore_compression: bool,
}

/// What a [`Recorder`] stands for: the archive as written so far, and the
/// labels of the session.
pub ghost struct RecorderView {
    pub entries: Seq<Entry>,
    pub open: bool,
    /// The sample of the monotonic clock from which packets are stamped.
    pub start: Instant,
    pub server_label: Seq<char>,
    pub game_version: Seq<char>,
    pub protocol_version: int,
    pub generator: Seq<char>,
    /// Whether the login packet that negotiates compression is left out.
    pub should_ignore_compression: bool,
}

/// The frame of a packet that arrived `elapsed_ms` into the session.
pub open spec fn captured(elapsed_ms: int, identifier: Seq<u8>, body: Seq<u8>) -> FrameView {
    FrameView { elapsed_ms, payload: identifier + body }
}

impl RecorderView {
    /// The archive holds the packet entry alone, open, with whole frames in
    /// it: no write has failed so far.
    pub open spec fn intact(self) -> bool {
        &&& self.open
        &&& self.entries.len() == 1
        &&& self.entries[0].0 == PACKET_ENTRY@
        &&& parse_stream(self.entries[0].1) is Some
    }

    /// The bytes of the packet entry.
    pub open spec fn stream(self) -> Seq<u8>
        recommends
            self.entries.len() > 0,
    {
        self.entries[0].1
    }

    /// The frames recorded so far.
    pub open spec fn frames(self) -> Seq<FrameView>
        recommends
            self.intact(),
    {
        parse_stream(self.stream())->Some_0
    }

    /// The recorder after a frame was refused for want of room: the entry
    /// that was open is dropped, and none is open.
    pub open spec fn without_entry(self) -> RecorderView {
        RecorderView { entries: self.entries.drop_last(), open: false, ..self }
    }

    /// The open entry has no room for one more frame with a payload of this
    /// length.
    pub open spec fn is_full(self, payload_len: nat) -> bool {
        self.open && self.entries.len() > 0 && self.entries.last().1.len() + HEADER_LEN
            + payload_len >= ENTRY_LIMIT
    }

    /// Where an entry is open, the archive has an entry.
    pub open spec fn usable(self) -> bool {
        self.open ==> self.entries.len() > 0
    }

    /// Whether a packet with this payload that comes `elapsed_ms` into the
    /// session is written: time and length fit a frame, and the open entry
    /// has room for the frame.
    pub open spec fn takes(self, elapsed_ms: int, payload: Seq<u8>) -> bool {
        &&& (FrameView { elapsed_ms, payload }).fits()
        &&& self.open
        &&& self.entries.len() > 0
        &&& self.entries.last().1.len() + HEADER_LEN + payload.len() < ENTRY_LIMIT
    }

    /// The recorder after a packet with this payload came `elapsed_ms` into
    /// the session: with the frame, where it is written; as before, where
    /// the frame does not fit or no entry is open; without the entry, where
    /// the entry has no room for it.
    pub open spec fn after_packet(self, elapsed_ms: int, payload: Seq<u8>) -> RecorderView {
        if self.takes(elapsed_ms, payload) {
            self.with_frame(FrameView { elapsed_ms, payload })
        } else if (FrameView { elapsed_ms, payload }).fits() && self.open {
            self.without_entry()
        } else {
            self
        }
    }

    /// The recorder after one more frame went to its open entry.
    pub open spec fn with_frame(self, frame: FrameView) -> RecorderView {
        RecorderView { entries: with_appended(self.entries, frame.bytes()), open: true, ..self }
    }

    /// Both stand for the same session: they differ at most in the archive.
    pub open spec fn same_session(self, other: RecorderView) -> bool {
        &&& self.start == other.start
        &&& self.server_label == other.server_label
        &&& self.game_version == other.game_version
        &&& self.protocol_version == other.protocol_version
        &&& self.generator == other.generator
        &&& self.should_ignore_compression == other.should_ignore_compression
    }

    /// The metadata of the session, should it end `elapsed_ms` after its
    /// start with the wall clock at `unix_ms`.
    pub open spec fn metadata(self, elapsed_ms: int, unix_ms: int) -> SessionMetadataView {
        SessionMetadataView {
            server_label: self.server_label,
            duration_ms: elapsed_ms,
            start_wallclock_ms: unix_ms - elapsed_ms,
            game_version: self.game_version,
            protocol_version: self.protocol_version,
            generator: self.generator,
        }
    }

    /// The recorder is intact, and its packet entry has room for one more
    /// frame with a payload of this length.
    pub open spec fn has_room(self, payload_len: nat) -> bool {
        self.intact() && self.stream().len() + HEADER_LEN + payload_len < ENTRY_LIMIT
    }

    /// The labels of the session are short enough for its metadata to go
    /// into an entry.
    pub open spec fn labels_fit(self) -> bool {
        6 * (self.server_label.len() + self.game_version.len() + self.generator.len()) + 677
            <= SEAL_LIMIT
    }

    /// The recorder is intact, and packet entry and labels are short enough
    /// for the archive to be closed.
    pub open spec fn sealable(self) -> bool {
        self.intact() && self.stream().len() <= SEAL_LIMIT && self.labels_fit()
    }

    /// The archive can take the metadata entry and be closed: the entry that
    /// is open, if one is, can be closed, no entry has the name of the
    /// metadata entry, and the labels are short enough.
    pub open spec fn can_close(self) -> bool {
        closable(self.entries, self.open) && !has_name(self.entries, METADATA_ENTRY@)
            && self.labels_fit()
    }

    /// The entries of the finished archive, should the session end
    /// `elapsed_ms` after its start with the wall clock at `unix_ms`.
    pub open spec fn sealed(self, elapsed_ms: int, unix_ms: int) -> Seq<Entry> {
        self.entries.push(
            (METADATA_ENTRY@, encode_utf8(self.metadata(elapsed_ms, unix_ms).json())),
        )
    }
}

impl View for Recorder {
    type V = RecorderView;

    closed spec fn view(&self) -> RecorderView {
        RecorderView {
            entries: self.archive.entries(),
            open: self.archive.is_open(),
            start: self.start,
            server_label: self.server@,
            game_version: self.game_version@,
            protocol_version: self.protocol_version as int,
            generator: self.generator@,
            should_ignore_compression: self.should_ignore_compression,
        }
    }
}

/// One more frame in the open entry of an intact recorder is one more frame
/// at the end of what it has recorded.
pub proof fn lemma_frame_recorded(before: RecorderView, frame: FrameView)
    requires
        before.intact(),
        frame.fits(),
    ensures
        before.with_frame(frame).intact(),
        before.with_frame(frame).frames() == before.frames().push(frame),
        before.with_frame(frame).stream() == before.stream() + frame.bytes(),
        before.with_frame(frame).stream().len() == before.stream().len() + HEADER_LEN
            + frame.payload.len(),
{
    lemma_parse_append(before.stream(), frame);
    assert(before.entries.drop_last() =~= Seq::<Entry>::empty());
}

/// The recorder after each of the frames, in order, went to its open entry.
pub open spec fn after_recording(start: RecorderView, frames: Seq<FrameView>) -> RecorderView
    decreases frames.len(),
{
    if frames.len() == 0 {
        start
    } else {
        after_recording(start, frames.drop_last()).with_frame(frames.last())
    }
}

/// No frame is stamped with an earlier time than a frame before it.
pub open spec fn non_decreasing(frames: Seq<FrameView>) -> bool {
    forall|i: int, j: int|
        0 <= i <= j < frames.len() ==> (#[trigger] frames[i]).elapsed_ms <= (
        #[trigger] frames[j]).elapsed_ms
}

/// Whatever sequence of packets is recorded, reading the packet entry back
/// gives the frames that were there before, followed by one frame for each
/// packet, in order, with the packet's time and bytes unchanged. On a new
/// recorder the times read back do not decrease where the times at which the
/// packets were recorded did not.
pub proof fn lemma_recording_round_trip(start: RecorderView, frames: Seq<FrameView>)
    requires
        start.intact(),
        all_fit(frames),
    ensures
        after_recording(start, frames).intact(),
        after_recording(start, frames).same_session(start),
        parse_stream(after_recording(start, frames).stream()) == Some(start.frames() + frames),
        after_recording(start, frames).frames() == start.frames() + frames,
        after_recording(start, frames).stream() == start.stream() + stream_bytes(frames),
        start.frames().len() == 0 && non_decreasing(frames) ==> non_decreasing(
            after_recording(start, frames).frames(),
        ),
    decreases frames.len(),
{
    if frames.len() == 0 {
        assert(start.frames() + frames =~= start.frames());
        assert(start.stream() + stream_bytes(frames) =~= start.stream());
    } else {
        let front = frames.drop_last();
        lemma_recording_round_trip(start, front);
        lemma_frame_recorded(after_recording(start, front), frames.last());
        assert((start.frames() + front).push(frames.last()) =~= start.frames() + frames);
        assert((start.stream() + stream_bytes(front)) + frames.last().bytes() =~= start.stream()
            + stream_bytes(frames));
    }
    if start.frames().len() == 0 {
        assert(start.frames() + frames =~= frames);
    }
}

/// However many packets were recorded, the finished archive of an intact
/// recorder has exactly two entries: first the packet entry, with the frames
/// recorded, then the metadata entry.
pub proof fn lemma_archive_shape(recorder: RecorderView, elapsed_ms: int, unix_ms: int)
    requires
        recorder.intact(),
    ensures
        recorder.sealed(elapsed_ms, unix_ms) == seq![
            (PACKET_ENTRY@, stream_bytes(recorder.frames())),
            (METADATA_ENTRY@, encode_utf8(recorder.metadata(elapsed_ms, unix_ms).json())),
        ],
        recorder.sealed(elapsed_ms, unix_ms).len() == 2,
        recorder.sealed(elapsed_ms, unix_ms)[0].0 == PACKET_ENTRY@,
        recorder.sealed(elapsed_ms, unix_ms)[1].0 == METADATA_ENTRY@,
{
    lemma_parse_round_trip(recorder.stream());
    assert(recorder.sealed(elapsed_ms, unix_ms) =~= seq![
        (PACKET_ENTRY@, stream_bytes(recorder.frames())),
        (METADATA_ENTRY@, encode_utf8(recorder.metadata(elapsed_ms, unix_ms).json())),
    ]);
}

/// The metadata of a session that began with the wall clock at `started_ms`
/// and ended with it at `finished_ms` gives the difference of the two as
/// duration and `started_ms` as start date.
pub proof fn lemma_metadata_timing(recorder: RecorderView, started_ms: int, finished_ms: int)
    ensures
        recorder.metadata(finished_ms - started_ms, finished_ms).duration_ms == finished_ms
            - started_ms,
        recorder.metadata(finished_ms - started_ms, finished_ms).start_wallclock_ms
            == started_ms,
        recorder.metadata(finished_ms - started_ms, finished_ms).server_label
            == recorder.server_label,
{
}

impl Recorder {
    /// Begins a recording: opens the archive and its packet entry, and takes
    /// the time from which packets are stamped.
    pub fn new(
        server: String,
        should_ignore_compression: bool,
        game_version: String,
        protocol_version: i32,
        generator: String,
    ) -> (made: Result<Recorder, Error>)
        ensures
            made is Ok,
            made->Ok_0@ == (RecorderView {
                entries: seq![(PACKET_ENTRY@, Seq::<u8>::empty())],
                open: true,
                start: made->Ok_0@.start,
                server_label: server@,
                game_version: game_version@,
                protocol_version: protocol_version as int,
                generator: generator@,
                should_ignore_compression,
            }),
            made->Ok_0@.intact(),
            made->Ok_0@.frames() == Seq::<FrameView>::empty(),
            made->Ok_0@.stream() == Seq::<u8>::empty(),
    {
        let mut archive = ArchiveWriter::new();
        proof {
            reveal_strlit("recording.tmcpr");
        }
        match archive.begin_entry(PACKET_ENTRY) {
            Ok(()) => {},
            Err(error) => { return Err(error); },
        }
        let recorder = Recorder {
            archive,
            start: Instant::now(),
            server,
            game_version,
            protocol_version,
            generator,
            should_ignore_compression,
        };
        assert(recorder@.entries =~= seq![(PACKET_ENTRY@, Seq::<u8>::empty())]);
        Ok(recorder)
    }

    /// Whether the login packet that negotiates compression is left out of
    /// the recording.
    pub fn should_ignore_compression(&self) -> (ignored: bool)
        ensures
            ignored == self@.should_ignore_compression,
    {
        self.should_ignore_compression
    }

    /// Records a packet that arrived `elapsed_ms` after the session began:
    /// frames identifier and body, and appends the frame to the packet
    /// entry.
    ///
    /// Where the time or the length does not fit a frame, nothing is written.
    /// Where they fit, and the recorder is intact with room for the frame,
    /// the frame is written.
    pub fn save_packet_at(&mut self, elapsed_ms: u128, identifier: &[u8], body: &[u8]) -> (saved:
        Result<(), Error>)
        ensures
            captured(elapsed_ms as int, identifier@, body@).fits() && old(self)@.has_room(
                identifier@.len() + body@.len(),
            ) ==> saved is Ok,
            captured(elapsed_ms as int, identifier@, body@).fits() && !old(self)@.open ==> saved
                is Err && final(self)@ == old(self)@,
            captured(elapsed_ms as int, identifier@, body@).fits() && old(self)@.is_full(
                identifier@.len() + body@.len(),
            ) ==> saved is Err && final(self)@ == old(self)@.without_entry(),
            old(self)@.usable() ==> {
                &&& final(self)@ == old(self)@.after_packet(elapsed_ms as int, identifier@ + body@)
                &&& saved is Ok <==> old(self)@.takes(elapsed_ms as int, identifier@ + body@)
                &&& final(self)@.usable()
            },
            !captured(elapsed_ms as int, identifier@, body@).fits() ==> saved == Err::<(), Error>(
                Error::SizeOverflow,
            ) && final(self)@ == old(self)@,
            captured(elapsed_ms as int, identifier@, body@).fits() ==> saved is Ok || saved == Err::<
                (),
                Error,
            >(Error::Io),
            saved is Ok ==> old(self)@.open && final(self)@ == old(self)@.with_frame(
                captured(elapsed_ms as int, identifier@, body@),
            ),
            saved is Ok && old(self)@.intact() ==> final(self)@.intact() && final(self)@.frames()
                == old(self)@.frames().push(captured(elapsed_ms as int, identifier@, body@)),
            final(self)@.same_session(old(self)@),
    {
        let frame = match encode(elapsed_ms, identifier, body) {
            Ok(frame) => frame,
            Err(error) => { return Err(error); },
        };
        match self.archive.append(frame.as_slice()) {
            Ok(()) => {
                proof {
                    if old(self)@.intact() {
                        lemma_frame_recorded(
                            old(self)@,
                            captured(elapsed_ms as int, identifier@, body@),
                        );
                    }
                }
                Ok(())
            },
            Err(error) => Err(error),
        }
    }

    /// Records bytes that arrived `elapsed_ms` after the session began, as
    /// they were received.
    ///
    /// Where the time or the length does not fit a frame, nothing is written.
    /// Where they fit, and the recorder is intact with room for the frame,
    /// the frame is written.
    pub fn save_raw_packet_at(&mut self, elapsed_ms: u128, raw_packet: &[u8]) -> (saved: Result<
        (),
        Error,
    >)
        ensures
            captured(elapsed_ms as int, raw_packet@, Seq::empty()).fits() && old(self)@.has_room(
                raw_packet@.len(),
            ) ==> saved is Ok,
            captured(elapsed_ms as int, raw_packet@, Seq::empty()).fits() && !old(self)@.open
                ==> saved is Err && final(self)@ == old(self)@,
            captured(elapsed_ms as int, raw_packet@, Seq::empty()).fits() && old(self)@.is_full(
                raw_packet@.len(),
            ) ==> saved is Err && final(self)@ == old(self)@.without_entry(),
            old(self)@.usable() ==> {
                &&& final(self)@ == old(self)@.after_packet(elapsed_ms as int, raw_packet@)
                &&& saved is Ok <==> old(self)@.takes(elapsed_ms as int, raw_packet@)
                &&& final(self)@.usable()
            },
            !captured(elapsed_ms as int, raw_packet@, Seq::empty()).fits() ==> saved == Err::<
                (),
                Error,
            >(Error::SizeOverflow) && final(self)@ == old(self)@,
            captured(elapsed_ms as int, raw_packet@, Seq::empty()).fits() ==> saved is Ok || saved
                == Err::<(), Error>(Error::Io),
            saved is Ok ==> old(self)@.open && final(self)@ == old(self)@.with_frame(
                FrameView { elapsed_ms: elapsed_ms as int, payload: raw_packet@ },
            ),
            saved is Ok && old(self)@.intact() ==> final(self)@.intact() && final(self)@.frames()
                == old(self)@.frames().push(
                FrameView { elapsed_ms: elapsed_ms as int, payload: raw_packet@ },
            ),
            final(self)@.same_session(old(self)@),
    {
        let body: Vec<u8> = Vec::new();
        assert(raw_packet@ + body@ =~= raw_packet@);
        self.save_packet_at(elapsed_ms, raw_packet, body.as_slice())
    }

    /// Records a packet that arrives now, stamped with the time since the
    /// session began.
    ///
    /// Where the length, or the time, does not fit a frame, nothing is
    /// written. On an intact recorder with room for the frame nothing but
    /// the time can keep the frame from being written.
    pub fn save_packet(&mut self, identifier: &[u8], body: &[u8]) -> (saved: Result<(), Error>)
        ensures
            old(self)@.has_room(identifier@.len() + body@.len()) ==> saved is Ok || saved == Err::<
                (),
                Error,
            >(Error::SizeOverflow),
            !old(self)@.open ==> saved is Err && final(self)@ == old(self)@,
            old(self)@.usable() ==> final(self)@.usable() && exists|elapsed_ms: int|
                {
                    &&& final(self)@ == #[trigger] old(self)@.after_packet(
                        elapsed_ms,
                        identifier@ + body@,
                    )
                    &&& saved is Ok <==> old(self)@.takes(elapsed_ms, identifier@ + body@)
                },
            identifier@.len() + body@.len() > crate::framing::FIELD_MAX ==> saved == Err::<
                (),
                Error,
            >(Error::SizeOverflow),
            saved is Err ==> saved->Err_0 == Error::SizeOverflow || saved->Err_0 == Error::Io,
            saved == Err::<(), Error>(Error::SizeOverflow) ==> final(self)@ == old(self)@,
            saved is Ok ==> exists|elapsed_ms: int|
                {
                    &&& (#[trigger] captured(elapsed_ms, identifier@, body@)).fits()
                    &&& old(self)@.open
                    &&& final(self)@ == old(self)@.with_frame(
                        captured(elapsed_ms, identifier@, body@),
                    )
                },
            saved is Ok && old(self)@.intact() ==> {
                &&& final(self)@.intact()
                &&& final(self)@.frames().len() == old(self)@.frames().len() + 1
                &&& final(self)@.frames().drop_last() == old(self)@.frames()
                &&& final(self)@.frames().last().payload == identifier@ + body@
                &&& final(self)@.stream().len() == old(self)@.stream().len() + HEADER_LEN
                    + identifier@.len() + body@.len()
            },
            final(self)@.same_session(old(self)@),
    {
        let elapsed_ms = elapsed_millis(&self.start);
        let saved = self.save_packet_at(elapsed_ms, identifier, body);
        proof {
            let frame = captured(elapsed_ms as int, identifier@, body@);
            if saved is Ok && old(self)@.intact() {
                assert(old(self)@.frames().push(frame).drop_last() =~= old(self)@.frames());
            }
        }
        saved
    }

    /// Records bytes that arrive now, as they were received, stamped with
    /// the time since the session began.
    ///
    /// Where the length, or the time, does not fit a frame, nothing is
    /// written. On an intact recorder with room for the frame nothing but
    /// the time can keep the frame from being written.
    pub fn save_raw_packet(&mut self, raw_packet: &[u8]) -> (saved: Result<(), Error>)
        ensures
            old(self)@.has_room(raw_packet@.len()) ==> saved is Ok || saved == Err::<
                (),
                Error,
            >(Error::SizeOverflow),
            !old(self)@.open ==> saved is Err && final(self)@ == old(self)@,
            old(self)@.usable() ==> final(self)@.usable() && exists|elapsed_ms: int|
                {
                    &&& final(self)@ == #[trigger] old(self)@.after_packet(elapsed_ms, raw_packet@)
                    &&& saved is Ok <==> old(self)@.takes(elapsed_ms, raw_packet@)
                },
            raw_packet@.len() > crate::framing::FIELD_MAX ==> saved == Err::<(), Error>(
                Error::SizeOverflow,
            ),
            saved is Err ==> saved->Err_0 == Error::SizeOverflow || saved->Err_0 == Error::Io,
            saved == Err::<(), Error>(Error::SizeOverflow) ==> final(self)@ == old(self)@,
            saved is Ok ==> exists|elapsed_ms: int|
                {
                    &&& (#[trigger] captured(elapsed_ms, raw_packet@, Seq::empty())).fits()
                    &&& old(self)@.open
                    &&& final(self)@ == old(self)@.with_frame(
                        captured(elapsed_ms, raw_packet@, Seq::empty()),
                    )
                },
            saved is Ok && old(self)@.intact() ==> {
                &&& final(self)@.intact()
                &&& final(self)@.frames().len() == old(self)@.frames().len() + 1
                &&& final(self)@.frames().drop_last() == old(self)@.frames()
                &&& final(self)@.frames().last().payload == raw_packet@
                &&& final(self)@.stream().len() == old(self)@.stream().len() + HEADER_LEN
                    + raw_packet@.len()
            },
            final(self)@.same_session(old(self)@),
    {
        let body: Vec<u8> = Vec::new();
        assert(raw_packet@ + body@ =~= raw_packet@);
        assert(body@ =~= Seq::<u8>::empty());
        self.save_packet(raw_packet, body.as_slice())
    }

    /// Ends a session `elapsed_ms` after it began, with the wall clock at
    /// `unix_ms` since the Unix epoch (`None`: before it): adds the metadata
    /// entry, closes the archive and hands out its bytes.
    ///
    /// Where duration and start date cannot be had from the two readings,
    /// nothing is written. Where they can, and the recorder is intact with
    /// packet entry and labels short enough, the archive is closed. No bytes
    /// are handed out of an archive that failed to close.
    pub fn finish_at(self, elapsed_ms: u128, unix_ms: Option<u128>) -> (finished: Result<
        Vec<u8>,
        Error,
    >)
        ensures
            timing_fits(elapsed_ms as int, reading(unix_ms)) && self@.sealable() ==> finished
                is Ok,
            timing_fits(elapsed_ms as int, reading(unix_ms)) && self@.can_close() ==> finished
                is Ok,
            !timing_fits(elapsed_ms as int, reading(unix_ms)) ==> finished == Err::<
                Vec<u8>,
                Error,
            >(Error::Serialization),
            timing_fits(elapsed_ms as int, reading(unix_ms)) ==> finished is Ok || finished
                == Err::<Vec<u8>, Error>(Error::Io),
            finished is Ok ==> archive_listing(finished->Ok_0@) == self@.sealed(
                elapsed_ms as int,
                unix_ms->Some_0 as int,
            ),
            finished is Ok && self@.intact() ==> archive_listing(finished->Ok_0@) == seq![
                (PACKET_ENTRY@, stream_bytes(self@.frames())),
                (
                    METADATA_ENTRY@,
                    encode_utf8(self@.metadata(elapsed_ms as int, unix_ms->Some_0 as int).json()),
                ),
            ],
    {
        let ghost before = self@;
        let Recorder { archive, start: _, server, game_version, protocol_version, generator, should_ignore_compression: _ } = self;
        let mut archive = archive;
        let metadata = match SessionMetadata::new(
            server,
            elapsed_ms,
            unix_ms,
            game_version,
            protocol_version,
            generator,
        ) {
            Ok(metadata) => metadata,
            Err(error) => { return Err(error); },
        };
        let text = metadata.to_json();
        proof {
            reveal_strlit("recording.tmcpr");
            reveal_strlit("metaData.json");
            if before.sealable() {
                assert(PACKET_ENTRY@.len() != METADATA_ENTRY@.len());
                assert(!has_name(before.entries, METADATA_ENTRY@));
            }
        }
        match archive.begin_entry(METADATA_ENTRY) {
            Ok(()) => {},
            Err(error) => { return Err(error); },
        }
        match archive.append(text.as_str().as_bytes()) {
            Ok(()) => {},
            Err(error) => { return Err(error); },
        }
        proof {
            let content = encode_utf8(metadata@.json());
            let begun = before.entries.push((METADATA_ENTRY@, Seq::<u8>::empty()));
            assert(begun.drop_last() =~= before.entries);
            assert(Seq::<u8>::empty() + content =~= content);
            assert(with_appended(begun, content) =~= before.sealed(
                elapsed_ms as int,
                unix_ms->Some_0 as int,
            ));
            if before.intact() {
                lemma_archive_shape(before, elapsed_ms as int, unix_ms->Some_0 as int);
            }
        }
        archive.finalize()
    }

    /// Ends the session now: adds the metadata entry, closes the archive and
    /// hands out its bytes.
    ///
    /// The duration is the time since the session began, and the start date
    /// is the wall clock's present reading less the duration. Where the
    /// recorder is intact with packet entry and labels short enough, nothing
    /// but the two clocks can keep the archive from being closed. No bytes
    /// are handed out of an archive that failed to close.
    pub fn finish(self) -> (finished: Result<Vec<u8>, Error>)
        ensures
            self@.sealable() || self@.can_close() ==> finished is Ok || finished == Err::<
                Vec<u8>,
                Error,
            >(Error::Serialization),
            finished is Err ==> finished->Err_0 == Error::Serialization || finished->Err_0
                == Error::Io,
            finished is Ok ==> exists|elapsed_ms: int, unix_ms: int|
                {
                    &&& timing_fits(elapsed_ms, Some(unix_ms))
                    &&& archive_listing(finished->Ok_0@) == #[trigger] self@.sealed(
                        elapsed_ms,
                        unix_ms,
                    )
                },
            finished is Ok && self@.intact() ==> {
                &&& archive_listing(finished->Ok_0@).len() == 2
                &&& archive_listing(finished->Ok_0@)[0] == (
                    PACKET_ENTRY@,
                    stream_bytes(self@.frames()),
                )
                &&& archive_listing(finished->Ok_0@)[1].0 == METADATA_ENTRY@
            },
    {
        let elapsed_ms = elapsed_millis(&self.start);
        let unix_ms = unix_millis();
        self.finish_at(elapsed_ms, unix_ms)
    }
}

} // verus!
