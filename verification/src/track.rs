//! The recording of one user: an Ogg Opus stream of frames of twenty milliseconds.

use vstd::prelude::*;

use crate::ogg_stream::{OggStream, Packet, PacketEnd, page_state, pages_fit, stream_bytes};
use crate::opus_headers::{
    law_head_fields, lemma_tags_len, opus_head, opus_head_bytes, opus_tags, opus_tags_bytes,
};

verus! {

/// Samples of one channel in a frame.
pub const SAMPLES_PER_FRAME: u64 = 960;

/// The number of the one logical stream in a file.
pub const STREAM_SERIAL: u32 = 1;

/// Bytes that the encoder gets to write a frame to.
pub const FRAME_BUFFER_LEN: usize = 4000;

/// Samples of both channels in a frame.
pub const FRAME_SAMPLES: usize = 1920;

// ---------------------------------------------------------------------------
// The packets of a file
// ---------------------------------------------------------------------------

/// The granule position after `frames` frames.
pub open spec fn granule(pre_skip: u16, frames: nat) -> nat {
    pre_skip as nat + frames * SAMPLES_PER_FRAME as nat
}

/// The two headers, each on a page of its own at granule position 0.
pub open spec fn header_packets(pre_skip: u16) -> Seq<Packet> {
    seq![
        Packet {
            data: opus_head_bytes(pre_skip),
            serial: STREAM_SERIAL,
            end: PacketEnd::Page,
            absgp: 0,
        },
        Packet {
            data: opus_tags_bytes(),
            serial: STREAM_SERIAL,
            end: PacketEnd::Page,
            absgp: 0,
        },
    ]
}

/// The packet of a frame that others follow.
pub open spec fn inner_packet(pre_skip: u16, frames: Seq<Seq<u8>>, i: int) -> Packet {
    Packet {
        data: frames[i],
        serial: STREAM_SERIAL,
        end: PacketEnd::Normal,
        absgp: granule(pre_skip, i as nat) as u64,
    }
}

/// The packets that are written while frames may still follow: all but the last frame, which is
/// held back.
pub open spec fn open_packets(pre_skip: u16, frames: Seq<Seq<u8>>) -> Seq<Packet> {
    header_packets(pre_skip) + Seq::new(
        (if frames.len() == 0 {
            0
        } else {
            frames.len() - 1
        }) as nat,
        |i: int| inner_packet(pre_skip, frames, i),
    )
}

/// The packets of a closed file: the last frame ends the stream, at the granule position after
/// all frames. A file without frames has its headers alone.
pub open spec fn file_packets(pre_skip: u16, frames: Seq<Seq<u8>>) -> Seq<Packet> {
    if frames.len() == 0 {
        header_packets(pre_skip)
    } else {
        open_packets(pre_skip, frames).push(
            Packet {
                data: frames.last(),
                serial: STREAM_SERIAL,
                end: PacketEnd::Stream,
                absgp: granule(pre_skip, frames.len()) as u64,
            },
        )
    }
}

proof fn lemma_header_pages(pre_skip: u16)
    ensures
        page_state(header_packets(pre_skip).take(1), STREAM_SERIAL) == (1nat, 0nat),
        page_state(header_packets(pre_skip), STREAM_SERIAL) == (2nat, 0nat),
{
    law_head_fields(pre_skip);
    lemma_tags_len();
    let headers = header_packets(pre_skip);
    assert(headers.drop_last() == headers.take(1));
    assert(headers.take(1).drop_last() == Seq::<Packet>::empty());
    reveal_with_fuel(page_state, 3);
}

/// What a track has recorded.
pub struct TrackView {
    /// Samples at the start that a player drops.
    pub pre_skip: u16,
    /// The encoded frames, in order.
    pub frames: Seq<Seq<u8>>,
    /// The bytes of the file that have been handed out.
    pub taken: Seq<u8>,
}

impl TrackView {
    /// The track with one more frame.
    pub open spec fn record(self, frame: Seq<u8>) -> TrackView {
        TrackView { frames: self.frames.push(frame), ..self }
    }

    /// Whether the pages of the frames can be numbered while the stream is open.
    pub open spec fn open_fits(self) -> bool {
        pages_fit(open_packets(self.pre_skip, self.frames), STREAM_SERIAL)
    }

    /// Whether the pages of the closed file can be numbered.
    pub open spec fn file_fits(self) -> bool {
        pages_fit(file_packets(self.pre_skip, self.frames), STREAM_SERIAL)
    }

    /// The bytes of the pages that are complete while the stream is open.
    pub open spec fn open_bytes(self) -> Seq<u8> {
        stream_bytes(open_packets(self.pre_skip, self.frames))
    }

    /// The bytes of the closed file.
    pub open spec fn file_bytes(self) -> Seq<u8> {
        stream_bytes(file_packets(self.pre_skip, self.frames))
    }
}

proof fn lemma_open_packets_push(pre_skip: u16, frames: Seq<Seq<u8>>, frame: Seq<u8>)
    ensures
        frames.len() == 0 ==> open_packets(pre_skip, frames.push(frame)) == open_packets(
            pre_skip,
            frames,
        ),
        frames.len() > 0 ==> open_packets(pre_skip, frames.push(frame)) == open_packets(
            pre_skip,
            frames,
        ).push(inner_packet(pre_skip, frames, frames.len() - 1)),
{
    if frames.len() == 0 {
        assert(open_packets(pre_skip, frames.push(frame)) =~= open_packets(pre_skip, frames));
    } else {
        assert(open_packets(pre_skip, frames.push(frame)) =~= open_packets(pre_skip, frames).push(
            inner_packet(pre_skip, frames, frames.len() - 1),
        ));
    }
}

/// The part of the buffer that the encoder has filled.
pub open spec fn encoded_frame(buffer: Seq<u8>, len: usize) -> Seq<u8> {
    if len <= buffer.len() {
        buffer.take(len as int)
    } else {
        buffer
    }
}

// ---------------------------------------------------------------------------
// What a file is made of
// ---------------------------------------------------------------------------

/// A frame is what the encoder has written to the front of its buffer, byte by byte and no more.
/// Where it tells a length beyond the buffer, the frame is the whole buffer.
pub proof fn law_frame_is_what_the_encoder_wrote(buffer: Seq<u8>, len: usize)
    ensures
        len <= buffer.len() ==> encoded_frame(buffer, len).len() == len,
        len > buffer.len() ==> encoded_frame(buffer, len).len() == buffer.len(),
        forall|i: int|
            0 <= i < len && i < buffer.len() ==> #[trigger] encoded_frame(buffer, len)[i]
                == buffer[i],
{
}

/// A frame that is recorded stands last. Those before it stay as they are, and so does everything
/// else of the track.
pub proof fn law_recorded_frame_stands_last(track: TrackView, frame: Seq<u8>)
    ensures
        track.record(frame).frames.len() == track.frames.len() + 1,
        forall|i: int|
            0 <= i < track.frames.len() ==> #[trigger] track.record(frame).frames[i]
                == track.frames[i],
        track.record(frame).frames[track.frames.len() as int] == frame,
        track.record(frame).pre_skip == track.pre_skip,
        track.record(frame).taken == track.taken,
{
}

/// Both headers stand on pages of their own, at granule position 0, in stream 1: the
/// identification of the stream, and its comments.
pub proof fn law_headers_come_first(pre_skip: u16)
    ensures
        header_packets(pre_skip).len() == 2,
        header_packets(pre_skip)[0] == (Packet {
            data: opus_head_bytes(pre_skip),
            serial: 1,
            end: PacketEnd::Page,
            absgp: 0,
        }),
        header_packets(pre_skip)[1] == (Packet {
            data: opus_tags_bytes(),
            serial: 1,
            end: PacketEnd::Page,
            absgp: 0,
        }),
{
}

/// The bytes of a closed file are the muxer's bytes for exactly these packets, however many frames
/// there are: the headers, each frame in turn at the position before it, and the last frame as the
/// end of the stream, at the position after it. A file without frames has its headers alone.
pub proof fn law_closed_file_is_muxed_from_all_frames(track: TrackView, packets: Seq<Packet>)
    requires
        track.pre_skip + 960 * track.frames.len() <= u64::MAX,
        packets.len() == track.frames.len() + 2,
        packets[0] == header_packets(track.pre_skip)[0],
        packets[1] == header_packets(track.pre_skip)[1],
        forall|i: int|
            0 <= i < track.frames.len() ==> {
                let packet = #[trigger] packets[i + 2];
                &&& packet.data == track.frames[i]
                &&& packet.serial == 1
                &&& i < track.frames.len() - 1 ==> packet.end == PacketEnd::Normal && packet.absgp
                    == track.pre_skip + 960 * i
                &&& i == track.frames.len() - 1 ==> packet.end == PacketEnd::Stream && packet.absgp
                    == track.pre_skip + 960 * track.frames.len()
            },
    ensures
        track.file_bytes() == stream_bytes(packets),
        track.file_fits() <==> page_state(packets, 1).0 < 0x1_0000_0000,
{
    let expected = file_packets(track.pre_skip, track.frames);
    assert(packets.len() == expected.len());
    assert forall|j: int| 0 <= j < packets.len() implies packets[j] == expected[j] by {
        if j >= 2 {
            let i = j - 2;
            assert(packets[i + 2] == expected[i + 2]);
        }
    }
    assert(packets =~= expected);
}

/// The bytes of the pages that are complete while frames may still follow are the muxer's bytes
/// for the headers and for each frame but the last, in turn at the position before it.
pub proof fn law_open_file_is_muxed_from_all_but_the_last(track: TrackView, packets: Seq<Packet>)
    requires
        track.pre_skip + 960 * track.frames.len() <= u64::MAX,
        packets.len() == if track.frames.len() == 0 {
            2
        } else {
            track.frames.len() + 1
        },
        packets[0] == header_packets(track.pre_skip)[0],
        packets[1] == header_packets(track.pre_skip)[1],
        forall|i: int|
            0 <= i < track.frames.len() - 1 ==> {
                let packet = #[trigger] packets[i + 2];
                &&& packet.data == track.frames[i]
                &&& packet.serial == 1
                &&& packet.end == PacketEnd::Normal
                &&& packet.absgp == track.pre_skip + 960 * i
            },
    ensures
        track.open_bytes() == stream_bytes(packets),
        track.open_fits() <==> page_state(packets, 1).0 < 0x1_0000_0000,
{
    let expected = open_packets(track.pre_skip, track.frames);
    assert(packets.len() == expected.len());
    assert forall|j: int| 0 <= j < packets.len() implies packets[j] == expected[j] by {
        if j >= 2 {
            let i = j - 2;
            assert(packets[i + 2] == expected[i + 2]);
        }
    }
    assert(packets =~= expected);
}

proof fn lemma_pages_of_frames(pre_skip: u16, frames: Seq<Seq<u8>>)
    requires
        forall|i: int| 0 <= i < frames.len() ==> (#[trigger] frames[i]).len() <= 4000,
    ensures
        ({
            let state = page_state(open_packets(pre_skip, frames), STREAM_SERIAL);
            255 * state.0 + state.1 <= 510 + 16 * frames.len() && state.1 < 255
        }),
    decreases frames.len(),
{
    lemma_header_pages(pre_skip);
    if frames.len() == 0 {
        assert(open_packets(pre_skip, frames) =~= header_packets(pre_skip));
    } else {
        let fewer = frames.drop_last();
        assert forall|i: int| 0 <= i < fewer.len() implies (#[trigger] fewer[i]).len() <= 4000 by {
            assert(fewer[i] == frames[i]);
        }
        lemma_pages_of_frames(pre_skip, fewer);
        lemma_open_packets_push(pre_skip, fewer, frames.last());
        assert(fewer.push(frames.last()) =~= frames);
        if fewer.len() > 0 {
            let packet = inner_packet(pre_skip, fewer, fewer.len() - 1);
            assert(fewer[fewer.len() - 1].len() <= 4000);
            let packets = open_packets(pre_skip, fewer);
            assert(packets.push(packet).drop_last() =~= packets);
        }
    }
}

/// No recording that an encoder can fill its buffers for runs out of page numbers in years: with
/// up to 4000 bytes in a frame, more than four thousand million frames can be recorded, and the
/// file can be closed after each of them.
pub proof fn law_long_recordings_have_room(track: TrackView)
    requires
        track.frames.len() < 0x1_0000_0000,
        forall|i: int| 0 <= i < track.frames.len() ==> (#[trigger] track.frames[i]).len() <= 4000,
    ensures
        track.open_fits(),
        track.file_fits(),
{
    lemma_pages_of_frames(track.pre_skip, track.frames);
    lemma_header_pages(track.pre_skip);
    if track.frames.len() > 0 {
        let packets = open_packets(track.pre_skip, track.frames);
        let closed = file_packets(track.pre_skip, track.frames);
        assert(closed.drop_last() =~= packets);
        assert(track.frames[track.frames.len() - 1].len() <= 4000);
    }
}

// ---------------------------------------------------------------------------
// The track
// ---------------------------------------------------------------------------

/// An encoded frame that is held back until it is known whether it is the last one.
pub struct PendingFrame {
    data: Vec<u8>,
    absgp: u64,
}

/// The Opus track of one user.
pub struct UserTrack {
    ogg_writer: OggStream,
    packet_count: u64,
    pre_skip: u16,
    pending: Option<PendingFrame>,
}

impl View for UserTrack {
    type V = TrackView;

    closed spec fn view(&self) -> TrackView {
        let written = Seq::new(
            (self.ogg_writer.packets().len() - 2) as nat,
            |i: int| self.ogg_writer.packets()[i + 2].data,
        );
        TrackView {
            pre_skip: self.pre_skip,
            frames: match self.pending {
                Some(last) => written.push(last.data@),
                None => written,
            },
            taken: self.ogg_writer.taken(),
        }
    }
}

impl UserTrack {
    /// The headers and all frames but the last are written; the last one is held back.
    pub closed spec fn wf(self) -> bool {
        &&& self.ogg_writer.wf()
        &&& self.ogg_writer.serial() == STREAM_SERIAL
        &&& self.ogg_writer.packets() == open_packets(self@.pre_skip, self@.frames)
        &&& self.packet_count == self@.frames.len()
        &&& self.pending is Some <==> self@.frames.len() > 0
        &&& self.pending matches Some(last) ==> last.absgp == granule(
            self.pre_skip,
            (self.packet_count - 1) as nat,
        )
    }

    proof fn lemma_granule_fits(self)
        requires
            self.wf(),
        ensures
            granule(self.pre_skip, self.packet_count as nat) <= u64::MAX,
            self.packet_count < u64::MAX,
    {
        self.ogg_writer.lemma_packets_bounded();
    }

    /// Starts a track: the stream is opened with its headers. `lookahead` is the delay of the
    /// encoder, or the reason why there is none.
    pub fn create<E>(lookahead: Result<u32, E>) -> (result: Result<UserTrack, E>)
        ensures
            match lookahead {
                Err(e) => result == Err::<UserTrack, E>(e),
                Ok(samples) => result matches Ok(track) && track.wf() && track@ == (TrackView {
                    pre_skip: (samples % 0x1_0000) as u16,
                    frames: Seq::empty(),
                    taken: Seq::empty(),
                }),
            },
    {
        match lookahead {
            Err(e) => Err(e),
            Ok(samples) => {
                let pre_skip: u16 = (samples % 0x1_0000) as u16;
                let mut ogg_writer = OggStream::new(STREAM_SERIAL);
                let head = opus_head(pre_skip);
                let tags = opus_tags();
                proof {
                    lemma_header_pages(pre_skip);
                    assert(Seq::<Packet>::empty().push(header_packets(pre_skip)[0])
                        == header_packets(pre_skip).take(1));
                    assert(header_packets(pre_skip).take(1).push(header_packets(pre_skip)[1])
                        == header_packets(pre_skip));
                }
                ogg_writer.write_packet(head, PacketEnd::Page, 0);
                ogg_writer.write_packet(tags, PacketEnd::Page, 0);
                let track = UserTrack { ogg_writer, packet_count: 0, pre_skip, pending: None };
                assert(track@.frames == Seq::<Seq<u8>>::empty());
                assert(track.ogg_writer.packets() == open_packets(pre_skip, track@.frames));
                Ok(track)
            },
        }
    }

    /// Whether one more frame can be recorded.
    pub fn has_room(&self) -> (room: bool)
        requires
            self.wf(),
        ensures
            forall|frame: Seq<u8>| (#[trigger] self@.record(frame)).open_fits() == room,
    {
        match &self.pending {
            None => {
                proof {
                    lemma_header_pages(self.pre_skip);
                    assert forall|frame: Seq<u8>| (#[trigger] self@.record(frame)).open_fits() by {
                        assert(open_packets(self.pre_skip, self@.frames.push(frame))
                            == header_packets(self.pre_skip));
                    }
                }
                true
            },
            Some(last) => {
                let room = self.ogg_writer.has_room(last.data.len(), PacketEnd::Normal);
                proof {
                    assert forall|frame: Seq<u8>| (#[trigger] self@.record(frame)).open_fits()
                        == room by {
                        self.lemma_granule_fits();
                        lemma_open_packets_push(self.pre_skip, self@.frames, frame);
                        assert(self.ogg_writer.fits(last.data@, PacketEnd::Normal, last.absgp)
                            == room);
                    }
                }
                room
            },
        }
    }

    /// Whether the stream can be closed.
    pub fn can_finalize(&self) -> (can: bool)
        requires
            self.wf(),
        ensures
            can == self@.file_fits(),
    {
        match &self.pending {
            None => {
                proof {
                    lemma_header_pages(self.pre_skip);
                }
                true
            },
            Some(last) => {
                let room = self.ogg_writer.has_room(last.data.len(), PacketEnd::Stream);
                assert(self.ogg_writer.fits(
                    last.data@,
                    PacketEnd::Stream,
                    granule(self.pre_skip, self@.frames.len()) as u64,
                ) == room);
                room
            },
        }
    }

    /// Records what the encoder made of twenty milliseconds. `output` is the buffer that it
    /// wrote to and `encoded` the number of bytes in it, or the reason why there are none.
    /// The frame is held back and the one before it is written.
    pub fn write_frame<E>(&mut self, output: Vec<u8>, encoded: Result<usize, E>) -> (result: Result<
        (),
        E,
    >)
        requires
            old(self).wf(),
            encoded matches Ok(len) ==> old(self)@.record(
                encoded_frame(output@, len),
            ).open_fits(),
        ensures
            final(self).wf(),
            match encoded {
                Err(e) => result == Err::<(), E>(e) && final(self)@ == old(self)@,
                Ok(len) => result == Ok::<(), E>(()) && final(self)@ == old(self)@.record(
                    encoded_frame(output@, len),
                ),
            },
            final(self)@.pre_skip == old(self)@.pre_skip,
            final(self)@.taken == old(self)@.taken,
            encoded matches Ok(len) ==> len <= output@.len() ==> final(self)@.frames
                == old(self)@.frames.push(output@.take(len as int)),
    {
        match encoded {
            Err(e) => Err(e),
            Ok(len) => {
                let mut data = output;
                data.truncate(len);
                assert(data@ == encoded_frame(output@, len));
                proof {
                    self.lemma_granule_fits();
                    lemma_open_packets_push(self.pre_skip, self@.frames, data@);
                }
                let absgp: u64 = self.pre_skip as u64 + self.packet_count * SAMPLES_PER_FRAME;
                self.packet_count = self.packet_count + 1;
                let previous = self.pending.take();
                self.pending = Some(PendingFrame { data, absgp });
                if let Some(previous) = previous {
                    self.ogg_writer.write_packet(
                        previous.data,
                        PacketEnd::Normal,
                        previous.absgp,
                    );
                }
                assert(self@.frames == old(self)@.frames.push(data@));
                Ok(())
            },
        }
    }

    /// Hands out the bytes of the file that became complete since the last call.
    pub fn take_output(&mut self) -> (bytes: Vec<u8>)
        requires
            old(self).wf(),
        ensures
            final(self).wf(),
            final(self)@ == (TrackView { taken: old(self)@.taken + bytes@, ..old(self)@ }),
            final(self)@.taken == old(self)@.open_bytes(),
    {
        let bytes = self.ogg_writer.take_output();
        assert(self@.frames == old(self)@.frames);
        bytes
    }

    /// Closes the stream and hands out the bytes that were left. The frame that was held back is
    /// written as the end of the stream.
    pub fn finalize(self) -> (bytes: Vec<u8>)
        requires
            self.wf(),
            self@.file_fits(),
        ensures
            self@.taken + bytes@ == self@.file_bytes(),
    {
        let mut track = self;
        proof {
            track.lemma_granule_fits();
        }
        let last = track.pending.take();
        if let Some(last) = last {
            let absgp: u64 = track.pre_skip as u64 + track.packet_count * SAMPLES_PER_FRAME;
            track.ogg_writer.write_packet(last.data, PacketEnd::Stream, absgp);
        }
        track.ogg_writer.take_output()
    }
}

/// A zeroed buffer for the encoder to write a frame to.
pub fn frame_buffer() -> (buffer: Vec<u8>)
    ensures
        buffer@ == Seq::new(FRAME_BUFFER_LEN as nat, |i: int| 0u8),
        buffer@.len() == 4000,
        forall|i: int| 0 <= i < 4000 ==> #[trigger] buffer@[i] == 0,
{
    let buffer: Vec<u8> = vec![0u8; FRAME_BUFFER_LEN];
    assert(buffer@ =~= Seq::new(FRAME_BUFFER_LEN as nat, |i: int| 0u8));
    buffer
}

/// The samples of a silent frame.
pub fn silent_pcm() -> (pcm: Vec<i16>)
    ensures
        pcm@ == Seq::new(FRAME_SAMPLES as nat, |i: int| 0i16),
        pcm@.len() == 1920,
        forall|i: int| 0 <= i < 1920 ==> #[trigger] pcm@[i] == 0,
{
    let pcm: Vec<i16> = vec![0i16; FRAME_SAMPLES];
    assert(pcm@ =~= Seq::new(FRAME_SAMPLES as nat, |i: int| 0i16));
    pcm
}

} // verus!
