//! One logical Ogg stream, muxed into memory by the `ogg` crate.

use vstd::prelude::*;

verus! {

/// What a packet ends.
#[derive(Clone, Copy, Debug, PartialEq, Eq, Structural)]
pub enum PacketEnd {
    /// Nothing: the packet waits until its page is full.
    Normal,
    /// The current page.
    Page,
    /// The whole logical stream, and with it the current page.
    Stream,
}

/// A packet as the muxer is given it.
pub struct Packet {
    pub data: Seq<u8>,
    pub serial: u32,
    pub end: PacketEnd,
    /// The granule position that the packet is given. A page carries the one of the last packet
    /// that ends on it.
    pub absgp: u64,
}

// ---------------------------------------------------------------------------
// Page arithmetic
// ---------------------------------------------------------------------------

/// The lacing values that a packet of `len` bytes takes: one for each full run of 255 bytes,
/// and a last one below 255.
pub open spec fn lacing_values(len: nat) -> nat {
    len / 255 + 1
}

/// The pages written so far and the lacing values in the open page, after one more packet.
/// A page is written when it holds 255 lacing values, or early where the packet ends it.
pub open spec fn page_step(pages: nat, fill: nat, len: nat, end: PacketEnd) -> (nat, nat) {
    let total = fill + lacing_values(len);
    if end != PacketEnd::Normal && total % 255 != 0 {
        (total / 255 + pages + 1, 0)
    } else {
        (total / 255 + pages, total % 255)
    }
}

/// The pages that `packets` fill in the stream `serial`, and the lacing values in its open page.
pub open spec fn page_state(packets: Seq<Packet>, serial: u32) -> (nat, nat)
    decreases packets.len(),
{
    if packets.len() == 0 {
        (0, 0)
    } else {
        let before = page_state(packets.drop_last(), serial);
        let packet = packets.last();
        if packet.serial == serial {
            page_step(before.0, before.1, packet.data.len(), packet.end)
        } else {
            before
        }
    }
}

/// Whether the pages that `packets` fill can still be numbered: a page number has 32 bits.
pub open spec fn pages_fit(packets: Seq<Packet>, serial: u32) -> bool {
    page_state(packets, serial).0 <= u32::MAX
}

/// Every packet of a stream leaves its lacing values in a page, and a page holds 255 of them.
pub(crate) proof fn lemma_packets_bounded_by_pages(packets: Seq<Packet>, serial: u32)
    requires
        forall|i: int| 0 <= i < packets.len() ==> (#[trigger] packets[i]).serial == serial,
    ensures
        packets.len() <= 255 * page_state(packets, serial).0 + page_state(packets, serial).1,
        page_state(packets, serial).1 < 255,
    decreases packets.len(),
{
    if packets.len() > 0 {
        assert forall|i: int| 0 <= i < packets.drop_last().len() implies (
        #[trigger] packets.drop_last()[i]).serial == serial by {
            assert(packets.drop_last()[i] == packets[i]);
        }
        lemma_packets_bounded_by_pages(packets.drop_last(), serial);
        assert(packets[packets.len() - 1].serial == serial);
    }
}

/// A packet takes as few lacing values as leave the last one below 255.
pub proof fn law_lacing_covers_a_packet(len: nat)
    ensures
        lacing_values(len) > 0,
        255 * (lacing_values(len) - 1) <= len < 255 * lacing_values(len),
{
}

/// No lacing value is lost or invented: a page holds 255 of them, and the open page the rest.
/// Where a packet ends its page, nothing is left in the open page, and at most one page is short.
pub proof fn law_pages_hold_all_lacing_values(pages: nat, fill: nat, len: nat, end: PacketEnd)
    requires
        fill < 255,
    ensures
        ({
            let state = page_step(pages, fill, len, end);
            let values = 255 * pages + fill + lacing_values(len);
            &&& state.1 < 255
            &&& end == PacketEnd::Normal ==> 255 * state.0 + state.1 == values
            &&& end != PacketEnd::Normal ==> state.1 == 0 && values <= 255 * state.0 < values + 255
        }),
{
}

/// Pages are counted from none on. A packet of another stream changes nothing, and one of this
/// stream does so by its length and its end alone. They can be numbered up to 32 bits.
pub proof fn law_pages_are_counted(packets: Seq<Packet>, packet: Packet, serial: u32)
    ensures
        page_state(Seq::empty(), serial) == (0nat, 0nat),
        packet.serial != serial ==> page_state(packets.push(packet), serial) == page_state(
            packets,
            serial,
        ),
        packet.serial == serial ==> page_state(packets.push(packet), serial) == page_step(
            page_state(packets, serial).0,
            page_state(packets, serial).1,
            packet.data.len(),
            packet.end,
        ),
        pages_fit(packets, serial) <==> page_state(packets, serial).0 < 0x1_0000_0000,
{
    assert(packets.push(packet).drop_last() =~= packets);
}

// ---------------------------------------------------------------------------
// The muxer
// ---------------------------------------------------------------------------

/// `ogg::PacketWriter` over a byte vector.
#[verifier::external_body]
pub struct OggWriter {
    inner: ogg::PacketWriter<'static, Vec<u8>>,
}

/// `std::io::Error`, in which `ogg` reports a failed write.
#[verifier::external_type_specification]
#[verifier::external_body]
pub struct ExIoError(std::io::Error);

/// The packets that a writer has been given, in order.
pub uninterp spec fn ogg_packets(writer: OggWriter) -> Seq<Packet>;

/// The bytes that lie in a writer's vector.
pub uninterp spec fn ogg_output(writer: OggWriter) -> Seq<u8>;

/// The bytes of the pages that `ogg::PacketWriter::write_packet` writes out when `packet` is
/// given to a writer that has been given `before`.
pub uninterp spec fn ogg_emitted(before: Seq<Packet>, packet: Packet) -> Seq<u8>;

/// `ogg::PacketWriter::new`: a writer that has been given no packet. The vector it writes to is
/// the one it is made with.
#[verifier::external_body]
fn new_writer(out: Vec<u8>) -> (writer: OggWriter)
    ensures
        ogg_packets(writer) == Seq::<Packet>::empty(),
        ogg_output(writer) == out@,
{
    OggWriter { inner: ogg::PacketWriter::new(out) }
}

/// `ogg::PacketWriter::write_packet`: the writer takes the packet in and appends to its vector
/// whatever pages became complete. Which bytes those are depends on the packets alone, since the
/// writer never reads its vector. It reports no errors but those of writing to that vector and
/// to a page header in memory, and a vector that is written to grows as needed. The page counter
/// is a `u32` that is incremented for every page, so the pages have to fit.
#[verifier::external_body]
fn write_packet(
    writer: &mut OggWriter,
    data: Vec<u8>,
    serial: u32,
    end: PacketEnd,
    absgp: u64,
) -> (result: Result<(), std::io::Error>)
    requires
        pages_fit(
            ogg_packets(*old(writer)).push(Packet { data: data@, serial, end, absgp }),
            serial,
        ),
    ensures
        result is Ok,
        ogg_packets(*final(writer)) == ogg_packets(*old(writer)).push(
            Packet { data: data@, serial, end, absgp },
        ),
        ogg_output(*final(writer)) == ogg_output(*old(writer)) + ogg_emitted(
            ogg_packets(*old(writer)),
            Packet { data: data@, serial, end, absgp },
        ),
{
    let inf = match end {
        PacketEnd::Normal => ogg::PacketWriteEndInfo::NormalPacket,
        PacketEnd::Page => ogg::PacketWriteEndInfo::EndPage,
        PacketEnd::Stream => ogg::PacketWriteEndInfo::EndStream,
    };
    writer.inner.write_packet(data, serial, inf, absgp)
}

/// `ogg::PacketWriter::inner_mut`: the writer's vector. What is done to it changes nothing else
/// in the writer.
#[verifier::external_body]
fn inner_mut<'a>(writer: &'a mut OggWriter) -> (out: &'a mut Vec<u8>)
    ensures
        out@ == ogg_output(*old(writer)),
        ogg_output(*final(writer)) == final(out)@,
        ogg_packets(*final(writer)) == ogg_packets(*old(writer)),
{
    writer.inner.inner_mut()
}

/// The bytes that a writer puts out for `packets`, from the first one on.
pub open spec fn stream_bytes(packets: Seq<Packet>) -> Seq<u8>
    decreases packets.len(),
{
    if packets.len() == 0 {
        Seq::empty()
    } else {
        stream_bytes(packets.drop_last()) + ogg_emitted(packets.drop_last(), packets.last())
    }
}

/// The bytes of a stream are what the writer put out for each packet in turn, with nothing before,
/// between or behind.
pub proof fn law_bytes_follow_the_packets(packets: Seq<Packet>, packet: Packet)
    ensures
        stream_bytes(Seq::empty()) == Seq::<u8>::empty(),
        stream_bytes(packets.push(packet)) == stream_bytes(packets) + ogg_emitted(packets, packet),
{
    assert(packets.push(packet).drop_last() =~= packets);
}

// ---------------------------------------------------------------------------
// The stream
// ---------------------------------------------------------------------------

/// One logical Ogg stream. The pages it has completed wait in memory until they are taken.
pub struct OggStream {
    writer: OggWriter,
    serial: u32,
    /// The pages written so far.
    pages: u64,
    /// The lacing values in the open page.
    page_fill: u64,
    /// Everything that has been taken, in order.
    taken: Ghost<Seq<u8>>,
}

impl OggStream {
    /// The packets of the stream, in order.
    pub closed spec fn packets(self) -> Seq<Packet> {
        ogg_packets(self.writer)
    }

    /// The number that marks every page of the stream.
    pub closed spec fn serial(self) -> u32 {
        self.serial
    }

    /// The bytes that have been taken from the stream so far.
    pub closed spec fn taken(self) -> Seq<u8> {
        self.taken@
    }

    /// What has been taken and what waits make up the bytes of the packets, and the counters
    /// count their pages.
    pub closed spec fn wf(self) -> bool {
        &&& self.taken@ + ogg_output(self.writer) == stream_bytes(ogg_packets(self.writer))
        &&& (self.pages as nat, self.page_fill as nat) == page_state(
            ogg_packets(self.writer),
            self.serial,
        )
        &&& self.pages <= u32::MAX
        &&& self.page_fill < 255
        &&& forall|i: int|
            0 <= i < ogg_packets(self.writer).len() ==> (#[trigger] ogg_packets(
                self.writer,
            )[i]).serial == self.serial
    }

    /// Whether the pages can still be numbered after this packet.
    pub open spec fn fits(self, data: Seq<u8>, end: PacketEnd, absgp: u64) -> bool {
        pages_fit(
            self.packets().push(Packet { data, serial: self.serial(), end, absgp }),
            self.serial(),
        )
    }

    /// There is room for a packet exactly as long as the pages with it can be numbered in 32 bits.
    pub proof fn law_room_ends_with_the_page_numbers(
        self,
        data: Seq<u8>,
        end: PacketEnd,
        absgp: u64,
    )
        ensures
            self.fits(data, end, absgp) <==> page_state(
                self.packets().push(Packet { data, serial: self.serial(), end, absgp }),
                self.serial(),
            ).0 < 0x1_0000_0000,
    {
    }

    /// A stream whose pages can be numbered has a bounded number of packets.
    pub(crate) proof fn lemma_packets_bounded(self)
        requires
            self.wf(),
        ensures
            self.packets().len() < 255 * 0x1_0000_0000,
    {
        lemma_packets_bounded_by_pages(self.packets(), self.serial);
    }

    /// An empty stream.
    pub fn new(serial: u32) -> (stream: OggStream)
        ensures
            stream.wf(),
            stream.packets() == Seq::<Packet>::empty(),
            stream.serial() == serial,
            stream.taken() == Seq::<u8>::empty(),
    {
        let writer = new_writer(Vec::new());
        OggStream { writer, serial, pages: 0, page_fill: 0, taken: Ghost(Seq::empty()) }
    }

    /// The page counters after a packet of `len` bytes.
    fn next_page_state(&self, len: usize, end: PacketEnd) -> (state: (u64, u64))
        requires
            self.wf(),
        ensures
            (state.0 as nat, state.1 as nat) == page_step(
                self.pages as nat,
                self.page_fill as nat,
                len as nat,
                end,
            ),
    {
        let total: u64 = self.page_fill + len as u64 / 255 + 1;
        let open: u64 = total % 255;
        if end != PacketEnd::Normal && open != 0 {
            (self.pages + total / 255 + 1, 0)
        } else {
            (self.pages + total / 255, open)
        }
    }

    /// Whether the pages can still be numbered after a packet of `len` bytes.
    pub fn has_room(&self, len: usize, end: PacketEnd) -> (room: bool)
        requires
            self.wf(),
        ensures
            forall|data: Seq<u8>, absgp: u64|
                data.len() == len ==> #[trigger] self.fits(data, end, absgp) == room,
    {
        let state = self.next_page_state(len, end);
        proof {
            assert forall|data: Seq<u8>, absgp: u64| data.len() == len implies #[trigger] self.fits(
                data,
                end,
                absgp,
            ) == (state.0 <= u32::MAX) by {
                let packet = Packet { data, serial: self.serial, end, absgp };
                assert(self.packets().push(packet).drop_last() == self.packets());
            }
        }
        state.0 <= 0xffff_ffff
    }

    /// Appends a packet.
    pub fn write_packet(&mut self, data: Vec<u8>, end: PacketEnd, absgp: u64)
        requires
            old(self).wf(),
            old(self).fits(data@, end, absgp),
        ensures
            final(self).wf(),
            final(self).packets() == old(self).packets().push(
                Packet { data: data@, serial: old(self).serial(), end, absgp },
            ),
            final(self).serial() == old(self).serial(),
            final(self).taken() == old(self).taken(),
    {
        let state = self.next_page_state(data.len(), end);
        let ghost before = ogg_packets(self.writer);
        let ghost packet = Packet { data: data@, serial: self.serial, end, absgp };
        assert(before.push(packet).drop_last() == before);
        write_packet(&mut self.writer, data, self.serial, end, absgp).unwrap();
        self.pages = state.0;
        self.page_fill = state.1;
        assert(self.taken@ + ogg_output(self.writer) == stream_bytes(before) + ogg_emitted(
            before,
            packet,
        ));
    }

    /// Hands out the bytes of the pages that were completed since the last call.
    pub fn take_output(&mut self) -> (bytes: Vec<u8>)
        requires
            old(self).wf(),
        ensures
            final(self).wf(),
            final(self).packets() == old(self).packets(),
            final(self).serial() == old(self).serial(),
            final(self).taken() == old(self).taken() + bytes@,
            final(self).taken() == stream_bytes(old(self).packets()),
    {
        let mut bytes: Vec<u8> = Vec::new();
        std::mem::swap(&mut bytes, inner_mut(&mut self.writer));
        self.taken = Ghost(self.taken@ + bytes@);
        assert(self.taken@ + ogg_output(self.writer) == self.taken@);
        bytes
    }
}

} // verus!
