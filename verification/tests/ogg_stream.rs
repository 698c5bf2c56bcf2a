use std::io::Cursor;

use discord_recorder::ogg_stream::{OggStream, PacketEnd};

#[test]
fn packets_come_back_from_the_pages() {
    let mut stream = OggStream::new(7);
    stream.write_packet(vec![1, 2, 3], PacketEnd::Page, 10);
    let first = stream.take_output();
    assert!(!first.is_empty());
    stream.write_packet(vec![4; 300], PacketEnd::Normal, 20);
    assert!(stream.take_output().is_empty());
    stream.write_packet(vec![], PacketEnd::Stream, 30);
    let mut bytes = first;
    bytes.extend(stream.take_output());
    assert!(stream.take_output().is_empty());

    let mut reader = ogg::PacketReader::new(Cursor::new(bytes));
    let packet = reader.read_packet().unwrap().unwrap();
    assert_eq!(packet.data, [1, 2, 3]);
    assert_eq!(packet.stream_serial(), 7);
    assert_eq!(packet.absgp_page(), 10);
    assert!(packet.first_in_stream() && !packet.last_in_stream());
    let packet = reader.read_packet().unwrap().unwrap();
    assert_eq!(packet.data, [4; 300]);
    assert!(!packet.last_in_page());
    let packet = reader.read_packet().unwrap().unwrap();
    assert!(packet.data.is_empty());
    assert_eq!(packet.absgp_page(), 30);
    assert!(packet.last_in_stream());
    assert!(reader.read_packet().unwrap().is_none());
}

#[test]
fn room_ends_with_the_page_numbers() {
    let stream = OggStream::new(1);
    assert!(stream.has_room(0, PacketEnd::Stream));
    // A page takes 255 lacing values, and a packet takes one for each 255 bytes and one more.
    let full: usize = 255 * (255 * 0xffff_ffff - 1);
    assert!(stream.has_room(full, PacketEnd::Normal));
    assert!(stream.has_room(full, PacketEnd::Stream));
    assert!(stream.has_room(full + 255, PacketEnd::Normal));
    assert!(!stream.has_room(full + 255, PacketEnd::Stream));
    assert!(!stream.has_room(full + 255 * 255, PacketEnd::Normal));
    assert!(!stream.has_room(usize::MAX, PacketEnd::Normal));
}

#[test]
fn pages_are_counted_as_they_are_written() {
    // 254 short packets leave one lacing value in the page; a packet of 255 bytes takes two.
    let mut stream = OggStream::new(1);
    for i in 0..254u64 {
        stream.write_packet(vec![0], PacketEnd::Normal, i);
    }
    assert!(stream.take_output().is_empty());
    stream.write_packet(vec![9; 255], PacketEnd::Normal, 254);
    let page = stream.take_output();
    assert_eq!(page[26], 255);
    stream.write_packet(vec![8], PacketEnd::Stream, 255);
    let last = stream.take_output();
    // The packet of 255 bytes ends in this page.
    assert_eq!(last[5], 1 | 4);
    assert_eq!(last[26..29], [2, 0, 1]);
}
