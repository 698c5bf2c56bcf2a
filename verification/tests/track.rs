use std::io::Cursor;

use discord_recorder::opus_headers::{opus_head, opus_tags};
use discord_recorder::track::{frame_buffer, silent_pcm, UserTrack};

struct ReadPacket {
    data: Vec<u8>,
    absgp: u64,
    first: bool,
    last: bool,
    ends_page: bool,
    serial: u32,
}

fn read_packets(bytes: &[u8]) -> Vec<ReadPacket> {
    let mut reader = ogg::PacketReader::new(Cursor::new(bytes.to_vec()));
    let mut packets = Vec::new();
    while let Some(packet) = reader.read_packet().unwrap() {
        packets.push(ReadPacket {
            absgp: packet.absgp_page(),
            first: packet.first_in_stream(),
            last: packet.last_in_stream(),
            ends_page: packet.last_in_page(),
            serial: packet.stream_serial(),
            data: packet.data,
        });
    }
    packets
}

fn buffer_with(frame: &[u8]) -> Vec<u8> {
    let mut buffer = frame_buffer();
    buffer[..frame.len()].copy_from_slice(frame);
    buffer
}

fn write(track: &mut UserTrack, frame: &[u8]) {
    assert!(track.has_room());
    assert_eq!(track.write_frame::<()>(buffer_with(frame), Ok(frame.len())), Ok(()));
}

fn close(track: UserTrack) -> Vec<u8> {
    assert!(track.can_finalize());
    track.finalize()
}

#[test]
fn file_opens_with_both_headers_on_pages_of_their_own() {
    let mut track = UserTrack::create::<()>(Ok(312)).unwrap();
    let bytes = track.take_output();
    assert_eq!(&bytes[..4], b"OggS");
    // Version 0, first page of the stream, granule position 0, serial 1, page 0.
    assert_eq!(bytes[4..6], [0, 2]);
    assert_eq!(bytes[6..14], [0; 8]);
    assert_eq!(bytes[14..18], [1, 0, 0, 0]);
    assert_eq!(bytes[18..22], [0; 4]);
    // One lacing value of 19 bytes.
    assert_eq!(bytes[26..28], [1, 19]);
    assert_eq!(bytes[28..47], opus_head(312)[..]);
    assert_eq!(&bytes[47..51], b"OggS");
    assert_eq!(bytes[65..69], [1, 0, 0, 0]);
    assert_eq!(bytes[73..75], [1, 32]);
    assert_eq!(bytes[75..107], opus_tags()[..]);
    assert_eq!(bytes.len(), 107);
}

#[test]
fn encoder_that_cannot_tell_its_delay_gives_no_track() {
    match UserTrack::create::<&str>(Err("no lookahead")) {
        Err(e) => assert_eq!(e, "no lookahead"),
        Ok(_) => panic!("a track without a delay"),
    }
}

#[test]
fn delay_keeps_its_lowest_sixteen_bits() {
    let mut track = UserTrack::create::<()>(Ok(65536 + 312)).unwrap();
    assert_eq!(track.take_output()[28..47], opus_head(312)[..]);
}

#[test]
fn frames_come_back_in_order_with_the_end_of_the_stream() {
    let mut track = UserTrack::create::<()>(Ok(312)).unwrap();
    write(&mut track, &[1]);
    write(&mut track, &[2, 2]);
    write(&mut track, &[3, 3, 3]);
    let packets = read_packets(&close(track));
    assert_eq!(packets.len(), 5);
    assert_eq!(packets[0].data, opus_head(312));
    assert!(packets[0].first && packets[0].ends_page);
    assert_eq!(packets[0].absgp, 0);
    assert_eq!(packets[1].data, opus_tags());
    assert!(packets[1].ends_page);
    assert_eq!(packets[1].absgp, 0);
    assert_eq!(packets[2].data, [1]);
    assert_eq!(packets[3].data, [2, 2]);
    assert_eq!(packets[4].data, [3, 3, 3]);
    assert!(packets[4].last);
    assert!(packets[..4].iter().all(|packet| !packet.last));
    assert!(packets.iter().all(|packet| packet.serial == 1));
    assert_eq!(packets[4].absgp, 312 + 3 * 960);
}

#[test]
fn file_without_frames_holds_its_headers_alone() {
    let track = UserTrack::create::<()>(Ok(312)).unwrap();
    let packets = read_packets(&close(track));
    assert_eq!(packets.len(), 2);
    assert!(packets.iter().all(|packet| !packet.last));
}

#[test]
fn failed_encoding_leaves_no_trace() {
    let mut track = UserTrack::create::<()>(Ok(312)).unwrap();
    write(&mut track, &[1]);
    assert_eq!(track.write_frame(frame_buffer(), Err("broken")), Err("broken"));
    write(&mut track, &[2]);
    let packets = read_packets(&close(track));
    assert_eq!(packets.len(), 4);
    assert_eq!(packets[2].data, [1]);
    assert_eq!(packets[3].data, [2]);
    assert_eq!(packets[3].absgp, 312 + 2 * 960);
}

#[test]
fn longer_length_than_the_buffer_keeps_the_whole_buffer() {
    let mut track = UserTrack::create::<()>(Ok(0)).unwrap();
    assert!(track.has_room());
    assert_eq!(track.write_frame::<()>(vec![7, 8], Ok(5)), Ok(()));
    let packets = read_packets(&close(track));
    assert_eq!(packets[2].data, [7, 8]);
}

#[test]
fn full_page_carries_the_granule_of_the_frame_that_ends_it() {
    // A page has room for 255 frames of less than 255 bytes.
    let mut track = UserTrack::create::<()>(Ok(312)).unwrap();
    track.take_output();
    for i in 0..256u32 {
        write(&mut track, &[i as u8]);
        // The frame that was just written is held back.
        assert_eq!(track.take_output().is_empty(), i < 255);
    }
    let rest = close(track);
    assert_eq!(&rest[..4], b"OggS");
    assert_eq!(rest[5], 4);
    assert_eq!(rest[6..14], (312u64 + 256 * 960).to_le_bytes());

    let mut track = UserTrack::create::<()>(Ok(312)).unwrap();
    track.take_output();
    for i in 0..255u32 {
        write(&mut track, &[i as u8]);
    }
    write(&mut track, &[0]);
    let page = track.take_output();
    assert_eq!(page[6..14], (312u64 + 254 * 960).to_le_bytes());
}

#[test]
fn pieces_that_were_handed_out_make_up_the_file() {
    let mut whole = UserTrack::create::<()>(Ok(312)).unwrap();
    let mut pieces = UserTrack::create::<()>(Ok(312)).unwrap();
    let mut bytes = Vec::new();
    for i in 0..600u32 {
        let frame = vec![i as u8; (i % 700) as usize];
        write(&mut whole, &frame);
        write(&mut pieces, &frame);
        bytes.extend(pieces.take_output());
    }
    bytes.extend(close(pieces));
    assert_eq!(bytes, close(whole));
    let packets = read_packets(&bytes);
    assert_eq!(packets.len(), 602);
    for i in 0..600usize {
        assert_eq!(packets[i + 2].data, vec![i as u8; i % 700]);
    }
    assert_eq!(packets[601].absgp, 312 + 600 * 960);
}

#[test]
fn what_goes_to_the_encoder() {
    assert_eq!(frame_buffer(), vec![0u8; 4000]);
    assert_eq!(silent_pcm(), vec![0i16; 1920]);
}
