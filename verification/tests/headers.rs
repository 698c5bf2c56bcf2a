use discord_recorder::opus_headers::{opus_head, opus_tags};

#[test]
fn head_is_the_known_packet() {
    let mut expected = b"OpusHead".to_vec();
    expected.extend_from_slice(&[1, 2]);
    expected.extend_from_slice(&312u16.to_le_bytes());
    expected.extend_from_slice(&48000u32.to_le_bytes());
    expected.extend_from_slice(&0i16.to_le_bytes());
    expected.push(0);
    assert_eq!(opus_head(312), expected);
    assert_eq!(opus_head(312).len(), 19);
}

#[test]
fn head_writes_the_lowest_byte_first() {
    assert_eq!(opus_head(0x1234)[10..12], [0x34, 0x12]);
    assert_eq!(opus_head(0)[10..12], [0, 0]);
    assert_eq!(opus_head(0xffff)[10..12], [0xff, 0xff]);
    assert_eq!(opus_head(7)[12..16], [0x80, 0xbb, 0, 0]);
}

#[test]
fn tags_name_the_vendor_and_hold_no_comment() {
    let vendor = b"discord_recorder";
    let mut expected = b"OpusTags".to_vec();
    expected.extend_from_slice(&(vendor.len() as u32).to_le_bytes());
    expected.extend_from_slice(vendor);
    expected.extend_from_slice(&0u32.to_le_bytes());
    assert_eq!(opus_tags(), expected);
    assert_eq!(opus_tags().len(), 32);
}
