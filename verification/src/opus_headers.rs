//! The two packets that open an Ogg Opus stream.

use vstd::prelude::*;

verus! {

/// Channels of every recording: stereo.
pub const CHANNELS: u8 = 2;

/// Samples per second and channel.
pub const SAMPLE_RATE: u32 = 48000;

/// The `width` lowest bytes of `n`, the lowest one first.
pub open spec fn le_bytes(n: nat, width: nat) -> Seq<u8>
    decreases width,
{
    if width == 0 {
        Seq::empty()
    } else {
        seq![(n % 256) as u8] + le_bytes(n / 256, (width - 1) as nat)
    }
}

/// The number that `bytes` write, the lowest byte first.
pub open spec fn le_value(bytes: Seq<u8>) -> nat
    decreases bytes.len(),
{
    if bytes.len() == 0 {
        0
    } else {
        bytes[0] as nat + 256 * le_value(bytes.drop_first())
    }
}

/// The bytes of a text of ASCII characters.
pub open spec fn ascii(text: Seq<char>) -> Seq<u8> {
    Seq::new(text.len(), |i: int| text[i] as u8)
}

/// The identification header of a stream whose first `pre_skip` samples are to be dropped:
/// magic, version 1, two channels, pre-skip, input sample rate, no output gain, mapping
/// family 0.
pub open spec fn opus_head_bytes(pre_skip: u16) -> Seq<u8> {
    ascii("OpusHead"@) + seq![1u8, CHANNELS] + le_bytes(pre_skip as nat, 2) + le_bytes(
        SAMPLE_RATE as nat,
        4,
    ) + le_bytes(0, 2) + seq![0u8]
}

/// The comment header: magic, the vendor's name behind its length, and no comments.
pub open spec fn opus_tags_bytes() -> Seq<u8> {
    ascii("OpusTags"@) + le_bytes("discord_recorder"@.len(), 4) + ascii("discord_recorder"@)
        + le_bytes(0, 4)
}

/// Appends the `width` lowest bytes of `value`, the lowest one first.
fn push_le(out: &mut Vec<u8>, value: u32, width: usize)
    ensures
        final(out)@ == old(out)@ + le_bytes(value as nat, width as nat),
{
    let mut rest: u32 = value;
    let mut left: usize = width;
    while left > 0
        invariant
            out@ + le_bytes(rest as nat, left as nat) == old(out)@ + le_bytes(
                value as nat,
                width as nat,
            ),
        decreases left,
    {
        let ghost before = out@;
        out.push((rest % 256) as u8);
        assert(before + le_bytes(rest as nat, left as nat) == out@ + le_bytes(
            (rest / 256) as nat,
            (left - 1) as nat,
        ));
        rest = rest / 256;
        left = left - 1;
    }
    assert(out@ + le_bytes(rest as nat, 0) == out@);
}

/// Appends the bytes of a text of ASCII characters.
fn push_ascii(out: &mut Vec<u8>, text: &str)
    requires
        text.is_ascii(),
    ensures
        final(out)@ == old(out)@ + ascii(text@),
{
    out.extend_from_slice(text.as_bytes());
    assert(out@ =~= old(out)@ + ascii(text@));
}

/// The identification header.
pub fn opus_head(pre_skip: u16) -> (head: Vec<u8>)
    ensures
        head@ == opus_head_bytes(pre_skip),
        head@ == seq![
            0x4fu8, 0x70u8, 0x75u8, 0x73u8, 0x48u8, 0x65u8, 0x61u8, 0x64u8, 1u8, 2u8,
            (pre_skip % 256) as u8, (pre_skip / 256) as u8, 0x80u8, 0xbbu8, 0u8, 0u8, 0u8, 0u8, 0u8,
        ],
{
    proof {
        reveal_strlit("OpusHead");
        law_head_is_written_out(pre_skip);
    }
    let mut head: Vec<u8> = Vec::with_capacity(19);
    push_ascii(&mut head, "OpusHead");
    head.push(1);
    head.push(CHANNELS);
    push_le(&mut head, pre_skip as u32, 2);
    push_le(&mut head, SAMPLE_RATE, 4);
    push_le(&mut head, 0, 2);
    head.push(0);
    assert(head@ =~= opus_head_bytes(pre_skip));
    head
}

/// The comment header.
pub fn opus_tags() -> (tags: Vec<u8>)
    ensures
        tags@ == opus_tags_bytes(),
        tags@ == seq![
            0x4fu8, 0x70u8, 0x75u8, 0x73u8, 0x54u8, 0x61u8, 0x67u8, 0x73u8, 16u8, 0u8, 0u8, 0u8,
            0x64u8, 0x69u8, 0x73u8, 0x63u8, 0x6fu8, 0x72u8, 0x64u8, 0x5fu8, 0x72u8, 0x65u8, 0x63u8,
            0x6fu8, 0x72u8, 0x64u8, 0x65u8, 0x72u8, 0u8, 0u8, 0u8, 0u8,
        ],
{
    proof {
        law_tags_are_written_out();
        reveal_strlit("OpusTags");
        reveal_strlit("discord_recorder");
    }
    let vendor = "discord_recorder";
    assert(vendor.is_ascii());
    let mut tags: Vec<u8> = Vec::new();
    push_ascii(&mut tags, "OpusTags");
    push_le(&mut tags, vendor.len() as u32, 4);
    push_ascii(&mut tags, vendor);
    push_le(&mut tags, 0, 4);
    assert(tags@ =~= opus_tags_bytes());
    tags
}

pub(crate) proof fn lemma_tags_len()
    ensures
        opus_tags_bytes().len() == 32,
{
    reveal_strlit("OpusTags");
    reveal_strlit("discord_recorder");
    reveal_with_fuel(le_bytes, 5);
}

/// A number that fits its width is read back from its bytes.
pub proof fn law_le_round_trip(n: nat, width: nat)
    requires
        n < vstd::arithmetic::power::pow(256, width),
    ensures
        le_bytes(n, width).len() == width,
        le_value(le_bytes(n, width)) == n,
    decreases width,
{
    if width == 0 {
        vstd::arithmetic::power::lemma_pow0(256);
    } else {
        let rest = (width - 1) as nat;
        assert(vstd::arithmetic::power::pow(256, width) == 256 * vstd::arithmetic::power::pow(
            256,
            rest,
        )) by {
            reveal(vstd::arithmetic::power::pow);
        }
        law_le_round_trip(n / 256, rest);
        assert(le_bytes(n, width).drop_first() == le_bytes(n / 256, rest));
    }
}

/// The identification header, byte by byte.
pub proof fn law_head_is_written_out(pre_skip: u16)
    ensures
        opus_head_bytes(pre_skip) == seq![
            0x4fu8, 0x70u8, 0x75u8, 0x73u8, 0x48u8, 0x65u8, 0x61u8, 0x64u8, 1u8, 2u8,
            (pre_skip % 256) as u8, (pre_skip / 256) as u8, 0x80u8, 0xbbu8, 0u8, 0u8, 0u8, 0u8, 0u8,
        ],
{
    reveal_strlit("OpusHead");
    reveal_with_fuel(le_bytes, 5);
    assert(opus_head_bytes(pre_skip) =~= seq![
            0x4fu8, 0x70u8, 0x75u8, 0x73u8, 0x48u8, 0x65u8, 0x61u8, 0x64u8, 1u8, 2u8,
            (pre_skip % 256) as u8, (pre_skip / 256) as u8, 0x80u8, 0xbbu8, 0u8, 0u8, 0u8, 0u8, 0u8,
        ]);
}

/// The comment header, byte by byte.
pub proof fn law_tags_are_written_out()
    ensures
        opus_tags_bytes() == seq![
            0x4fu8, 0x70u8, 0x75u8, 0x73u8, 0x54u8, 0x61u8, 0x67u8, 0x73u8, 16u8, 0u8, 0u8, 0u8,
            0x64u8, 0x69u8, 0x73u8, 0x63u8, 0x6fu8, 0x72u8, 0x64u8, 0x5fu8, 0x72u8, 0x65u8, 0x63u8,
            0x6fu8, 0x72u8, 0x64u8, 0x65u8, 0x72u8, 0u8, 0u8, 0u8, 0u8,
        ],
{
    reveal_strlit("OpusTags");
    reveal_strlit("discord_recorder");
    reveal_with_fuel(le_bytes, 5);
    assert(opus_tags_bytes() =~= seq![
            0x4fu8, 0x70u8, 0x75u8, 0x73u8, 0x54u8, 0x61u8, 0x67u8, 0x73u8, 16u8, 0u8, 0u8, 0u8,
            0x64u8, 0x69u8, 0x73u8, 0x63u8, 0x6fu8, 0x72u8, 0x64u8, 0x5fu8, 0x72u8, 0x65u8, 0x63u8,
            0x6fu8, 0x72u8, 0x64u8, 0x65u8, 0x72u8, 0u8, 0u8, 0u8, 0u8,
        ]);
}

/// The identification header has 19 bytes, and its fields can be read back from it.
pub proof fn law_head_fields(pre_skip: u16)
    ensures
        opus_head_bytes(pre_skip).len() == 19,
        opus_head_bytes(pre_skip).subrange(0, 8) == ascii("OpusHead"@),
        opus_head_bytes(pre_skip)[8] == 1,
        opus_head_bytes(pre_skip)[9] == CHANNELS,
        le_value(opus_head_bytes(pre_skip).subrange(10, 12)) == pre_skip,
        le_value(opus_head_bytes(pre_skip).subrange(12, 16)) == SAMPLE_RATE,
        le_value(opus_head_bytes(pre_skip).subrange(16, 18)) == 0,
        opus_head_bytes(pre_skip)[18] == 0,
{
    reveal_strlit("OpusHead");
    assert(vstd::arithmetic::power::pow(256, 2) == 0x1_0000 && vstd::arithmetic::power::pow(256, 4)
        == 0x1_0000_0000) by {
        reveal_with_fuel(vstd::arithmetic::power::pow, 5);
    }
    law_le_round_trip(pre_skip as nat, 2);
    law_le_round_trip(SAMPLE_RATE as nat, 4);
    law_le_round_trip(0, 2);
    assert(opus_head_bytes(pre_skip).subrange(0, 8) =~= ascii("OpusHead"@));
    assert(opus_head_bytes(pre_skip).subrange(10, 12) =~= le_bytes(pre_skip as nat, 2));
    assert(opus_head_bytes(pre_skip).subrange(12, 16) =~= le_bytes(SAMPLE_RATE as nat, 4));
    assert(opus_head_bytes(pre_skip).subrange(16, 18) =~= le_bytes(0, 2));
}

} // verus!
