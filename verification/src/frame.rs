//! Byte framing of the control connection: every message travels as a tag
//! byte, a little-endian `u32` payload length, and the payload; a control
//! client opens with a fixed-layout hello.

use vstd::prelude::*;

verus! {

/// Tag of a frame carrying a client message.
pub const TAG_CLIENT_MSG: u8 = 0x01;
/// Tag of a frame carrying a server message.
pub const TAG_SERVER_MSG: u8 = 0x10;
/// Largest payload a frame may announce (16 MiB).
pub const MAX_FRAME_SIZE: usize = 16 * 1024 * 1024;

/// Little-endian bytes of `n`.
pub open spec fn le32(n: u32) -> Seq<u8> {
    seq![
        (n & 0xff) as u8,
        ((n >> 8u32) & 0xff) as u8,
        ((n >> 16u32) & 0xff) as u8,
        ((n >> 24u32) & 0xff) as u8,
    ]
}

/// The `u32` whose little-endian bytes are `b0..b3`.
pub open spec fn from_le32(b0: u8, b1: u8, b2: u8, b3: u8) -> u32 {
    (b0 as u32) | ((b1 as u32) << 8u32) | ((b2 as u32) << 16u32) | ((b3 as u32) << 24u32)
}

pub open spec fn le16(n: u16) -> Seq<u8> {
    seq![(n & 0xff) as u8, ((n >> 8u16) & 0xff) as u8]
}

fn push_le32(out: &mut Vec<u8>, n: u32)
    ensures
        final(out)@ == old(out)@ + le32(n),
{
    out.push((n & 0xff) as u8);
    out.push(((n >> 8) & 0xff) as u8);
    out.push(((n >> 16) & 0xff) as u8);
    out.push(((n >> 24) & 0xff) as u8);
    proof {
        assert(out@ =~= old(out)@ + le32(n));
    }
}

fn push_le16(out: &mut Vec<u8>, n: u16)
    ensures
        final(out)@ == old(out)@ + le16(n),
{
    out.push((n & 0xff) as u8);
    out.push(((n >> 8) & 0xff) as u8);
    proof {
        assert(out@ =~= old(out)@ + le16(n));
    }
}

fn push_all(out: &mut Vec<u8>, bytes: &[u8])
    ensures
        final(out)@ == old(out)@ + bytes@,
{
    let mut i: usize = 0;
    while i < bytes.len()
        invariant
            i <= bytes@.len(),
            out@ == old(out)@ + bytes@.subrange(0, i as int),
        decreases bytes.len() - i,
    {
        out.push(bytes[i]);
        proof {
            assert(out@ =~= old(out)@ + bytes@.subrange(0, i + 1));
        }
        i = i + 1;
    }
    proof {
        assert(bytes@.subrange(0, bytes@.len() as int) =~= bytes@);
    }
}

/// The frame carrying `payload` under `tag`.
pub fn encode_frame(tag: u8, payload: &[u8]) -> (r: Vec<u8>)
    requires
        payload@.len() <= u32::MAX,
    ensures
        r@ == seq![tag] + le32(payload@.len() as u32) + payload@,
{
    let mut frame: Vec<u8> = Vec::new();
    frame.push(tag);
    push_le32(&mut frame, payload.len() as u32);
    push_all(&mut frame, payload);
    proof {
        assert(frame@ =~= seq![tag] + le32(payload@.len() as u32) + payload@);
    }
    frame
}

/// The tag and payload length a 5-byte frame header announces.
pub fn decode_frame_header(header: &[u8; 5]) -> (r: (u8, usize))
    ensures
        r.0 == header@[0],
        r.1 == from_le32(header@[1], header@[2], header@[3], header@[4]),
{
    let tag = header[0];
    let len = (header[1] as u32) | ((header[2] as u32) << 8) | ((header[3] as u32) << 16) | ((
    header[4] as u32) << 24);
    (tag, len as usize)
}

/// Whether an announced payload length may be read.
pub fn frame_len_ok(len: usize) -> (r: bool)
    ensures
        r == (len <= MAX_FRAME_SIZE),
{
    len <= MAX_FRAME_SIZE
}

/// Reading a frame header back gives the tag and length it was written with.
pub proof fn lemma_frame_header_round_trip(tag: u8, len: u32)
    ensures
        ({
            let h = seq![tag] + le32(len);
            h[0] == tag && from_le32(h[1], h[2], h[3], h[4]) == len
        }),
{
    let h = seq![tag] + le32(len);
    assert(h[1] == (len & 0xff) as u8);
    assert(h[2] == ((len >> 8u32) & 0xff) as u8);
    assert(h[3] == ((len >> 16u32) & 0xff) as u8);
    assert(h[4] == ((len >> 24u32) & 0xff) as u8);
    assert(from_le32(
        (len & 0xff) as u8,
        ((len >> 8u32) & 0xff) as u8,
        ((len >> 16u32) & 0xff) as u8,
        ((len >> 24u32) & 0xff) as u8,
    ) == len) by (bit_vector);
}

/// The session name control connections use.
pub const CONTROL_SESSION: &'static str = "__control__";

/// The packed client version: major in the top byte, minor in the next,
/// patch in the low 16 bits.
pub open spec fn packed_version(major: u8, minor: u8, patch: u16) -> u32 {
    ((major as u32) << 24u32) | ((minor as u32) << 16u32) | (patch as u32)
}

/// Bit pattern of the `f32` value 8.0.
pub const F32_BITS_8: u32 = 0x4100_0000;
/// Bit pattern of the `f32` value 16.0.
pub const F32_BITS_16: u32 = 0x4180_0000;

/// The hello a control client sends: magic "CIRI", packed version, wire
/// protocol version, the length-prefixed session name "__control__", a
/// 1024x768 window and 8x16 cells.
pub open spec fn control_hello_spec(major: u8, minor: u8, patch: u16, wire_version: u8) -> Seq<u8> {
    seq![0x43u8, 0x49u8, 0x52u8, 0x49u8] + le32(packed_version(major, minor, patch)) + seq![wire_version]
        + le16(11) + seq![
        0x5fu8,
        0x5fu8,
        0x63u8,
        0x6fu8,
        0x6eu8,
        0x74u8,
        0x72u8,
        0x6fu8,
        0x6cu8,
        0x5fu8,
        0x5fu8,
    ] + le32(1024) + le32(768) + le32(F32_BITS_8) + le32(F32_BITS_16)
}

pub fn build_control_hello(major: u8, minor: u8, patch: u16, wire_version: u8) -> (r: Vec<u8>)
    ensures
        r@ == control_hello_spec(major, minor, patch, wire_version),
{
    let mut hello: Vec<u8> = Vec::new();
    hello.push(0x43);
    hello.push(0x49);
    hello.push(0x52);
    hello.push(0x49);
    let version: u32 = ((major as u32) << 24) | ((minor as u32) << 16) | (patch as u32);
    push_le32(&mut hello, version);
    hello.push(wire_version);
    push_le16(&mut hello, 11);
    let name: [u8; 11] = [0x5f, 0x5f, 0x63, 0x6f, 0x6e, 0x74, 0x72, 0x6f, 0x6c, 0x5f, 0x5f];
    push_all(&mut hello, &name);
    push_le32(&mut hello, 1024);
    push_le32(&mut hello, 768);
    push_le32(&mut hello, F32_BITS_8);
    push_le32(&mut hello, F32_BITS_16);
    proof {
        assert(name@ =~= seq![
            0x5fu8,
            0x5fu8,
            0x63u8,
            0x6fu8,
            0x6eu8,
            0x74u8,
            0x72u8,
            0x6fu8,
            0x6cu8,
            0x5fu8,
            0x5fu8,
        ]);
        assert(hello@ =~= control_hello_spec(major, minor, patch, wire_version));
    }
    hello
}

} // verus!
