use vstd::prelude::*;

verus! {

/// The number that four bytes spell, most significant byte first.
pub open spec fn be_u32(bytes: Seq<u8>) -> int
    recommends
        bytes.len() >= 4,
{
    bytes[0] * 16777216 + bytes[1] * 65536 + bytes[2] * 256 + bytes[3]
}

/// The four bytes that spell `n`, most significant byte first.
pub open spec fn be_bytes(n: u32) -> Seq<u8> {
    seq![
        (n / 16777216) as u8,
        ((n / 65536) % 256) as u8,
        ((n / 256) % 256) as u8,
        (n % 256) as u8,
    ]
}

/// A payload on the wire: its length in four bytes, then the payload.
pub open spec fn frame(payload: Seq<u8>) -> Seq<u8>
    recommends
        payload.len() <= u32::MAX,
{
    be_bytes(payload.len() as u32) + payload
}

/// Why a payload cannot be framed.
#[derive(Debug, PartialEq, Eq, Structural, Clone, Copy)]
pub enum FrameError {
    /// The length of the payload does not fit the four bytes of the length field.
    PayloadTooLong,
}

/// The length field for a payload of `len` bytes, if `len` fits it.
pub fn length_field_for(len: usize) -> (field: Result<u32, FrameError>)
    ensures
        len <= u32::MAX ==> field == Ok::<u32, FrameError>(len as u32),
        len > u32::MAX ==> field == Err::<u32, FrameError>(FrameError::PayloadTooLong),
{
    if len > 0xffff_ffff {
        Err(FrameError::PayloadTooLong)
    } else {
        Ok(len as u32)
    }
}

/// Frames payloads behind a four-byte big-endian length field.
#[derive(Debug, Clone, Copy)]
pub struct LengthFieldBasedCodec {}

impl LengthFieldBasedCodec {
    pub fn new() -> (codec: LengthFieldBasedCodec) {
        LengthFieldBasedCodec {  }
    }

    /// Takes the payload of the first frame out of `buf`, if the frame is there
    /// in full: four bytes of length and as many bytes of payload as they spell.
    /// The frame then takes up the first `4 + payload.len()` bytes of `buf`.
    pub fn decode(&self, buf: &[u8]) -> (payload: Option<Vec<u8>>)
        ensures
            match payload {
                Some(bytes) => buf@.len() >= 4 && be_u32(buf@) == bytes@.len() && buf@.len() >= 4
                    + bytes@.len() && bytes@ == buf@.subrange(4, 4 + bytes@.len() as int),
                None => buf@.len() < 4 || buf@.len() < 4 + be_u32(buf@),
            },
    {
        if buf.len() < 4 {
            return None;
        }
        let length_field: u32 = (buf[0] as u32) * 16777216 + (buf[1] as u32) * 65536 + (
        buf[2] as u32) * 256 + (buf[3] as u32);
        let length: usize = length_field as usize;
        if buf.len() - 4 < length {
            return None;
        }
        let mut bytes: Vec<u8> = Vec::new();
        let mut i: usize = 0;
        while i < length
            invariant
                i <= length,
                4 + length <= buf.len(),
                bytes@ == buf@.subrange(4, 4 + i),
            decreases length - i,
        {
            bytes.push(buf[4 + i]);
            assert(bytes@ =~= buf@.subrange(4, 4 + i + 1));
            i += 1;
        }
        Some(bytes)
    }

    /// Appends the frame of `payload` to `buf`. A payload too long for the
    /// length field is refused and `buf` stays as it is.
    pub fn encode(&self, payload: &[u8], buf: &mut Vec<u8>) -> (done: Result<(), FrameError>)
        ensures
            payload@.len() <= u32::MAX ==> done is Ok && final(buf)@ == old(buf)@ + frame(payload@),
            payload@.len() > u32::MAX ==> done == Err::<(), FrameError>(FrameError::PayloadTooLong)
                && final(buf)@ == old(buf)@,
    {
        let len: usize = payload.len();
        let length_field: u32 = match length_field_for(len) {
            Ok(field) => field,
            Err(refusal) => {
                return Err(refusal);
            },
        };
        buf.push((length_field / 16777216) as u8);
        buf.push(((length_field / 65536) % 256) as u8);
        buf.push(((length_field / 256) % 256) as u8);
        buf.push((length_field % 256) as u8);
        assert(buf@ =~= old(buf)@ + be_bytes(length_field));
        let mut i: usize = 0;
        while i < len
            invariant
                i <= len,
                len == payload@.len(),
                buf@ == old(buf)@ + be_bytes(length_field) + payload@.subrange(0, i as int),
            decreases len - i,
        {
            buf.push(payload[i]);
            assert(buf@ =~= old(buf)@ + be_bytes(length_field) + payload@.subrange(0, i + 1));
            i += 1;
        }
        assert(buf@ =~= old(buf)@ + frame(payload@)) by {
            assert(payload@.subrange(0, len as int) =~= payload@);
        }
        Ok(())
    }
}

/// A frame reads back as the payload it was made of, whatever follows it on
/// the wire.
pub proof fn lemma_frame_round_trip(payload: Seq<u8>, rest: Seq<u8>)
    requires
        payload.len() <= u32::MAX,
    ensures
        (frame(payload) + rest).len() >= 4 + payload.len(),
        be_u32(frame(payload) + rest) == payload.len(),
        (frame(payload) + rest).subrange(4, 4 + payload.len() as int) == payload,
{
    let wire = frame(payload) + rest;
    let head = be_bytes(payload.len() as u32);
    assert(wire[0] == head[0] && wire[1] == head[1] && wire[2] == head[2] && wire[3] == head[3]);
    assert(wire.subrange(4, 4 + payload.len() as int) =~= payload);
}

} // verus!
