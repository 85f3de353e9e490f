//! Wire format of the TCP packet protocol.
//!
//! A packet travels as `int32 length LE | int32 id LE | int32 type LE | body
//! | 0x00 0x00`, where the length field counts everything after itself, so it
//! always equals `10 + body.len()`.

use vstd::prelude::*;
use vstd::bytes::{lemma_auto_spec_u32_to_from_le_bytes, spec_u32_from_le_bytes,
    spec_u32_to_le_bytes, u32_from_le_bytes, u32_to_le_bytes};
use vstd::slice::{slice_subrange, slice_to_vec};
use crate::RconError;

verus! {

/// One packet of the TCP protocol: an id chosen by the sender, a type code,
/// and an uninterpreted body.
pub struct Packet {
    pub id: i32,
    pub ty: i32,
    pub body: Vec<u8>,
}

/// The unsigned 32-bit value with the same bit pattern as `x`.
pub open spec fn u32_of_i32(x: i32) -> u32 {
    if x >= 0 {
        x as u32
    } else {
        (x + 0x1_0000_0000) as u32
    }
}

/// The signed 32-bit value with the same bit pattern as `x`.
pub open spec fn i32_of_u32(x: u32) -> i32 {
    if x < 0x8000_0000 {
        x as i32
    } else {
        (x - 0x1_0000_0000) as i32
    }
}

/// Reading the bit pattern of an `i32` back as signed recovers it.
pub proof fn lemma_i32_bits_round_trip(x: i32)
    ensures
        i32_of_u32(u32_of_i32(x)) == x,
{
}

/// Exec mirror of [`u32_of_i32`].
pub fn i32_bits(x: i32) -> (r: u32)
    ensures
        r == u32_of_i32(x),
{
    if x >= 0 {
        x as u32
    } else {
        ((x as i64) + 0x1_0000_0000i64) as u32
    }
}

/// Exec mirror of [`i32_of_u32`].
pub fn u32_bits(x: u32) -> (r: i32)
    ensures
        r == i32_of_u32(x),
{
    if x < 0x8000_0000 {
        x as i32
    } else {
        ((x as i64) - 0x1_0000_0000i64) as i32
    }
}

/// The wire bytes of a packet `(id, ty, body)`: length field, id, type, body,
/// and the mandatory empty-string terminator pair.
pub open spec fn spec_encode_packet(id: i32, ty: i32, body: Seq<u8>) -> Seq<u8> {
    spec_u32_to_le_bytes((body.len() + 10) as u32) + spec_u32_to_le_bytes(u32_of_i32(id))
        + spec_u32_to_le_bytes(u32_of_i32(ty)) + body + seq![0u8, 0u8]
}

/// What parsing a complete frame yields: the `(id, type, body)` triple when
/// the frame is well formed, a protocol violation otherwise.  A frame is well
/// formed when its length field is between 10 and `i32::MAX` and counts
/// exactly the bytes that follow it.  The values of the two trailing bytes
/// are not inspected.
pub open spec fn spec_decode_frame(f: Seq<u8>) -> Result<(i32, i32, Seq<u8>), RconError> {
    if f.len() < 4 {
        Err(RconError::ProtocolViolation)
    } else {
        let len_field = spec_u32_from_le_bytes(f.subrange(0, 4));
        if len_field < 10 || len_field > i32::MAX as u32 || f.len() != len_field + 4 {
            Err(RconError::ProtocolViolation)
        } else {
            Ok(
                (
                    i32_of_u32(spec_u32_from_le_bytes(f.subrange(4, 8))),
                    i32_of_u32(spec_u32_from_le_bytes(f.subrange(8, 12))),
                    f.subrange(12, f.len() - 2),
                ),
            )
        }
    }
}

/// Encodes a packet for the wire.
pub fn encode_packet(p: &Packet) -> (r: Vec<u8>)
    requires
        p.body@.len() + 10 <= i32::MAX,
    ensures
        r@ == spec_encode_packet(p.id, p.ty, p.body@),
{
    let len_field: u32 = (p.body.len() + 10) as u32;
    let mut r = u32_to_le_bytes(len_field);
    let mut id_bytes = u32_to_le_bytes(i32_bits(p.id));
    r.append(&mut id_bytes);
    let mut ty_bytes = u32_to_le_bytes(i32_bits(p.ty));
    r.append(&mut ty_bytes);
    let mut body = slice_to_vec(p.body.as_slice());
    r.append(&mut body);
    r.push(0);
    r.push(0);
    proof {
        assert(r@ =~= spec_encode_packet(p.id, p.ty, p.body@));
    }
    r
}

/// Parses one complete frame, exactly as [`spec_decode_frame`] says.
pub fn decode_frame(f: &[u8]) -> (r: Result<Packet, RconError>)
    ensures
        match r {
            Ok(p) => spec_decode_frame(f@) == Ok::<(i32, i32, Seq<u8>), RconError>(
                (p.id, p.ty, p.body@),
            ),
            Err(e) => spec_decode_frame(f@) == Err::<(i32, i32, Seq<u8>), RconError>(e),
        },
{
    if f.len() < 4 {
        return Err(RconError::ProtocolViolation);
    }
    let len_field = u32_from_le_bytes(slice_subrange(f, 0, 4));
    if len_field < 10 || len_field > 0x7fff_ffff {
        return Err(RconError::ProtocolViolation);
    }
    let expected: usize = (len_field as usize) + 4;
    if f.len() != expected {
        return Err(RconError::ProtocolViolation);
    }
    let id = u32_bits(u32_from_le_bytes(slice_subrange(f, 4, 8)));
    let ty = u32_bits(u32_from_le_bytes(slice_subrange(f, 8, 12)));
    let body = slice_to_vec(slice_subrange(f, 12, f.len() - 2));
    Ok(Packet { id, ty, body })
}

/// Encoding a packet and parsing the frame back yields the original triple,
/// and the encoded length field equals `10 + body.len()`.
pub proof fn lemma_packet_round_trip(id: i32, ty: i32, body: Seq<u8>)
    requires
        body.len() + 10 <= i32::MAX,
    ensures
        spec_decode_frame(spec_encode_packet(id, ty, body)) == Ok::<
            (i32, i32, Seq<u8>),
            RconError,
        >((id, ty, body)),
        spec_u32_from_le_bytes(spec_encode_packet(id, ty, body).subrange(0, 4)) == body.len() + 10,
{
    lemma_auto_spec_u32_to_from_le_bytes();
    let f = spec_encode_packet(id, ty, body);
    let len_field = (body.len() + 10) as u32;
    assert(f.subrange(0, 4) =~= spec_u32_to_le_bytes(len_field));
    assert(f.subrange(4, 8) =~= spec_u32_to_le_bytes(u32_of_i32(id)));
    assert(f.subrange(8, 12) =~= spec_u32_to_le_bytes(u32_of_i32(ty)));
    assert(f.subrange(12, f.len() - 2) =~= body);
    lemma_i32_bits_round_trip(id);
    lemma_i32_bits_round_trip(ty);
}

} // verus!
