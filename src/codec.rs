//! Encoding and decoding of the fixed-size PDU bodies: address ranges,
//! single writes, masked writes and device identification requests.
//!
//! Each body has a spec encoder and a spec decoder; `serialize` writes the
//! encoding at a write cursor and `parse` returns the decoding of what a read
//! cursor has left.
use vstd::prelude::*;

use scursor::{ReadCursor, WriteCursor};
use vstd::string::StringSliceAdditionalSpecFns;

use crate::cursor::{
    be16, dest_of, has_room, lemma_wrote_trans, pos_of, position, read_u16_be, read_u8, seek_to,
    u16_of, unread, write_remaining, write_u16_be, write_u8, wrote,
};
use crate::error::{
    exception_byte, AduParseError, ExceptionCode, InternalError, InvalidRange, RequestError,
};
use crate::types::{
    coil_from_u16, coil_of, coil_to_u16, coil_word, device_code_byte, mei_byte, mei_code_from_u8,
    read_device_id_from_u8, valid_range, AddressRange, Indexed, MaskWriteRegister, MeiCode,
    ReadDeviceIdCode, ReadDeviceRequest,
};

verus! {

/// The 16-bit value of the two big-endian bytes at `i`.
pub open spec fn u16_at(s: Seq<u8>, i: int) -> u16 {
    u16_of(s[i], s[i + 1])
}

/// Reading back the two bytes of a value gives the value.
pub proof fn lemma_be16(v: u16)
    ensures
        u16_of(be16(v)[0], be16(v)[1]) == v,
        forall|rest: Seq<u8>| #[trigger] u16_at(be16(v) + rest, 0) == v,
{
    assert(v == (v / 256) * 256 + v % 256);
    assert forall|rest: Seq<u8>| #[trigger] u16_at(be16(v) + rest, 0) == v by {
        assert((be16(v) + rest)[0] == be16(v)[0]);
        assert((be16(v) + rest)[1] == be16(v)[1]);
    }
}

/// The bytes of an address range: start, then count.
pub open spec fn encode_range(r: AddressRange) -> Seq<u8> {
    be16(r.start) + be16(r.count)
}

/// The address range at the front of `s`.
pub open spec fn decode_range(s: Seq<u8>) -> Result<AddressRange, RequestError> {
    if s.len() < 4 {
        Err(RequestError::insufficient())
    } else {
        let start = u16_at(s, 0);
        let count = u16_at(s, 2);
        if count == 0 {
            Err(RequestError::BadRequest(InvalidRange::CountOfZero))
        } else if !valid_range(start, count) {
            Err(RequestError::BadRequest(InvalidRange::AddressOverflow(start, count)))
        } else {
            Ok(AddressRange { start, count })
        }
    }
}

/// The bytes of a single coil write: address, then 0xFF00 or 0x0000.
pub open spec fn encode_coil(v: Indexed<bool>) -> Seq<u8> {
    be16(v.index) + be16(coil_word(v.value))
}

/// The single coil write at the front of `s`.
pub open spec fn decode_coil(s: Seq<u8>) -> Result<Indexed<bool>, RequestError> {
    if s.len() < 4 {
        Err(RequestError::insufficient())
    } else {
        match coil_of(u16_at(s, 2)) {
            Some(b) => Ok(Indexed { index: u16_at(s, 0), value: b }),
            None => Err(RequestError::BadResponse(AduParseError::UnknownCoilState(u16_at(s, 2)))),
        }
    }
}

/// The bytes of a single register write: address, then value.
pub open spec fn encode_register(v: Indexed<u16>) -> Seq<u8> {
    be16(v.index) + be16(v.value)
}

/// The single register write at the front of `s`.
pub open spec fn decode_register(s: Seq<u8>) -> Result<Indexed<u16>, RequestError> {
    if s.len() < 4 {
        Err(RequestError::insufficient())
    } else {
        Ok(Indexed { index: u16_at(s, 0), value: u16_at(s, 2) })
    }
}

/// The bytes of a masked write: address, AND mask, OR mask.
pub open spec fn encode_mask(v: Indexed<MaskWriteRegister>) -> Seq<u8> {
    be16(v.index) + be16(v.value.and_mask) + be16(v.value.or_mask)
}

/// The masked write at the front of `s`.
pub open spec fn decode_mask(s: Seq<u8>) -> Result<Indexed<MaskWriteRegister>, RequestError> {
    if s.len() < 6 {
        Err(RequestError::insufficient())
    } else {
        Ok(
            Indexed {
                index: u16_at(s, 0),
                value: MaskWriteRegister { and_mask: u16_at(s, 2), or_mask: u16_at(s, 4) },
            },
        )
    }
}

/// The bytes of a device identification request; no object id is sent as 0.
pub open spec fn encode_device_request(r: ReadDeviceRequest) -> Seq<u8> {
    seq![
        mei_byte(r.mei_code),
        device_code_byte(r.dev_id),
        match r.obj_id {
            Some(id) => id,
            None => 0u8,
        },
    ]
}

/// The device code a byte names, if any.
pub open spec fn device_code_of(b: u8) -> ReadDeviceIdCode
    recommends
        1 <= b <= 4,
{
    if b == 1 {
        ReadDeviceIdCode::BasicStreaming
    } else if b == 2 {
        ReadDeviceIdCode::RegularStreaming
    } else if b == 3 {
        ReadDeviceIdCode::ExtendedStreaming
    } else {
        ReadDeviceIdCode::Specific
    }
}

/// The device identification request at the front of `s`. The CANopen
/// interface type is refused with the exception IllegalDataValue.
pub open spec fn decode_device_request(s: Seq<u8>) -> Result<ReadDeviceRequest, RequestError> {
    if s.len() < 1 {
        Err(RequestError::insufficient())
    } else if s[0] != 0x0D && s[0] != 0x0E {
        Err(RequestError::BadResponse(AduParseError::MeiCodeOutOfRange(s[0])))
    } else if s[0] == 0x0D {
        Err(RequestError::Exception(ExceptionCode::IllegalDataValue))
    } else if s.len() < 2 {
        Err(RequestError::insufficient())
    } else if !(1 <= s[1] <= 4) {
        Err(RequestError::BadResponse(AduParseError::DeviceCodeOutOfRange(s[1])))
    } else if s.len() < 3 {
        Err(RequestError::insufficient())
    } else {
        Ok(
            ReadDeviceRequest {
                mei_code: MeiCode::ReadDeviceId,
                dev_id: device_code_of(s[1]),
                obj_id: Some(s[2]),
            },
        )
    }
}

/// The bytes that follow the first `n` of `s`.
pub open spec fn after(s: Seq<u8>, n: int) -> Seq<u8> {
    s.subrange(n, s.len() as int)
}

/// Decoding the encoding of a valid range gives the range back, whatever
/// bytes follow it.
pub proof fn lemma_range_round_trip(r: AddressRange, rest: Seq<u8>)
    requires
        r.wf(),
    ensures
        decode_range(encode_range(r) + rest) == Ok::<AddressRange, RequestError>(r),
{
    lemma_be16(r.start);
    lemma_be16(r.count);
    let s = encode_range(r) + rest;
    assert(s[0] == be16(r.start)[0] && s[1] == be16(r.start)[1]);
    assert(s[2] == be16(r.count)[0] && s[3] == be16(r.count)[1]);
}

/// Decoding the encoding of a single coil write gives it back.
pub proof fn lemma_coil_round_trip(v: Indexed<bool>, rest: Seq<u8>)
    ensures
        decode_coil(encode_coil(v) + rest) == Ok::<Indexed<bool>, RequestError>(v),
{
    lemma_be16(v.index);
    lemma_be16(coil_word(v.value));
    let s = encode_coil(v) + rest;
    assert(s[0] == be16(v.index)[0] && s[1] == be16(v.index)[1]);
    assert(s[2] == be16(coil_word(v.value))[0] && s[3] == be16(coil_word(v.value))[1]);
}

/// Decoding the encoding of a single register write gives it back.
pub proof fn lemma_register_round_trip(v: Indexed<u16>, rest: Seq<u8>)
    ensures
        decode_register(encode_register(v) + rest) == Ok::<Indexed<u16>, RequestError>(v),
{
    lemma_be16(v.index);
    lemma_be16(v.value);
    let s = encode_register(v) + rest;
    assert(s[0] == be16(v.index)[0] && s[1] == be16(v.index)[1]);
    assert(s[2] == be16(v.value)[0] && s[3] == be16(v.value)[1]);
}

/// Decoding the encoding of a masked write gives it back.
pub proof fn lemma_mask_round_trip(v: Indexed<MaskWriteRegister>, rest: Seq<u8>)
    ensures
        decode_mask(encode_mask(v) + rest) == Ok::<Indexed<MaskWriteRegister>, RequestError>(v),
{
    lemma_be16(v.index);
    lemma_be16(v.value.and_mask);
    lemma_be16(v.value.or_mask);
    let s = encode_mask(v) + rest;
    assert(s[0] == be16(v.index)[0] && s[1] == be16(v.index)[1]);
    assert(s[2] == be16(v.value.and_mask)[0] && s[3] == be16(v.value.and_mask)[1]);
    assert(s[4] == be16(v.value.or_mask)[0] && s[5] == be16(v.value.or_mask)[1]);
}

/// Decoding the encoding of a Read Device Identification request gives it
/// back, with an absent object id read as object 0.
pub proof fn lemma_device_request_round_trip(r: ReadDeviceRequest, rest: Seq<u8>)
    requires
        r.mei_code == MeiCode::ReadDeviceId,
    ensures
        decode_device_request(encode_device_request(r) + rest) == Ok::<
            ReadDeviceRequest,
            RequestError,
        >(
            ReadDeviceRequest {
                obj_id: Some(
                    match r.obj_id {
                        Some(id) => id,
                        None => 0u8,
                    },
                ),
                ..r
            },
        ),
{
    let s = encode_device_request(r) + rest;
    assert(s[0] == 0x0E && s[1] == device_code_byte(r.dev_id));
    assert(s[2] == encode_device_request(r)[2]);
}

/// Maps a failed read to the error a caller sees.
pub(crate) fn too_short<T>() -> (r: Result<T, RequestError>)
    ensures
        r == Err::<T, RequestError>(RequestError::insufficient()),
{
    Err(RequestError::BadResponse(AduParseError::InsufficientBytes))
}

/// Maps a failed write to the error a caller sees.
pub(crate) fn no_room() -> (r: Result<(), RequestError>)
    ensures
        r == Err::<(), RequestError>(RequestError::no_room()),
{
    Err(RequestError::Internal(InternalError::InsufficientWriteSpace))
}

/// Writes a 16-bit value, high byte first.
pub(crate) fn put_u16(cursor: &mut WriteCursor, value: u16) -> (r: Result<(), RequestError>)
    ensures
        r is Ok <==> has_room(*old(cursor), 2),
        r is Ok ==> wrote(*old(cursor), *final(cursor), be16(value)),
        r is Err ==> r == Err::<(), RequestError>(RequestError::no_room()),
{
    match write_u16_be(cursor, value) {
        Ok(()) => Ok(()),
        Err(_) => no_room(),
    }
}

/// Writes one byte.
pub(crate) fn put_u8(cursor: &mut WriteCursor, value: u8) -> (r: Result<(), RequestError>)
    ensures
        r is Ok <==> has_room(*old(cursor), 1),
        r is Ok ==> wrote(*old(cursor), *final(cursor), seq![value]),
        r is Err ==> r == Err::<(), RequestError>(RequestError::no_room()),
{
    match write_u8(cursor, value) {
        Ok(()) => Ok(()),
        Err(_) => no_room(),
    }
}

/// Writes two 16-bit values, each high byte first.
pub(crate) fn put_two_u16(cursor: &mut WriteCursor, a: u16, b: u16) -> (r: Result<(), RequestError>)
    ensures
        r is Ok <==> has_room(*old(cursor), 4),
        r is Ok ==> wrote(*old(cursor), *final(cursor), be16(a) + be16(b)),
        r is Err ==> r == Err::<(), RequestError>(RequestError::no_room()),
{
    let ghost c0 = *cursor;
    put_u16(cursor, a)?;
    let ghost c1 = *cursor;
    put_u16(cursor, b)?;
    proof {
        lemma_wrote_trans(c0, c1, *cursor, be16(a), be16(b));
    }
    Ok(())
}

/// Reads two 16-bit values, each high byte first.
pub(crate) fn take_two_u16(cursor: &mut ReadCursor) -> (r: Result<(u16, u16), RequestError>)
    ensures
        r is Ok <==> unread(*old(cursor)).len() >= 4,
        r is Ok ==> r->Ok_0 == (u16_at(unread(*old(cursor)), 0), u16_at(unread(*old(cursor)), 2))
            && unread(*final(cursor)) == after(unread(*old(cursor)), 4),
        r is Err ==> r == Err::<(u16, u16), RequestError>(RequestError::insufficient()),
{
    let ghost s = unread(*cursor);
    let a = match read_u16_be(cursor) {
        Ok(v) => v,
        Err(_) => return too_short(),
    };
    let b = match read_u16_be(cursor) {
        Ok(v) => v,
        Err(_) => return too_short(),
    };
    proof {
        assert(unread(*cursor) =~= after(s, 4));
    }
    Ok((a, b))
}

impl AddressRange {
    /// Reads a range: start and count, each high byte first.
    pub fn parse(cursor: &mut ReadCursor) -> (r: Result<AddressRange, RequestError>)
        ensures
            r == decode_range(unread(*old(cursor))),
            r is Ok ==> unread(*final(cursor)) == after(unread(*old(cursor)), 4),
    {
        let (start, count) = take_two_u16(cursor)?;
        match AddressRange::try_from(start, count) {
            Ok(range) => Ok(range),
            Err(e) => Err(RequestError::BadRequest(e)),
        }
    }

    /// Writes the range: start and count, each high byte first.
    pub fn serialize(&self, cursor: &mut WriteCursor) -> (r: Result<(), RequestError>)
        ensures
            r is Ok <==> has_room(*old(cursor), 4),
            r is Ok ==> wrote(*old(cursor), *final(cursor), encode_range(*self)),
            r is Err ==> r == Err::<(), RequestError>(RequestError::no_room()),
    {
        put_two_u16(cursor, self.start, self.count)
    }
}

impl Indexed<bool> {
    /// Reads a single coil write: address, then 0xFF00 or 0x0000.
    pub fn parse(cursor: &mut ReadCursor) -> (r: Result<Indexed<bool>, RequestError>)
        ensures
            r == decode_coil(unread(*old(cursor))),
            r is Ok ==> unread(*final(cursor)) == after(unread(*old(cursor)), 4),
    {
        let (index, raw) = take_two_u16(cursor)?;
        match coil_from_u16(raw) {
            Ok(value) => Ok(Indexed::new(index, value)),
            Err(e) => Err(RequestError::BadResponse(e)),
        }
    }

    /// Writes a single coil write: address, then 0xFF00 or 0x0000.
    pub fn serialize(&self, cursor: &mut WriteCursor) -> (r: Result<(), RequestError>)
        ensures
            r is Ok <==> has_room(*old(cursor), 4),
            r is Ok ==> wrote(*old(cursor), *final(cursor), encode_coil(*self)),
            r is Err ==> r == Err::<(), RequestError>(RequestError::no_room()),
    {
        put_two_u16(cursor, self.index, coil_to_u16(self.value))
    }
}

impl Indexed<u16> {
    /// Reads a single register write: address, then value.
    pub fn parse(cursor: &mut ReadCursor) -> (r: Result<Indexed<u16>, RequestError>)
        ensures
            r == decode_register(unread(*old(cursor))),
            r is Ok ==> unread(*final(cursor)) == after(unread(*old(cursor)), 4),
    {
        let (index, value) = take_two_u16(cursor)?;
        Ok(Indexed::new(index, value))
    }

    /// Writes a single register write: address, then value.
    pub fn serialize(&self, cursor: &mut WriteCursor) -> (r: Result<(), RequestError>)
        ensures
            r is Ok <==> has_room(*old(cursor), 4),
            r is Ok ==> wrote(*old(cursor), *final(cursor), encode_register(*self)),
            r is Err ==> r == Err::<(), RequestError>(RequestError::no_room()),
    {
        put_two_u16(cursor, self.index, self.value)
    }
}

impl Indexed<MaskWriteRegister> {
    /// Reads a masked write: address, AND mask, OR mask.
    pub fn parse(cursor: &mut ReadCursor) -> (r: Result<Indexed<MaskWriteRegister>, RequestError>)
        ensures
            r == decode_mask(unread(*old(cursor))),
            r is Ok ==> unread(*final(cursor)) == after(unread(*old(cursor)), 6),
    {
        let ghost s = unread(*cursor);
        let index = match read_u16_be(cursor) {
            Ok(v) => v,
            Err(_) => return too_short(),
        };
        let (and_mask, or_mask) = take_two_u16(cursor)?;
        proof {
            assert(unread(*cursor) =~= after(s, 6));
            assert(u16_at(after(s, 2), 0) == u16_at(s, 2));
            assert(u16_at(after(s, 2), 2) == u16_at(s, 4));
        }
        Ok(Indexed::new(index, MaskWriteRegister::new(and_mask, or_mask)))
    }

    /// Writes a masked write: address, AND mask, OR mask.
    pub fn serialize(&self, cursor: &mut WriteCursor) -> (r: Result<(), RequestError>)
        ensures
            r is Ok <==> has_room(*old(cursor), 6),
            r is Ok ==> wrote(*old(cursor), *final(cursor), encode_mask(*self)),
            r is Err ==> r == Err::<(), RequestError>(RequestError::no_room()),
    {
        let ghost c0 = *cursor;
        put_u16(cursor, self.index)?;
        let ghost c1 = *cursor;
        put_two_u16(cursor, self.value.and_mask, self.value.or_mask)?;
        proof {
            lemma_wrote_trans(c0, c1, *cursor, be16(self.index), be16(self.value.and_mask) + be16(self.value.or_mask));
            assert(be16(self.index) + (be16(self.value.and_mask) + be16(self.value.or_mask)) =~= encode_mask(*self));
        }
        Ok(())
    }
}

impl ReadDeviceRequest {
    /// Reads a device identification request: interface type, device code,
    /// object id.
    pub fn parse(cursor: &mut ReadCursor) -> (r: Result<ReadDeviceRequest, RequestError>)
        ensures
            r == decode_device_request(unread(*old(cursor))),
            r is Ok ==> unread(*final(cursor)) == after(unread(*old(cursor)), 3),
    {
        let ghost s = unread(*cursor);
        let mei = match read_u8(cursor) {
            Ok(v) => v,
            Err(_) => return too_short(),
        };
        let mei_code = match mei_code_from_u8(mei) {
            Ok(m) => m,
            Err(e) => return Err(RequestError::BadResponse(e)),
        };
        if mei == 0x0D {
            return Err(RequestError::Exception(ExceptionCode::IllegalDataValue));
        }
        let code = match read_u8(cursor) {
            Ok(v) => v,
            Err(_) => return too_short(),
        };
        let dev_id = match read_device_id_from_u8(code) {
            Ok(d) => d,
            Err(e) => return Err(RequestError::BadResponse(e)),
        };
        let obj_id = match read_u8(cursor) {
            Ok(v) => v,
            Err(_) => return too_short(),
        };
        proof {
            assert(unread(*cursor) =~= after(s, 3));
        }
        Ok(Self { mei_code, dev_id, obj_id: Some(obj_id) })
    }

    /// Writes a device identification request; no object id is sent as 0.
    pub fn serialize(&self, cursor: &mut WriteCursor) -> (r: Result<(), RequestError>)
        ensures
            r is Ok <==> has_room(*old(cursor), 3),
            r is Ok ==> wrote(*old(cursor), *final(cursor), encode_device_request(*self)),
            r is Err ==> r == Err::<(), RequestError>(RequestError::no_room()),
    {
        let ghost c0 = *cursor;
        put_u8(cursor, self.mei_code.to_u8())?;
        let ghost c1 = *cursor;
        put_u8(cursor, self.dev_id.to_u8())?;
        let ghost c2 = *cursor;
        let obj = match self.obj_id {
            Some(value) => value,
            None => 0x00,
        };
        put_u8(cursor, obj)?;
        proof {
            lemma_wrote_trans(c0, c1, c2, seq![mei_byte(self.mei_code)], seq![device_code_byte(self.dev_id)]);
            assert(seq![mei_byte(self.mei_code)] + seq![device_code_byte(self.dev_id)] =~= seq![mei_byte(self.mei_code), device_code_byte(self.dev_id)]);
            lemma_wrote_trans(c0, c2, *cursor, seq![mei_byte(self.mei_code), device_code_byte(self.dev_id)], seq![obj]);
            assert(seq![mei_byte(self.mei_code), device_code_byte(self.dev_id)] + seq![obj] =~= encode_device_request(*self));
        }
        Ok(())
    }
}

impl ExceptionCode {
    /// Writes the byte of the exception code.
    pub fn serialize(&self, cursor: &mut WriteCursor) -> (r: Result<(), RequestError>)
        ensures
            r is Ok <==> has_room(*old(cursor), 1),
            r is Ok ==> wrote(*old(cursor), *final(cursor), seq![exception_byte(*self)]),
            r is Err ==> r == Err::<(), RequestError>(RequestError::no_room()),
    {
        put_u8(cursor, self.to_u8())
    }
}

} // verus!

verus! {

/// A reserved byte of the output, to be filled once its value is known.
#[derive(Clone, Copy, Debug, PartialEq, Eq, Structural)]
pub struct Slot {
    /// Position of the byte in the buffer.
    pub pos: usize,
}

/// Reserves one byte at the position, written as zero until patched.
pub fn reserve(cursor: &mut WriteCursor) -> (r: Result<Slot, RequestError>)
    ensures
        r is Ok <==> has_room(*old(cursor), 1),
        r is Ok ==> r->Ok_0.pos == pos_of(*old(cursor)) && wrote(*old(cursor), *final(cursor), seq![0u8]),
        r is Err ==> r == Err::<Slot, RequestError>(RequestError::no_room()),
{
    let pos = position(cursor);
    put_u8(cursor, 0)?;
    Ok(Slot { pos })
}

/// Fills a reserved byte, leaving the position where it is.
pub fn patch(cursor: &mut WriteCursor, slot: Slot, value: u8)
    requires
        slot.pos < pos_of(*old(cursor)),
    ensures
        dest_of(*final(cursor)) == dest_of(*old(cursor)).update(slot.pos as int, value),
        pos_of(*final(cursor)) == pos_of(*old(cursor)),
{
    let _ = write_remaining(cursor);
    let saved = position(cursor);
    let ghost c0 = *cursor;
    let _ = seek_to(cursor, slot.pos);
    let _ = write_u8(cursor, value);
    proof {
        assert(crate::cursor::spliced(dest_of(c0), slot.pos as int, seq![value]) =~= dest_of(c0).update(slot.pos as int, value));
    }
    let _ = seek_to(cursor, saved);
}

} // verus!

verus! {

/// The two bytes that say whether more follows: 0xFF and the next object
/// id, or two zeros.
pub open spec fn encode_continuation(next: Option<u8>) -> Seq<u8> {
    match next {
        Some(id) => seq![0xFFu8, id],
        None => seq![0x00u8, 0x00u8],
    }
}

/// Writes the more-follows byte and the next object id.
pub fn serialize_continuation(next: Option<u8>, cursor: &mut WriteCursor) -> (r: Result<(), RequestError>)
    ensures
        r is Ok <==> has_room(*old(cursor), 2),
        r is Ok ==> wrote(*old(cursor), *final(cursor), encode_continuation(next)),
        r is Err ==> r == Err::<(), RequestError>(RequestError::no_room()),
{
    let (marker, id) = match next {
        Some(value) => (0xFFu8, value),
        None => (0x00u8, 0x00u8),
    };
    let ghost c0 = *cursor;
    put_u8(cursor, marker)?;
    let ghost c1 = *cursor;
    put_u8(cursor, id)?;
    proof {
        lemma_wrote_trans(c0, c1, *cursor, seq![marker], seq![id]);
        assert(seq![marker] + seq![id] =~= encode_continuation(next));
    }
    Ok(())
}

/// Writes a string as its length in one byte and its bytes; a string of
/// more than 255 bytes has no such length.
pub fn serialize_str(s: &str, cursor: &mut WriteCursor) -> (r: Result<(), RequestError>)
    ensures
        s.spec_bytes().len() > 255 ==> r == Err::<(), RequestError>(
            RequestError::Internal(InternalError::BadByteCount(s.spec_bytes().len() as usize)),
        ),
        s.spec_bytes().len() <= 255 ==> (r is Ok <==> has_room(*old(cursor), 1 + s.spec_bytes().len() as int)),
        r is Ok ==> wrote(*old(cursor), *final(cursor), seq![s.spec_bytes().len() as u8] + s.spec_bytes()),
        s.spec_bytes().len() <= 255 && r is Err ==> r == Err::<(), RequestError>(RequestError::no_room()),
{
    let bytes = s.as_bytes();
    if bytes.len() > 255 {
        return Err(RequestError::Internal(InternalError::BadByteCount(bytes.len())));
    }
    let ghost c0 = *cursor;
    put_u8(cursor, bytes.len() as u8)?;
    let ghost c1 = *cursor;
    match crate::cursor::write_bytes(cursor, bytes) {
        Ok(()) => {},
        Err(_) => return no_room(),
    }
    proof {
        lemma_wrote_trans(c0, c1, *cursor, seq![bytes@.len() as u8], bytes@);
    }
    Ok(())
}

} // verus!
