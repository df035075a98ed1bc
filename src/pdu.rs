//! Function codes, the bodies that carry many values, and the check of the
//! function byte that starts every response.
use vstd::prelude::*;

use scursor::{ReadCursor, WriteCursor};

use crate::bits::{
    bytes_for_bits, calc_bytes_for_bits, calc_bytes_for_registers, register_byte_count, decode_bit_block, decode_register_block, encode_registers,
    lemma_bit_block_round_trip, lemma_register_block_round_trip, pack_bits, parse_bit_block,
    parse_register_block, serialize_bits, serialize_registers, unpack_bits, decode_registers,
};
use crate::codec::{after, decode_range, encode_range, lemma_range_round_trip, too_short};
use crate::cursor::{has_room, lemma_wrote_trans, read_u8, read_remaining, unread, wrote};
use crate::error::{exception_of_byte, AduParseError, ExceptionCode, InternalError, RequestError};
use crate::types::{valid_range, AddressRange, Indexed};

verus! {

/// The function codes this library speaks.
#[derive(Clone, Copy, Debug, PartialEq, Eq, Structural)]
pub enum FunctionCode {
    ReadCoils,
    ReadDiscreteInputs,
    ReadHoldingRegisters,
    ReadInputRegisters,
    WriteSingleCoil,
    WriteSingleRegister,
    WriteMultipleCoils,
    WriteMultipleRegisters,
    MaskWriteRegister,
    ReadDeviceIdentification,
}

/// The byte of a function code.
pub open spec fn function_byte(f: FunctionCode) -> u8 {
    match f {
        FunctionCode::ReadCoils => 0x01,
        FunctionCode::ReadDiscreteInputs => 0x02,
        FunctionCode::ReadHoldingRegisters => 0x03,
        FunctionCode::ReadInputRegisters => 0x04,
        FunctionCode::WriteSingleCoil => 0x05,
        FunctionCode::WriteSingleRegister => 0x06,
        FunctionCode::WriteMultipleCoils => 0x0F,
        FunctionCode::WriteMultipleRegisters => 0x10,
        FunctionCode::MaskWriteRegister => 0x16,
        FunctionCode::ReadDeviceIdentification => 0x2B,
    }
}

/// The function code of a byte, if it names one.
pub open spec fn function_of_byte(b: u8) -> Option<FunctionCode> {
    if b == 0x01 {
        Some(FunctionCode::ReadCoils)
    } else if b == 0x02 {
        Some(FunctionCode::ReadDiscreteInputs)
    } else if b == 0x03 {
        Some(FunctionCode::ReadHoldingRegisters)
    } else if b == 0x04 {
        Some(FunctionCode::ReadInputRegisters)
    } else if b == 0x05 {
        Some(FunctionCode::WriteSingleCoil)
    } else if b == 0x06 {
        Some(FunctionCode::WriteSingleRegister)
    } else if b == 0x0F {
        Some(FunctionCode::WriteMultipleCoils)
    } else if b == 0x10 {
        Some(FunctionCode::WriteMultipleRegisters)
    } else if b == 0x16 {
        Some(FunctionCode::MaskWriteRegister)
    } else if b == 0x2B {
        Some(FunctionCode::ReadDeviceIdentification)
    } else {
        None
    }
}

impl FunctionCode {
    /// The byte of this function code.
    pub fn get_value(self) -> (r: u8)
        ensures
            r == function_byte(self),
    {
        match self {
            FunctionCode::ReadCoils => 0x01,
            FunctionCode::ReadDiscreteInputs => 0x02,
            FunctionCode::ReadHoldingRegisters => 0x03,
            FunctionCode::ReadInputRegisters => 0x04,
            FunctionCode::WriteSingleCoil => 0x05,
            FunctionCode::WriteSingleRegister => 0x06,
            FunctionCode::WriteMultipleCoils => 0x0F,
            FunctionCode::WriteMultipleRegisters => 0x10,
            FunctionCode::MaskWriteRegister => 0x16,
            FunctionCode::ReadDeviceIdentification => 0x2B,
        }
    }

    /// The byte of this function code in an exception response: high bit set.
    pub fn as_error(self) -> (r: u8)
        ensures
            r == function_byte(self) + 0x80,
    {
        self.get_value() + 0x80
    }

    /// The function code of a byte; `UnknownFunction` for any other byte.
    pub fn get(value: u8) -> (r: Result<FunctionCode, AduParseError>)
        ensures
            match function_of_byte(value) {
                Some(f) => r == Ok::<FunctionCode, AduParseError>(f),
                None => r == Err::<FunctionCode, AduParseError>(AduParseError::UnknownFunction(value)),
            },
    {
        match value {
            0x01 => Ok(FunctionCode::ReadCoils),
            0x02 => Ok(FunctionCode::ReadDiscreteInputs),
            0x03 => Ok(FunctionCode::ReadHoldingRegisters),
            0x04 => Ok(FunctionCode::ReadInputRegisters),
            0x05 => Ok(FunctionCode::WriteSingleCoil),
            0x06 => Ok(FunctionCode::WriteSingleRegister),
            0x0F => Ok(FunctionCode::WriteMultipleCoils),
            0x10 => Ok(FunctionCode::WriteMultipleRegisters),
            0x16 => Ok(FunctionCode::MaskWriteRegister),
            0x2B => Ok(FunctionCode::ReadDeviceIdentification),
            _ => Err(AduParseError::UnknownFunction(value)),
        }
    }
}

/// Each value of `values` with its address, counting up from `start`.
pub open spec fn indexed_from<T>(start: u16, values: Seq<T>) -> Seq<Indexed<T>> {
    Seq::new(values.len(), |k: int| Indexed { index: (start + k) as u16, value: values[k] })
}

/// Pairs each value with its address, counting up from `start`.
fn with_addresses<T: Copy>(start: u16, values: Vec<T>) -> (r: Vec<Indexed<T>>)
    requires
        values@.len() == 0 || start + values@.len() - 1 <= 0xFFFF,
    ensures
        r@ == indexed_from(start, values@),
{
    let mut out: Vec<Indexed<T>> = Vec::new();
    let mut k: usize = 0;
    while k < values.len()
        invariant
            k <= values@.len(),
            values@.len() == 0 || start + values@.len() - 1 <= 0xFFFF,
            out@ == indexed_from(start, values@.subrange(0, k as int)),
        decreases values@.len() - k,
    {
        let item = Indexed::new(start + k as u16, values[k]);
        out.push(item);
        proof {
            assert(out@ =~= indexed_from(start, values@.subrange(0, k + 1)));
        }
        k = k + 1;
    }
    proof {
        assert(values@.subrange(0, values@.len() as int) =~= values@);
    }
    out
}

/// The body of a Read Coils or Read Discrete Inputs response to a read of
/// `range`: the coil states with their addresses.
pub open spec fn decode_bits_response(range: AddressRange, s: Seq<u8>) -> Result<
    Seq<Indexed<bool>>,
    RequestError,
> {
    match decode_bit_block(range.count as int, s) {
        Ok(bits) => Ok(indexed_from(range.start, bits)),
        Err(e) => Err(e),
    }
}

/// The body of a Read Holding Registers or Read Input Registers response to
/// a read of `range`: the registers with their addresses.
pub open spec fn decode_registers_response(range: AddressRange, s: Seq<u8>) -> Result<
    Seq<Indexed<u16>>,
    RequestError,
> {
    match decode_register_block(range.count as int, s) {
        Ok(values) => Ok(indexed_from(range.start, values)),
        Err(e) => Err(e),
    }
}

/// Reads the body of a response to a read of coils or discrete inputs.
pub fn parse_bits_response(range: AddressRange, cursor: &mut ReadCursor) -> (r: Result<
    Vec<Indexed<bool>>,
    RequestError,
>)
    requires
        range.wf(),
    ensures
        match decode_bits_response(range, unread(*old(cursor))) {
            Ok(items) => r is Ok && r->Ok_0@ == items,
            Err(e) => r == Err::<Vec<Indexed<bool>>, RequestError>(e),
        },
{
    let bits = parse_bit_block(range.count, cursor)?;
    Ok(with_addresses(range.start, bits))
}

/// Reads the body of a response to a read of registers.
pub fn parse_registers_response(range: AddressRange, cursor: &mut ReadCursor) -> (r: Result<
    Vec<Indexed<u16>>,
    RequestError,
>)
    requires
        range.wf(),
    ensures
        match decode_registers_response(range, unread(*old(cursor))) {
            Ok(items) => r is Ok && r->Ok_0@ == items,
            Err(e) => r == Err::<Vec<Indexed<u16>>, RequestError>(e),
        },
{
    let values = parse_register_block(range.count, cursor)?;
    Ok(with_addresses(range.start, values))
}

/// A write of consecutive coils or registers: the range and one value per
/// address.
pub struct WriteMultiple<T> {
    pub range: AddressRange,
    pub values: Vec<T>,
}

impl<T> WriteMultiple<T> {
    /// The range is valid and holds one address per value.
    pub open spec fn wf(&self) -> bool {
        self.range.wf() && self.range.count == self.values@.len()
    }

    /// A write of `values` from address `start` on, if they fit below 0xFFFF.
    pub fn from(start: u16, values: Vec<T>) -> (r: Result<Self, InvalidRequest>)
        ensures
            values@.len() > 0xFFFF ==> r == Err::<Self, InvalidRequest>(
                InvalidRequest::CountTooBigForU16(values@.len() as usize),
            ),
            values@.len() <= 0xFFFF ==> (r is Ok <==> valid_range(start, values@.len() as u16)),
            r is Ok ==> r->Ok_0.range == (AddressRange { start, count: values@.len() as u16 })
                && r->Ok_0.values@ == values@ && r->Ok_0.wf(),
            values@.len() == 0 ==> r == Err::<Self, InvalidRequest>(
                InvalidRequest::BadRange(crate::error::InvalidRange::CountOfZero),
            ),
            0 < values@.len() <= 0xFFFF && !valid_range(start, values@.len() as u16) ==> r == Err::<
                Self,
                InvalidRequest,
            >(
                InvalidRequest::BadRange(
                    crate::error::InvalidRange::AddressOverflow(start, values@.len() as u16),
                ),
            ),
    {
        if values.len() > 0xFFFF {
            return Err(InvalidRequest::CountTooBigForU16(values.len()));
        }
        match AddressRange::try_from(start, values.len() as u16) {
            Ok(range) => Ok(Self { range, values }),
            Err(e) => Err(InvalidRequest::BadRange(e)),
        }
    }
}

/// Reasons why a request cannot be made.
#[derive(Clone, Copy, Debug, PartialEq, Eq, Structural)]
pub enum InvalidRequest {
    /// The values do not make a valid range.
    BadRange(crate::error::InvalidRange),
    /// More values than a 16-bit count can hold.
    CountTooBigForU16(usize),
}

/// The bytes of a Write Multiple Coils request body.
pub open spec fn encode_write_coils(range: AddressRange, bits: Seq<bool>) -> Seq<u8> {
    encode_range(range) + (seq![bytes_for_bits(bits.len() as int) as u8] + pack_bits(bits))
}

/// The bytes of a Write Multiple Registers request body.
pub open spec fn encode_write_registers(range: AddressRange, values: Seq<u16>) -> Seq<u8> {
    encode_range(range) + (seq![(2 * values.len()) as u8] + encode_registers(values))
}

/// The Write Multiple Coils request body in `s`, which must be all of it.
pub open spec fn decode_write_coils(s: Seq<u8>) -> Result<(AddressRange, Seq<bool>), RequestError> {
    match decode_range(s) {
        Err(e) => Err(e),
        Ok(range) => match decode_bit_block(range.count as int, after(s, 4)) {
            Ok(bits) => Ok((range, bits)),
            Err(e) => Err(e),
        },
    }
}

/// The Write Multiple Registers request body in `s`, which must be all of it.
pub open spec fn decode_write_registers(s: Seq<u8>) -> Result<(AddressRange, Seq<u16>), RequestError> {
    match decode_range(s) {
        Err(e) => Err(e),
        Ok(range) => match decode_register_block(range.count as int, after(s, 4)) {
            Ok(values) => Ok((range, values)),
            Err(e) => Err(e),
        },
    }
}

impl WriteMultiple<bool> {
    /// Writes the request body: range, byte count, packed coil states.
    pub fn serialize(&self, cursor: &mut WriteCursor) -> (r: Result<(), RequestError>)
        requires
            self.wf(),
        ensures
            bytes_for_bits(self.values@.len() as int) > 255 ==> r == Err::<(), RequestError>(
                RequestError::Internal(
                    InternalError::BadByteCount(bytes_for_bits(self.values@.len() as int) as usize),
                ),
            ),
            bytes_for_bits(self.values@.len() as int) <= 255 ==> (r is Ok <==> has_room(
                *old(cursor),
                5 + bytes_for_bits(self.values@.len() as int),
            )),
            r is Ok ==> wrote(*old(cursor), *final(cursor), encode_write_coils(self.range, self.values@)),
            bytes_for_bits(self.values@.len() as int) <= 255 && r is Err ==> r == Err::<
                (),
                RequestError,
            >(RequestError::no_room()),
    {
        if let Err(e) = calc_bytes_for_bits(self.values.len()) {
            return Err(RequestError::Internal(e));
        }
        let ghost c0 = *cursor;
        self.range.serialize(cursor)?;
        let ghost c1 = *cursor;
        serialize_bits(self.values.as_slice(), cursor)?;
        proof {
            lemma_wrote_trans(
                c0,
                c1,
                *cursor,
                encode_range(self.range),
                seq![bytes_for_bits(self.values@.len() as int) as u8] + pack_bits(self.values@),
            );
        }
        Ok(())
    }

    /// Reads a request body: range, byte count, packed coil states.
    pub fn parse(cursor: &mut ReadCursor) -> (r: Result<WriteMultiple<bool>, RequestError>)
        ensures
            match decode_write_coils(unread(*old(cursor))) {
                Ok((range, bits)) => r is Ok && r->Ok_0.range == range && r->Ok_0.values@ == bits,
                Err(e) => r is Err && r->Err_0 == e,
            },
    {
        let range = AddressRange::parse(cursor)?;
        let values = parse_bit_block(range.count, cursor)?;
        Ok(WriteMultiple { range, values })
    }
}

impl WriteMultiple<u16> {
    /// Writes the request body: range, byte count, registers.
    pub fn serialize(&self, cursor: &mut WriteCursor) -> (r: Result<(), RequestError>)
        requires
            self.wf(),
        ensures
            2 * self.values@.len() > 255 ==> r == Err::<(), RequestError>(
                RequestError::Internal(
                    InternalError::BadByteCount(register_byte_count(self.values@.len() as int)),
                ),
            ),
            2 * self.values@.len() <= 255 ==> (r is Ok <==> has_room(
                *old(cursor),
                5 + 2 * self.values@.len() as int,
            )),
            r is Ok ==> wrote(*old(cursor), *final(cursor), encode_write_registers(self.range, self.values@)),
            2 * self.values@.len() <= 255 && r is Err ==> r == Err::<(), RequestError>(
                RequestError::no_room(),
            ),
    {
        if let Err(e) = calc_bytes_for_registers(self.values.len()) {
            return Err(RequestError::Internal(e));
        }
        let ghost c0 = *cursor;
        self.range.serialize(cursor)?;
        let ghost c1 = *cursor;
        serialize_registers(self.values.as_slice(), cursor)?;
        proof {
            lemma_wrote_trans(
                c0,
                c1,
                *cursor,
                encode_range(self.range),
                seq![(2 * self.values@.len()) as u8] + encode_registers(self.values@),
            );
        }
        Ok(())
    }

    /// Reads a request body: range, byte count, registers.
    pub fn parse(cursor: &mut ReadCursor) -> (r: Result<WriteMultiple<u16>, RequestError>)
        ensures
            match decode_write_registers(unread(*old(cursor))) {
                Ok((range, values)) => r is Ok && r->Ok_0.range == range && r->Ok_0.values@ == values,
                Err(e) => r is Err && r->Err_0 == e,
            },
    {
        let range = AddressRange::parse(cursor)?;
        let values = parse_register_block(range.count, cursor)?;
        Ok(WriteMultiple { range, values })
    }
}

/// Reading back a Write Multiple Coils body gives the range and the states.
pub proof fn lemma_write_coils_round_trip(range: AddressRange, bits: Seq<bool>)
    requires
        range.wf(),
        range.count == bits.len(),
        bytes_for_bits(bits.len() as int) <= 255,
    ensures
        decode_write_coils(encode_write_coils(range, bits)) == Ok::<
            (AddressRange, Seq<bool>),
            RequestError,
        >((range, bits)),
{
    let tail = seq![bytes_for_bits(bits.len() as int) as u8] + pack_bits(bits);
    let s = encode_write_coils(range, bits);
    lemma_range_round_trip(range, tail);
    assert(after(s, 4) =~= tail);
    lemma_bit_block_round_trip(bits);
}

/// Reading back a Write Multiple Registers body gives the range and values.
pub proof fn lemma_write_registers_round_trip(range: AddressRange, values: Seq<u16>)
    requires
        range.wf(),
        range.count == values.len(),
        2 * values.len() <= 255,
    ensures
        decode_write_registers(encode_write_registers(range, values)) == Ok::<
            (AddressRange, Seq<u16>),
            RequestError,
        >((range, values)),
{
    let tail = seq![(2 * values.len()) as u8] + encode_registers(values);
    let s = encode_write_registers(range, values);
    lemma_range_round_trip(range, tail);
    assert(after(s, 4) =~= tail);
    lemma_register_block_round_trip(values);
}

/// Reading back a read-coils response body gives each state with its address.
pub proof fn lemma_bits_response_round_trip(range: AddressRange, bits: Seq<bool>)
    requires
        range.wf(),
        range.count == bits.len(),
        bits.len() <= 0x07D0,
    ensures
        decode_bits_response(range, seq![bytes_for_bits(bits.len() as int) as u8] + pack_bits(bits))
            == Ok::<Seq<Indexed<bool>>, RequestError>(indexed_from(range.start, bits)),
{
    lemma_bit_block_round_trip(bits);
}

/// Reading back a read-registers response body gives each register with its
/// address.
pub proof fn lemma_registers_response_round_trip(range: AddressRange, values: Seq<u16>)
    requires
        range.wf(),
        range.count == values.len(),
        values.len() <= 0x007D,
    ensures
        decode_registers_response(range, seq![(2 * values.len()) as u8] + encode_registers(values))
            == Ok::<Seq<Indexed<u16>>, RequestError>(indexed_from(range.start, values)),
{
    lemma_register_block_round_trip(values);
}

/// What the function byte and, for an exception, the code byte of a
/// response to `request` say: `Ok` to go on with the body.
pub open spec fn decode_response_start(request: FunctionCode, s: Seq<u8>) -> Result<(), RequestError> {
    if s.len() < 1 {
        Err(RequestError::insufficient())
    } else if s[0] == function_byte(request) {
        Ok(())
    } else if s[0] == function_byte(request) + 0x80 {
        if s.len() < 2 {
            Err(RequestError::insufficient())
        } else if s.len() > 2 {
            Err(RequestError::BadResponse(AduParseError::TooManyBytes))
        } else {
            match exception_of_byte(s[1]) {
                Some(e) => Err(RequestError::Exception(e)),
                None => Err(RequestError::BadResponse(AduParseError::UnknownException(s[1]))),
            }
        }
    } else {
        Err(RequestError::BadResponse(AduParseError::UnknownResponseFunction(s[0])))
    }
}

/// Reads the function byte of a response to `request`. The request's own
/// function leaves the cursor at the body; its exception function gives the
/// exception, which must be the last byte.
pub fn parse_response_start(request: FunctionCode, cursor: &mut ReadCursor) -> (r: Result<(), RequestError>)
    ensures
        r == decode_response_start(request, unread(*old(cursor))),
        r is Ok ==> unread(*final(cursor)) == after(unread(*old(cursor)), 1),
{
    let ghost s = unread(*cursor);
    let function = match read_u8(cursor) {
        Ok(v) => v,
        Err(_) => return too_short(),
    };
    if function == request.get_value() {
        proof {
            assert(unread(*cursor) =~= after(s, 1));
        }
        return Ok(());
    }
    if function == request.as_error() {
        let code = match read_u8(cursor) {
            Ok(v) => v,
            Err(_) => return too_short(),
        };
        if read_remaining(cursor) != 0 {
            return Err(RequestError::BadResponse(AduParseError::TooManyBytes));
        }
        return match ExceptionCode::from_u8(code) {
            Ok(e) => Err(RequestError::Exception(e)),
            Err(e) => Err(RequestError::BadResponse(e)),
        };
    }
    Err(RequestError::BadResponse(AduParseError::UnknownResponseFunction(function)))
}

} // verus!

verus! {

/// Walks the coil states of a response in place, with their addresses.
#[derive(Clone, Copy, Debug)]
pub struct BitIterator<'a> {
    pub bytes: &'a [u8],
    pub range: AddressRange,
    pub pos: u16,
}

impl<'a> BitIterator<'a> {
    /// The bytes hold the states of the whole range, and the position is
    /// within it.
    pub open spec fn wf(&self) -> bool {
        &&& self.range.wf()
        &&& self.bytes@.len() == bytes_for_bits(self.range.count as int)
        &&& self.pos <= self.range.count
    }

    /// Every state of the range with its address.
    pub open spec fn items(&self) -> Seq<Indexed<bool>> {
        indexed_from(self.range.start, unpack_bits(self.bytes@, self.range.count as int))
    }

    /// Takes the packed states of `range`, which must be all that is left.
    pub fn parse_all(range: AddressRange, cursor: &mut ReadCursor<'a>) -> (r: Result<Self, RequestError>)
        requires
            range.wf(),
        ensures
            ({
                let s = unread(*old(cursor));
                let n = bytes_for_bits(range.count as int);
                &&& s.len() < n ==> r == Err::<Self, RequestError>(RequestError::insufficient())
                &&& s.len() > n ==> r == Err::<Self, RequestError>(
                    RequestError::BadResponse(AduParseError::TrailingBytes((s.len() - n) as usize)),
                )
                &&& s.len() == n ==> r is Ok && r->Ok_0.wf() && r->Ok_0.range == range && r->Ok_0.pos == 0
                    && r->Ok_0.bytes@ == s && unread(*final(cursor)).len() == 0
            }),
    {
        let n = (if range.count % 8 == 0 {
            range.count / 8
        } else {
            range.count / 8 + 1
        }) as usize;
        let bytes = match crate::cursor::read_bytes(cursor, n) {
            Ok(b) => b,
            Err(_) => return too_short(),
        };
        let left = read_remaining(cursor);
        if left != 0 {
            return Err(RequestError::BadResponse(AduParseError::TrailingBytes(left)));
        }
        Ok(Self { bytes, range, pos: 0 })
    }

    /// The next state with its address, or `None` at the end of the range.
    pub fn next(&mut self) -> (r: Option<Indexed<bool>>)
        requires
            old(self).wf(),
        ensures
            final(self).wf(),
            final(self).bytes == old(self).bytes && final(self).range == old(self).range,
            old(self).pos == old(self).range.count ==> r is None && final(self).pos == old(self).pos,
            old(self).pos < old(self).range.count ==> r == Some(old(self).items()[old(self).pos as int])
                && final(self).pos == old(self).pos + 1,
    {
        if self.pos == self.range.count {
            return None;
        }
        let byte = self.bytes[(self.pos / 8) as usize];
        let bit = (byte >> ((self.pos % 8) as u8)) & 1u8 == 1u8;
        let address = self.range.start + self.pos;
        self.pos = self.pos + 1;
        Some(Indexed::new(address, bit))
    }

    /// The number of states left, as a lower and an upper bound.
    pub fn size_hint(&self) -> (r: (usize, Option<usize>))
        requires
            self.wf(),
        ensures
            r == ((self.range.count - self.pos) as usize, Some((self.range.count - self.pos) as usize)),
    {
        let remaining = (self.range.count - self.pos) as usize;
        (remaining, Some(remaining))
    }

    /// The states left, with their addresses.
    pub fn collect_all(self) -> (r: Vec<Indexed<bool>>)
        requires
            self.wf(),
        ensures
            r@ == self.items().subrange(self.pos as int, self.range.count as int),
    {
        let mut it = self;
        let ghost first = it.pos;
        let ghost all = it.items();
        let mut out: Vec<Indexed<bool>> = Vec::new();
        while it.pos < it.range.count
            invariant
                it.wf(),
                all == it.items(),
                first <= it.pos,
                out@ == all.subrange(first as int, it.pos as int),
            decreases it.range.count - it.pos,
        {
            let ghost p = it.pos;
            match it.next() {
                Some(item) => {
                    out.push(item);
                    proof {
                        assert(out@ =~= all.subrange(first as int, p + 1));
                    }
                },
                None => {},
            }
        }
        out
    }
}

/// Walks the registers of a response in place, with their addresses.
#[derive(Clone, Copy, Debug)]
pub struct RegisterIterator<'a> {
    pub bytes: &'a [u8],
    pub range: AddressRange,
    pub pos: u16,
}

impl<'a> RegisterIterator<'a> {
    /// The bytes hold the registers of the whole range, and the position is
    /// within it.
    pub open spec fn wf(&self) -> bool {
        &&& self.range.wf()
        &&& self.bytes@.len() == 2 * self.range.count
        &&& self.pos <= self.range.count
    }

    /// Every register of the range with its address.
    pub open spec fn items(&self) -> Seq<Indexed<u16>> {
        indexed_from(self.range.start, decode_registers(self.bytes@, self.range.count as int))
    }

    /// Takes the registers of `range`, which must be all that is left.
    pub fn parse_all(range: AddressRange, cursor: &mut ReadCursor<'a>) -> (r: Result<Self, RequestError>)
        requires
            range.wf(),
        ensures
            ({
                let s = unread(*old(cursor));
                let n = 2 * range.count;
                &&& s.len() < n ==> r == Err::<Self, RequestError>(RequestError::insufficient())
                &&& s.len() > n ==> r == Err::<Self, RequestError>(
                    RequestError::BadResponse(AduParseError::TrailingBytes((s.len() - n) as usize)),
                )
                &&& s.len() == n ==> r is Ok && r->Ok_0.wf() && r->Ok_0.range == range && r->Ok_0.pos == 0
                    && r->Ok_0.bytes@ == s && unread(*final(cursor)).len() == 0
            }),
    {
        let bytes = match crate::cursor::read_bytes(cursor, 2 * (range.count as usize)) {
            Ok(b) => b,
            Err(_) => return too_short(),
        };
        let left = read_remaining(cursor);
        if left != 0 {
            return Err(RequestError::BadResponse(AduParseError::TrailingBytes(left)));
        }
        Ok(Self { bytes, range, pos: 0 })
    }

    /// The next register with its address, or `None` at the end of the range.
    pub fn next(&mut self) -> (r: Option<Indexed<u16>>)
        requires
            old(self).wf(),
        ensures
            final(self).wf(),
            final(self).bytes == old(self).bytes && final(self).range == old(self).range,
            old(self).pos == old(self).range.count ==> r is None && final(self).pos == old(self).pos,
            old(self).pos < old(self).range.count ==> r == Some(old(self).items()[old(self).pos as int])
                && final(self).pos == old(self).pos + 1,
    {
        if self.pos == self.range.count {
            return None;
        }
        let at = 2 * (self.pos as usize);
        let value = (self.bytes[at] as u16) * 256 + self.bytes[at + 1] as u16;
        let index = self.range.start + self.pos;
        self.pos = self.pos + 1;
        Some(Indexed::new(index, value))
    }

    /// The number of registers left, as a lower and an upper bound.
    pub fn size_hint(&self) -> (r: (usize, Option<usize>))
        requires
            self.wf(),
        ensures
            r == ((self.range.count - self.pos) as usize, Some((self.range.count - self.pos) as usize)),
    {
        let remaining = (self.range.count - self.pos) as usize;
        (remaining, Some(remaining))
    }

    /// The registers left, with their addresses.
    pub fn collect_all(self) -> (r: Vec<Indexed<u16>>)
        requires
            self.wf(),
        ensures
            r@ == self.items().subrange(self.pos as int, self.range.count as int),
    {
        let mut it = self;
        let ghost first = it.pos;
        let ghost all = it.items();
        let mut out: Vec<Indexed<u16>> = Vec::new();
        while it.pos < it.range.count
            invariant
                it.wf(),
                all == it.items(),
                first <= it.pos,
                out@ == all.subrange(first as int, it.pos as int),
            decreases it.range.count - it.pos,
        {
            let ghost p = it.pos;
            match it.next() {
                Some(item) => {
                    out.push(item);
                    proof {
                        assert(out@ =~= all.subrange(first as int, p + 1));
                    }
                },
                None => {},
            }
        }
        out
    }
}

} // verus!
