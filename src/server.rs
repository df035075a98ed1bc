//! The server side: the handler that a user implements, the parsing of a
//! request PDU, and the response PDU built from what the handler returns.
use vstd::prelude::*;

use scursor::{ReadCursor, WriteCursor};

use crate::bits::{bytes_for_bits, encode_registers, pack_bits, serialize_bits, serialize_registers};
use crate::codec::{
    after, decode_coil, decode_device_request, decode_mask, decode_range, decode_register,
    encode_coil, encode_mask, encode_range, encode_register, put_u8,
};
use crate::cursor::{
    dest_of, has_room, lemma_wrote_trans, pos_of, position, read_cursor, read_remaining, seek_to,
    spliced, unread, write_remaining, wrote,
};
use crate::device::ServerDeviceInfo;
use crate::error::{exception_byte, ExceptionCode, InvalidRange, RequestError};
use crate::pdu::{
    decode_write_coils, decode_write_registers, function_byte, function_of_byte, FunctionCode,
    WriteMultiple,
};
use crate::types::{
    AddressRange, Indexed, MaskWriteRegister, ReadBitsRange, ReadDeviceRequest, ReadRegistersRange,
    MAX_READ_COILS_COUNT, MAX_READ_REGISTERS_COUNT,
};

verus! {

/// The part of `slice` that `range` covers, or IllegalDataAddress when the
/// range passes its end.
pub fn get_range_of<T>(slice: &[T], range: AddressRange) -> (r: Result<&[T], ExceptionCode>)
    ensures
        r is Ok <==> range.start < slice@.len() && range.start + range.count <= slice@.len(),
        r is Ok ==> r->Ok_0@ == slice@.subrange(range.start as int, range.start + range.count),
        r is Err ==> r == Err::<&[T], ExceptionCode>(ExceptionCode::IllegalDataAddress),
{
    let rng = range.to_std_range();
    if rng.start >= slice.len() || rng.end > slice.len() {
        return Err(ExceptionCode::IllegalDataAddress);
    }
    Ok(vstd::slice::slice_subrange(slice, rng.start, rng.end))
}

/// The data and callbacks of one unit, implemented by the user of the
/// server. Reads default to the slices the handler exposes; writes default
/// to IllegalFunction.
pub trait ServerHandler {
    /// All coils of the unit, from address 0.
    fn coils_as_slice(&self) -> &[bool];

    /// All discrete inputs of the unit, from address 0.
    fn discrete_inputs_as_slice(&self) -> &[bool];

    /// All holding registers of the unit, from address 0.
    fn holding_registers_as_slice(&self) -> &[u16];

    /// All input registers of the unit, from address 0.
    fn input_registers_as_slice(&self) -> &[u16];

    /// The coils of `range`.
    fn read_coils(&self, range: AddressRange) -> Result<&[bool], ExceptionCode> {
        get_range_of(self.coils_as_slice(), range)
    }

    /// The discrete inputs of `range`.
    fn read_discrete_inputs(&self, range: AddressRange) -> Result<&[bool], ExceptionCode> {
        get_range_of(self.discrete_inputs_as_slice(), range)
    }

    /// The holding registers of `range`.
    fn read_holding_registers(&self, range: AddressRange) -> Result<&[u16], ExceptionCode> {
        get_range_of(self.holding_registers_as_slice(), range)
    }

    /// The input registers of `range`.
    fn read_input_registers(&self, range: AddressRange) -> Result<&[u16], ExceptionCode> {
        get_range_of(self.input_registers_as_slice(), range)
    }

    /// Writes one coil.
    fn write_single_coil(&mut self, _value: Indexed<bool>) -> Result<(), ExceptionCode> {
        Err(ExceptionCode::IllegalFunction)
    }

    /// Writes one holding register.
    fn write_single_register(&mut self, _value: Indexed<u16>) -> Result<(), ExceptionCode> {
        Err(ExceptionCode::IllegalFunction)
    }

    /// Writes consecutive coils.
    fn write_multiple_coils(&mut self, _range: AddressRange, _values: &[bool]) -> Result<(), ExceptionCode> {
        Err(ExceptionCode::IllegalFunction)
    }

    /// Writes consecutive holding registers.
    fn write_multiple_registers(&mut self, _range: AddressRange, _values: &[u16]) -> Result<(), ExceptionCode> {
        Err(ExceptionCode::IllegalFunction)
    }

    /// Applies a mask to one holding register.
    fn mask_write_register(&mut self, _value: Indexed<MaskWriteRegister>) -> Result<(), ExceptionCode> {
        Err(ExceptionCode::IllegalFunction)
    }

    /// The device identification of the unit, if it offers one.
    fn device_info(&self) -> Option<&ServerDeviceInfo> {
        None
    }
}

/// A request as the server reads it.
pub enum Request {
    ReadCoils(ReadBitsRange),
    ReadDiscreteInputs(ReadBitsRange),
    ReadHoldingRegisters(ReadRegistersRange),
    ReadInputRegisters(ReadRegistersRange),
    WriteSingleCoil(Indexed<bool>),
    WriteSingleRegister(Indexed<u16>),
    WriteMultipleCoils(WriteMultiple<bool>),
    WriteMultipleRegisters(WriteMultiple<u16>),
    MaskWriteRegister(Indexed<MaskWriteRegister>),
    ReadDeviceIdentification(ReadDeviceRequest),
}

/// The exception a server answers a request it cannot read with: its own
/// exception, IllegalDataAddress for a range past 0xFFFF, and
/// IllegalDataValue for anything else.
pub open spec fn exception_for(e: RequestError) -> ExceptionCode {
    match e {
        RequestError::Exception(c) => c,
        RequestError::BadRequest(InvalidRange::AddressOverflow(_, _)) => ExceptionCode::IllegalDataAddress,
        _ => ExceptionCode::IllegalDataValue,
    }
}

fn to_exception(e: RequestError) -> (r: ExceptionCode)
    ensures
        r == exception_for(e),
{
    match e {
        RequestError::Exception(c) => c,
        RequestError::BadRequest(InvalidRange::AddressOverflow(_, _)) => ExceptionCode::IllegalDataAddress,
        _ => ExceptionCode::IllegalDataValue,
    }
}

/// A fixed-size body: the decoding must take all of `body`.
pub open spec fn whole<T>(d: Result<T, RequestError>, body: Seq<u8>, size: int) -> Result<T, ExceptionCode> {
    match d {
        Err(e) => Err(exception_for(e)),
        Ok(v) => if body.len() > size {
            Err(ExceptionCode::IllegalDataValue)
        } else {
            Ok(v)
        },
    }
}

/// The request that `body` holds for function `f`, or the exception it is
/// refused with.
pub open spec fn request_matches(f: FunctionCode, body: Seq<u8>, r: Result<Request, ExceptionCode>) -> bool {
    match f {
        FunctionCode::ReadCoils | FunctionCode::ReadDiscreteInputs => match whole(decode_range(body), body, 4) {
            Err(e) => r == Err::<Request, ExceptionCode>(e),
            Ok(range) => if range.count > MAX_READ_COILS_COUNT {
                r == Err::<Request, ExceptionCode>(ExceptionCode::IllegalDataValue)
            } else if f == FunctionCode::ReadCoils {
                r == Ok::<Request, ExceptionCode>(Request::ReadCoils(ReadBitsRange { inner: range }))
            } else {
                r == Ok::<Request, ExceptionCode>(Request::ReadDiscreteInputs(ReadBitsRange { inner: range }))
            },
        },
        FunctionCode::ReadHoldingRegisters | FunctionCode::ReadInputRegisters => match whole(decode_range(body), body, 4) {
            Err(e) => r == Err::<Request, ExceptionCode>(e),
            Ok(range) => if range.count > MAX_READ_REGISTERS_COUNT {
                r == Err::<Request, ExceptionCode>(ExceptionCode::IllegalDataValue)
            } else if f == FunctionCode::ReadHoldingRegisters {
                r == Ok::<Request, ExceptionCode>(Request::ReadHoldingRegisters(ReadRegistersRange { inner: range }))
            } else {
                r == Ok::<Request, ExceptionCode>(Request::ReadInputRegisters(ReadRegistersRange { inner: range }))
            },
        },
        FunctionCode::WriteSingleCoil => match whole(decode_coil(body), body, 4) {
            Err(e) => r == Err::<Request, ExceptionCode>(e),
            Ok(v) => r == Ok::<Request, ExceptionCode>(Request::WriteSingleCoil(v)),
        },
        FunctionCode::WriteSingleRegister => match whole(decode_register(body), body, 4) {
            Err(e) => r == Err::<Request, ExceptionCode>(e),
            Ok(v) => r == Ok::<Request, ExceptionCode>(Request::WriteSingleRegister(v)),
        },
        FunctionCode::MaskWriteRegister => match whole(decode_mask(body), body, 6) {
            Err(e) => r == Err::<Request, ExceptionCode>(e),
            Ok(v) => r == Ok::<Request, ExceptionCode>(Request::MaskWriteRegister(v)),
        },
        FunctionCode::ReadDeviceIdentification => match whole(decode_device_request(body), body, 3) {
            Err(e) => r == Err::<Request, ExceptionCode>(e),
            Ok(v) => r == Ok::<Request, ExceptionCode>(Request::ReadDeviceIdentification(v)),
        },
        FunctionCode::WriteMultipleCoils => match decode_write_coils(body) {
            Err(e) => r == Err::<Request, ExceptionCode>(exception_for(e)),
            Ok((range, bits)) => r is Ok && (r->Ok_0 matches Request::WriteMultipleCoils(w) && w.range
                == range && w.values@ == bits),
        },
        FunctionCode::WriteMultipleRegisters => match decode_write_registers(body) {
            Err(e) => r == Err::<Request, ExceptionCode>(exception_for(e)),
            Ok((range, values)) => r is Ok && (r->Ok_0 matches Request::WriteMultipleRegisters(w)
                && w.range == range && w.values@ == values),
        },
    }
}

/// Checks that a fixed-size body was read whole.
fn finish<T>(parsed: Result<T, RequestError>, cursor: &ReadCursor) -> (r: Result<T, ExceptionCode>)
    ensures
        match parsed {
            Err(e) => r == Err::<T, ExceptionCode>(exception_for(e)),
            Ok(v) => if unread(*cursor).len() > 0 {
                r == Err::<T, ExceptionCode>(ExceptionCode::IllegalDataValue)
            } else {
                r == Ok::<T, ExceptionCode>(v)
            },
        },
{
    match parsed {
        Err(e) => Err(to_exception(e)),
        Ok(v) => if read_remaining(cursor) > 0 {
            Err(ExceptionCode::IllegalDataValue)
        } else {
            Ok(v)
        },
    }
}

/// Reads a request PDU: the function byte and its body. An unknown
/// function is refused with IllegalFunction, a body that cannot be read
/// with the exception of [`exception_for`].
pub fn parse_request(pdu: &[u8]) -> (r: Result<Request, ExceptionCode>)
    ensures
        pdu@.len() == 0 ==> r == Err::<Request, ExceptionCode>(ExceptionCode::IllegalFunction),
        pdu@.len() > 0 ==> match function_of_byte(pdu@[0]) {
            None => r == Err::<Request, ExceptionCode>(ExceptionCode::IllegalFunction),
            Some(f) => request_matches(f, after(pdu@, 1), r),
        },
{
    if pdu.len() == 0 {
        return Err(ExceptionCode::IllegalFunction);
    }
    let function = match FunctionCode::get(pdu[0]) {
        Ok(f) => f,
        Err(_) => return Err(ExceptionCode::IllegalFunction),
    };
    let body = vstd::slice::slice_subrange(pdu, 1, pdu.len());
    let mut cursor = read_cursor(body);
    let ghost s = unread(cursor);
    assert(s == after(pdu@, 1));
    match function {
        FunctionCode::ReadCoils | FunctionCode::ReadDiscreteInputs => {
            let parsed = AddressRange::parse(&mut cursor);
            proof {
                if parsed is Ok {
                    assert(unread(cursor).len() == s.len() - 4);
                }
            }
            let range = finish(parsed, &cursor)?;
            if range.count > MAX_READ_COILS_COUNT {
                return Err(ExceptionCode::IllegalDataValue);
            }
            let inner = ReadBitsRange { inner: range };
            match function {
                FunctionCode::ReadCoils => Ok(Request::ReadCoils(inner)),
                _ => Ok(Request::ReadDiscreteInputs(inner)),
            }
        },
        FunctionCode::ReadHoldingRegisters | FunctionCode::ReadInputRegisters => {
            let parsed = AddressRange::parse(&mut cursor);
            proof {
                if parsed is Ok {
                    assert(unread(cursor).len() == s.len() - 4);
                }
            }
            let range = finish(parsed, &cursor)?;
            if range.count > MAX_READ_REGISTERS_COUNT {
                return Err(ExceptionCode::IllegalDataValue);
            }
            let inner = ReadRegistersRange { inner: range };
            match function {
                FunctionCode::ReadHoldingRegisters => Ok(Request::ReadHoldingRegisters(inner)),
                _ => Ok(Request::ReadInputRegisters(inner)),
            }
        },
        FunctionCode::WriteSingleCoil => {
            let parsed = Indexed::<bool>::parse(&mut cursor);
            proof {
                if parsed is Ok {
                    assert(unread(cursor).len() == s.len() - 4);
                }
            }
            Ok(Request::WriteSingleCoil(finish(parsed, &cursor)?))
        },
        FunctionCode::WriteSingleRegister => {
            let parsed = Indexed::<u16>::parse(&mut cursor);
            proof {
                if parsed is Ok {
                    assert(unread(cursor).len() == s.len() - 4);
                }
            }
            Ok(Request::WriteSingleRegister(finish(parsed, &cursor)?))
        },
        FunctionCode::MaskWriteRegister => {
            let parsed = Indexed::<MaskWriteRegister>::parse(&mut cursor);
            proof {
                if parsed is Ok {
                    assert(unread(cursor).len() == s.len() - 6);
                }
            }
            Ok(Request::MaskWriteRegister(finish(parsed, &cursor)?))
        },
        FunctionCode::ReadDeviceIdentification => {
            let parsed = ReadDeviceRequest::parse(&mut cursor);
            proof {
                if parsed is Ok {
                    assert(unread(cursor).len() == s.len() - 3);
                }
            }
            Ok(Request::ReadDeviceIdentification(finish(parsed, &cursor)?))
        },
        FunctionCode::WriteMultipleCoils => match WriteMultiple::<bool>::parse(&mut cursor) {
            Ok(w) => Ok(Request::WriteMultipleCoils(w)),
            Err(e) => Err(to_exception(e)),
        },
        FunctionCode::WriteMultipleRegisters => match WriteMultiple::<u16>::parse(&mut cursor) {
            Ok(w) => Ok(Request::WriteMultipleRegisters(w)),
            Err(e) => Err(to_exception(e)),
        },
    }
}

} // verus!

verus! {

/// An exception response: the function byte with its high bit set, then
/// the exception code.
pub open spec fn exception_reply(f: u8, e: ExceptionCode) -> Seq<u8> {
    seq![f | 0x80u8, exception_byte(e)]
}

/// The values a handler handed back, as a sequence.
pub open spec fn values_of<T>(r: Result<&[T], ExceptionCode>) -> Result<Seq<T>, ExceptionCode> {
    match r {
        Ok(v) => Ok(v@),
        Err(e) => Err(e),
    }
}

/// The response to a read of `count` coils or discrete inputs, given what
/// the handler returned; a handler that returns the wrong number of values
/// has failed.
pub open spec fn bits_reply(f: u8, count: u16, values: Result<Seq<bool>, ExceptionCode>) -> Seq<u8> {
    match values {
        Err(e) => exception_reply(f, e),
        Ok(v) => if v.len() != count {
            exception_reply(f, ExceptionCode::ServerDeviceFailure)
        } else {
            seq![f, bytes_for_bits(count as int) as u8] + pack_bits(v)
        },
    }
}

/// The response to a read of `count` registers, given what the handler
/// returned.
pub open spec fn registers_reply(f: u8, count: u16, values: Result<Seq<u16>, ExceptionCode>) -> Seq<u8> {
    match values {
        Err(e) => exception_reply(f, e),
        Ok(v) => if v.len() != count {
            exception_reply(f, ExceptionCode::ServerDeviceFailure)
        } else {
            seq![f, (2 * count) as u8] + encode_registers(v)
        },
    }
}

/// The response to a write: the request body echoed, or the exception.
pub open spec fn echo_reply(f: u8, body: Seq<u8>, result: Result<(), ExceptionCode>) -> Seq<u8> {
    match result {
        Ok(()) => seq![f] + body,
        Err(e) => exception_reply(f, e),
    }
}

/// Writes an exception response.
pub fn write_exception(f: u8, e: ExceptionCode, cursor: &mut WriteCursor) -> (r: Result<(), RequestError>)
    ensures
        r is Ok <==> has_room(*old(cursor), 2),
        r is Ok ==> wrote(*old(cursor), *final(cursor), exception_reply(f, e)),
        r is Err ==> r == Err::<(), RequestError>(RequestError::no_room()),
{
    let ghost c0 = *cursor;
    put_u8(cursor, f | 0x80)?;
    let ghost c1 = *cursor;
    put_u8(cursor, e.to_u8())?;
    proof {
        lemma_wrote_trans(c0, c1, *cursor, seq![f | 0x80u8], seq![exception_byte(e)]);
        assert(seq![f | 0x80u8] + seq![exception_byte(e)] =~= exception_reply(f, e));
    }
    Ok(())
}

/// Writes the response to a read of `count` coils or discrete inputs from
/// what the handler returned.
pub fn write_bits_reply(f: u8, count: u16, values: Result<&[bool], ExceptionCode>, cursor: &mut WriteCursor) -> (r: Result<(), RequestError>)
    requires
        count <= MAX_READ_COILS_COUNT,
    ensures
        has_room(*old(cursor), bits_reply(f, count, values_of(values)).len() as int) ==> r is Ok,
        r is Ok ==> wrote(*old(cursor), *final(cursor), bits_reply(f, count, values_of(values))),
        r is Err ==> r == Err::<(), RequestError>(RequestError::no_room()),
{
    match values {
        Err(e) => write_exception(f, e, cursor),
        Ok(v) => {
            if v.len() != count as usize {
                return write_exception(f, ExceptionCode::ServerDeviceFailure, cursor);
            }
            let ghost c0 = *cursor;
            put_u8(cursor, f)?;
            let ghost c1 = *cursor;
            proof {
                if has_room(c0, bits_reply(f, count, values_of(values)).len() as int) {
                    assert(has_room(c1, 1 + bytes_for_bits(count as int)));
                }
            }
            serialize_bits(v, cursor)?;
            proof {
                let tail = seq![bytes_for_bits(count as int) as u8] + pack_bits(v@);
                lemma_wrote_trans(c0, c1, *cursor, seq![f], tail);
                assert(seq![f] + tail =~= bits_reply(f, count, values_of(values)));
            }
            Ok(())
        },
    }
}

/// Writes the response to a read of `count` registers from what the
/// handler returned.
pub fn write_registers_reply(f: u8, count: u16, values: Result<&[u16], ExceptionCode>, cursor: &mut WriteCursor) -> (r: Result<(), RequestError>)
    requires
        count <= MAX_READ_REGISTERS_COUNT,
    ensures
        has_room(*old(cursor), registers_reply(f, count, values_of(values)).len() as int) ==> r is Ok,
        r is Ok ==> wrote(*old(cursor), *final(cursor), registers_reply(f, count, values_of(values))),
        r is Err ==> r == Err::<(), RequestError>(RequestError::no_room()),
{
    match values {
        Err(e) => write_exception(f, e, cursor),
        Ok(v) => {
            if v.len() != count as usize {
                return write_exception(f, ExceptionCode::ServerDeviceFailure, cursor);
            }
            let ghost c0 = *cursor;
            put_u8(cursor, f)?;
            let ghost c1 = *cursor;
            proof {
                if has_room(c0, registers_reply(f, count, values_of(values)).len() as int) {
                    assert(has_room(c1, 1 + 2 * count));
                }
            }
            serialize_registers(v, cursor)?;
            proof {
                let tail = seq![(2 * count) as u8] + encode_registers(v@);
                lemma_wrote_trans(c0, c1, *cursor, seq![f], tail);
                assert(seq![f] + tail =~= registers_reply(f, count, values_of(values)));
            }
            Ok(())
        },
    }
}

} // verus!

verus! {

/// A response to function byte `f`: the function echoed with at most 252
/// bytes of body, or a two-byte exception response.
pub open spec fn reply_shape(f: u8, b: Seq<u8>) -> bool {
    ||| 1 <= b.len() <= 253 && b[0] == f
    ||| b.len() == 2 && b[0] == f | 0x80u8
}

/// Moving from `before` to `after`, a cursor received a response to `f`.
pub open spec fn replied(f: u8, before: WriteCursor, after: WriteCursor) -> bool {
    exists|b: Seq<u8>| wrote(before, after, b) && #[trigger] reply_shape(f, b)
}

proof fn lemma_replied(f: u8, before: WriteCursor, after: WriteCursor, b: Seq<u8>)
    requires
        wrote(before, after, b),
        reply_shape(f, b),
    ensures
        replied(f, before, after),
{
}

/// The request is a write, whose response echoes part of its body.
pub open spec fn is_write_request(req: Request) -> bool {
    ||| req is WriteSingleCoil
    ||| req is WriteSingleRegister
    ||| req is MaskWriteRegister
    ||| req is WriteMultipleCoils
    ||| req is WriteMultipleRegisters
}

/// What the response to a write echoes: the whole body of a single or
/// masked write, the range of a write of many values.
pub open spec fn echo_body(req: Request) -> Seq<u8> {
    match req {
        Request::WriteSingleCoil(v) => encode_coil(v),
        Request::WriteSingleRegister(v) => encode_register(v),
        Request::MaskWriteRegister(v) => encode_mask(v),
        Request::WriteMultipleCoils(w) => encode_range(w.range),
        Request::WriteMultipleRegisters(w) => encode_range(w.range),
        _ => Seq::empty(),
    }
}

/// Writes the response to a write from what the handler returned: the
/// function byte and the echo on success, else the exception.
pub fn write_echo_reply(f: u8, request: &Request, result: Result<(), ExceptionCode>, cursor: &mut WriteCursor) -> (r: Result<(), RequestError>)
    requires
        is_write_request(*request),
    ensures
        has_room(*old(cursor), echo_reply(f, echo_body(*request), result).len() as int) ==> r is Ok,
        r is Ok ==> wrote(*old(cursor), *final(cursor), echo_reply(f, echo_body(*request), result)),
        r is Err ==> r == Err::<(), RequestError>(RequestError::no_room()),
{
    if let Err(e) = result {
        return write_exception(f, e, cursor);
    }
    let ghost c0 = *cursor;
    put_u8(cursor, f)?;
    let ghost c1 = *cursor;
    match request {
        Request::WriteSingleCoil(v) => v.serialize(cursor)?,
        Request::WriteSingleRegister(v) => v.serialize(cursor)?,
        Request::MaskWriteRegister(v) => v.serialize(cursor)?,
        Request::WriteMultipleCoils(w) => w.range.serialize(cursor)?,
        Request::WriteMultipleRegisters(w) => w.range.serialize(cursor)?,
        _ => {},
    }
    proof {
        lemma_wrote_trans(c0, c1, *cursor, seq![f], echo_body(*request));
    }
    Ok(())
}

/// The reply to a device identification request `q` that a server with
/// `info` gives: the response body, or the exception it refuses `q` with.
pub open spec fn device_reply(f: u8, info: ServerDeviceInfo, q: ReadDeviceRequest, before: WriteCursor, after: WriteCursor) -> bool {
    match info.selection(q) {
        Ok(_) => wrote(before, after, seq![f] + info.response_to(q)),
        Err(e) => wrote(before, after, exception_reply(f, e)),
    }
}

/// Moving from `before` to `after`, a cursor received a response to `req`
/// that some result of the handler leads to: the reply to the values a
/// read returned, the echo or exception of a write, and for device
/// identification IllegalFunction or the reply of some device information.
pub open spec fn reply_allowed(f: u8, req: Request, before: WriteCursor, after: WriteCursor) -> bool {
    match req {
        Request::ReadCoils(range) => exists|v: Result<Seq<bool>, ExceptionCode>|
            wrote(before, after, #[trigger] bits_reply(f, range.inner.count, v)),
        Request::ReadDiscreteInputs(range) => exists|v: Result<Seq<bool>, ExceptionCode>|
            wrote(before, after, #[trigger] bits_reply(f, range.inner.count, v)),
        Request::ReadHoldingRegisters(range) => exists|v: Result<Seq<u16>, ExceptionCode>|
            wrote(before, after, #[trigger] registers_reply(f, range.inner.count, v)),
        Request::ReadInputRegisters(range) => exists|v: Result<Seq<u16>, ExceptionCode>|
            wrote(before, after, #[trigger] registers_reply(f, range.inner.count, v)),
        Request::ReadDeviceIdentification(q) => wrote(
            before,
            after,
            exception_reply(f, ExceptionCode::IllegalFunction),
        ) || exists|info: ServerDeviceInfo| #[trigger] device_reply(f, info, q, before, after),
        _ => exists|res: Result<(), ExceptionCode>|
            wrote(before, after, #[trigger] echo_reply(f, echo_body(req), res)),
    }
}

/// Every request read from the same body gets the same allowed replies.
proof fn lemma_reply_for_all(fc: FunctionCode, body: Seq<u8>, f: u8, req: Request, before: WriteCursor, after: WriteCursor)
    requires
        request_matches(fc, body, Ok(req)),
        reply_allowed(f, req, before, after),
    ensures
        forall|req2: Request|
            #[trigger] request_matches(fc, body, Ok(req2)) ==> reply_allowed(f, req2, before, after),
{
    assert forall|req2: Request| #[trigger] request_matches(fc, body, Ok(req2)) implies reply_allowed(
        f,
        req2,
        before,
        after,
    ) by {
        if req2 is WriteMultipleCoils || req2 is WriteMultipleRegisters {
            assert(echo_body(req2) == echo_body(req));
        } else {
            assert(req2 == req);
        }
    }
}

/// Handles a request PDU for one unit: reads it, calls the handler, and
/// writes the response PDU. A request that cannot be read gets the
/// exception it is refused with; a request that can gets the response that
/// one of the handler's possible results leads to.
pub fn process_request<H: ServerHandler>(handler: &mut H, pdu: &[u8], cursor: &mut WriteCursor) -> (r: Result<(), RequestError>)
    requires
        pdu@.len() >= 1,
    ensures
        function_of_byte(pdu@[0]) is None ==> (has_room(*old(cursor), 2) ==> r is Ok) && (r is Ok
            ==> wrote(*old(cursor), *final(cursor), exception_reply(pdu@[0], ExceptionCode::IllegalFunction))),
        forall|e: ExceptionCode|
            function_of_byte(pdu@[0]) is Some && #[trigger] request_matches(
                function_of_byte(pdu@[0])->Some_0,
                after(pdu@, 1),
                Err(e),
            ) ==> (has_room(*old(cursor), 2) ==> r is Ok) && (r is Ok ==> wrote(
                *old(cursor),
                *final(cursor),
                exception_reply(pdu@[0], e),
            )),
        forall|req: Request|
            function_of_byte(pdu@[0]) is Some && #[trigger] request_matches(
                function_of_byte(pdu@[0])->Some_0,
                after(pdu@, 1),
                Ok(req),
            ) && r is Ok ==> reply_allowed(pdu@[0], req, *old(cursor), *final(cursor)),
        has_room(*old(cursor), 253) ==> r is Ok,
        r is Ok ==> replied(pdu@[0], *old(cursor), *final(cursor)),
        r is Err ==> r == Err::<(), RequestError>(RequestError::no_room()),
{
    let f = pdu[0];
    let ghost c0 = *cursor;
    let _ = write_remaining(cursor);
    let request = match parse_request(pdu) {
        Ok(req) => req,
        Err(e) => {
            let res = write_exception(f, e, cursor);
            proof {
                if res is Ok {
                    lemma_replied(f, c0, *cursor, exception_reply(f, e));
                }
                assert forall|e2: ExceptionCode|
                    function_of_byte(pdu@[0]) is Some && #[trigger] request_matches(
                        function_of_byte(pdu@[0])->Some_0,
                        after(pdu@, 1),
                        Err(e2),
                    ) implies e2 == e by {
                    lemma_request_matches_unique(function_of_byte(pdu@[0])->Some_0, after(pdu@, 1), Err(e), Err(e2));
                }
                assert forall|req2: Request|
                    function_of_byte(pdu@[0]) is Some && #[trigger] request_matches(
                        function_of_byte(pdu@[0])->Some_0,
                        after(pdu@, 1),
                        Ok(req2),
                    ) implies false by {
                    lemma_request_matches_ok(function_of_byte(pdu@[0])->Some_0, after(pdu@, 1), req2, e);
                }
            }
            return res;
        },
    };
    let ghost fc = function_of_byte(pdu@[0])->Some_0;
    let ghost body = after(pdu@, 1);
    proof {
        assert forall|e2: ExceptionCode|
            function_of_byte(pdu@[0]) is Some && #[trigger] request_matches(
                function_of_byte(pdu@[0])->Some_0,
                after(pdu@, 1),
                Err(e2),
            ) implies false by {
            lemma_request_matches_ok(function_of_byte(pdu@[0])->Some_0, after(pdu@, 1), request, e2);
        }
    }
    let res = match &request {
        Request::ReadCoils(range) => {
            let inner = range.get();
            let values = handler.read_coils(inner);
            let res = write_bits_reply(f, inner.count, values, cursor);
            proof {
                if res is Ok {
                    lemma_replied(f, c0, *cursor, bits_reply(f, inner.count, values_of(values)));
                    assert(reply_allowed(f, request, c0, *cursor));
                }
            }
            res
        },
        Request::ReadDiscreteInputs(range) => {
            let inner = range.get();
            let values = handler.read_discrete_inputs(inner);
            let res = write_bits_reply(f, inner.count, values, cursor);
            proof {
                if res is Ok {
                    lemma_replied(f, c0, *cursor, bits_reply(f, inner.count, values_of(values)));
                    assert(reply_allowed(f, request, c0, *cursor));
                }
            }
            res
        },
        Request::ReadHoldingRegisters(range) => {
            let inner = range.get();
            let values = handler.read_holding_registers(inner);
            let res = write_registers_reply(f, inner.count, values, cursor);
            proof {
                if res is Ok {
                    lemma_replied(f, c0, *cursor, registers_reply(f, inner.count, values_of(values)));
                    assert(reply_allowed(f, request, c0, *cursor));
                }
            }
            res
        },
        Request::ReadInputRegisters(range) => {
            let inner = range.get();
            let values = handler.read_input_registers(inner);
            let res = write_registers_reply(f, inner.count, values, cursor);
            proof {
                if res is Ok {
                    lemma_replied(f, c0, *cursor, registers_reply(f, inner.count, values_of(values)));
                    assert(reply_allowed(f, request, c0, *cursor));
                }
            }
            res
        },
        Request::ReadDeviceIdentification(req) => {
            let req = *req;
            let info = match handler.device_info() {
                Some(info) => info,
                None => {
                    let res = write_exception(f, ExceptionCode::IllegalFunction, cursor);
                    proof {
                        if res is Ok {
                            lemma_replied(f, c0, *cursor, exception_reply(f, ExceptionCode::IllegalFunction));
                            lemma_reply_for_all(fc, body, f, request, c0, *cursor);
                        }
                    }
                    return res;
                },
            };
            let start = position(cursor);
            put_u8(cursor, f)?;
            let ghost c1 = *cursor;
            match info.read_device_identification(&req, cursor) {
                Ok(()) => {
                    proof {
                        info.lemma_response_to_size(req);
                        lemma_wrote_trans(c0, c1, *cursor, seq![f], info.response_to(req));
                        lemma_replied(f, c0, *cursor, seq![f] + info.response_to(req));
                        assert(device_reply(f, *info, req, c0, *cursor));
                    }
                    Ok(())
                },
                Err(RequestError::Exception(e)) => {
                    let _ = seek_to(cursor, start);
                    write_exception(f, e, cursor)?;
                    proof {
                        let d0 = dest_of(c0);
                        let p0 = pos_of(c0) as int;
                        assert(spliced(spliced(d0, p0, seq![f]), p0, exception_reply(f, e)) =~= spliced(
                            d0,
                            p0,
                            exception_reply(f, e),
                        ));
                        lemma_replied(f, c0, *cursor, exception_reply(f, e));
                        assert(device_reply(f, *info, req, c0, *cursor));
                    }
                    Ok(())
                },
                Err(other) => {
                    proof {
                        if has_room(c0, 253) {
                            info.lemma_response_to_size(req);
                        }
                    }
                    Err(other)
                },
            }
        },
        Request::WriteSingleCoil(value) => {
            let result = handler.write_single_coil(*value);
            let res = write_echo_reply(f, &request, result, cursor);
            proof {
                if res is Ok {
                    lemma_echo_replied(f, request, result, c0, *cursor);
                }
            }
            res
        },
        Request::WriteSingleRegister(value) => {
            let result = handler.write_single_register(*value);
            let res = write_echo_reply(f, &request, result, cursor);
            proof {
                if res is Ok {
                    lemma_echo_replied(f, request, result, c0, *cursor);
                }
            }
            res
        },
        Request::MaskWriteRegister(value) => {
            let result = handler.mask_write_register(*value);
            let res = write_echo_reply(f, &request, result, cursor);
            proof {
                if res is Ok {
                    lemma_echo_replied(f, request, result, c0, *cursor);
                }
            }
            res
        },
        Request::WriteMultipleCoils(w) => {
            let result = handler.write_multiple_coils(w.range, w.values.as_slice());
            let res = write_echo_reply(f, &request, result, cursor);
            proof {
                if res is Ok {
                    lemma_echo_replied(f, request, result, c0, *cursor);
                }
            }
            res
        },
        Request::WriteMultipleRegisters(w) => {
            let result = handler.write_multiple_registers(w.range, w.values.as_slice());
            let res = write_echo_reply(f, &request, result, cursor);
            proof {
                if res is Ok {
                    lemma_echo_replied(f, request, result, c0, *cursor);
                }
            }
            res
        },
    };
    proof {
        if res is Ok {
            lemma_reply_for_all(fc, body, f, request, c0, *cursor);
        }
    }
    res
}

/// The echo or exception of a write is a reply the handler allows, and a
/// response to its function.
proof fn lemma_echo_replied(f: u8, req: Request, result: Result<(), ExceptionCode>, before: WriteCursor, after: WriteCursor)
    requires
        is_write_request(req),
        wrote(before, after, echo_reply(f, echo_body(req), result)),
    ensures
        replied(f, before, after),
        reply_allowed(f, req, before, after),
{
    lemma_replied(f, before, after, echo_reply(f, echo_body(req), result));
}

/// A request body decodes to one result only.
proof fn lemma_request_matches_unique(
    f: FunctionCode,
    body: Seq<u8>,
    a: Result<Request, ExceptionCode>,
    b: Result<Request, ExceptionCode>,
)
    requires
        request_matches(f, body, a),
        request_matches(f, body, b),
        a is Err,
        b is Err,
    ensures
        a == b,
{
}

/// A body that decodes to a request is not refused.
proof fn lemma_request_matches_ok(f: FunctionCode, body: Seq<u8>, req: Request, e: ExceptionCode)
    requires
        request_matches(f, body, Ok(req)),
    ensures
        !request_matches(f, body, Err(e)),
{
}

} // verus!

verus! {

proof fn lemma_high_bit(b: u8)
    by (bit_vector)
    requires
        b < 0x80,
    ensures
        b | 0x80u8 == b + 0x80,
{
}

/// A client reads the exception response to its request as the exception
/// the server sent.
pub proof fn lemma_exception_round_trip(f: FunctionCode, e: ExceptionCode)
    ensures
        crate::pdu::decode_response_start(f, exception_reply(function_byte(f), e)) == Err::<
            (),
            RequestError,
        >(RequestError::Exception(e)),
{
    lemma_high_bit(function_byte(f));
}

} // verus!
