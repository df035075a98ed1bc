//! The client side of each operation: reading the response PDU to a
//! request, which holds the typed response, the server's exception, or an
//! error of the response's own.
use vstd::prelude::*;

use crate::codec::after;
use crate::cursor::{read_cursor, read_remaining, unread};
use crate::device::{decode_device_info, objects_of, parse_device_identification_response, DeviceInfo};
use crate::error::{AduParseError, RequestError};
use crate::pdu::{
    decode_bits_response, decode_registers_response, decode_response_start, parse_bits_response,
    parse_registers_response, parse_response_start, FunctionCode,
};
use crate::types::{conformity_byte, device_code_byte, AddressRange, Indexed, MeiCode};

verus! {

/// The response to a read of `range` of coils (`function` ReadCoils) or
/// discrete inputs.
pub open spec fn read_bits_outcome(function: FunctionCode, range: AddressRange, pdu: Seq<u8>) -> Result<
    Seq<Indexed<bool>>,
    RequestError,
> {
    match decode_response_start(function, pdu) {
        Err(e) => Err(e),
        Ok(()) => decode_bits_response(range, after(pdu, 1)),
    }
}

/// The response to a read of `range` of holding or input registers.
pub open spec fn read_registers_outcome(function: FunctionCode, range: AddressRange, pdu: Seq<u8>) -> Result<
    Seq<Indexed<u16>>,
    RequestError,
> {
    match decode_response_start(function, pdu) {
        Err(e) => Err(e),
        Ok(()) => decode_registers_response(range, after(pdu, 1)),
    }
}

/// The response to a write whose body is echoed: `Ok` only when the echo is
/// the request's body.
pub open spec fn echo_outcome(function: FunctionCode, body: Seq<u8>, pdu: Seq<u8>) -> Result<(), RequestError> {
    match decode_response_start(function, pdu) {
        Err(e) => Err(e),
        Ok(()) => if after(pdu, 1).len() < body.len() {
            Err(RequestError::insufficient())
        } else if after(pdu, 1).len() > body.len() {
            Err(RequestError::BadResponse(AduParseError::TrailingBytes((after(pdu, 1).len() - body.len()) as usize)))
        } else if after(pdu, 1) != body {
            Err(RequestError::BadResponse(AduParseError::ReplyEchoMismatch))
        } else {
            Ok(())
        },
    }
}

/// Reads the response to a read of coils or discrete inputs.
pub fn parse_read_bits_reply(function: FunctionCode, range: AddressRange, pdu: &[u8]) -> (r: Result<
    Vec<Indexed<bool>>,
    RequestError,
>)
    requires
        range.wf(),
    ensures
        match read_bits_outcome(function, range, pdu@) {
            Ok(items) => r is Ok && r->Ok_0@ == items,
            Err(e) => r == Err::<Vec<Indexed<bool>>, RequestError>(e),
        },
{
    let mut cursor = read_cursor(pdu);
    parse_response_start(function, &mut cursor)?;
    parse_bits_response(range, &mut cursor)
}

/// Reads the response to a read of holding or input registers.
pub fn parse_read_registers_reply(function: FunctionCode, range: AddressRange, pdu: &[u8]) -> (r: Result<
    Vec<Indexed<u16>>,
    RequestError,
>)
    requires
        range.wf(),
    ensures
        match read_registers_outcome(function, range, pdu@) {
            Ok(items) => r is Ok && r->Ok_0@ == items,
            Err(e) => r == Err::<Vec<Indexed<u16>>, RequestError>(e),
        },
{
    let mut cursor = read_cursor(pdu);
    parse_response_start(function, &mut cursor)?;
    parse_registers_response(range, &mut cursor)
}

/// Reads the echo of a write whose request body was `body`.
pub fn parse_echo_reply(function: FunctionCode, body: &[u8], pdu: &[u8]) -> (r: Result<(), RequestError>)
    ensures
        r == echo_outcome(function, body@, pdu@),
{
    let mut cursor = read_cursor(pdu);
    parse_response_start(function, &mut cursor)?;
    let ghost rest = unread(cursor);
    let left = read_remaining(&cursor);
    if left < body.len() {
        return Err(RequestError::BadResponse(AduParseError::InsufficientBytes));
    }
    if left > body.len() {
        return Err(RequestError::BadResponse(AduParseError::TrailingBytes(left - body.len())));
    }
    let echo = match crate::cursor::read_bytes(&mut cursor, left) {
        Ok(e) => e,
        Err(_) => return Err(RequestError::BadResponse(AduParseError::InsufficientBytes)),
    };
    proof {
        assert(rest.subrange(0, left as int) =~= rest);
    }
    let mut i: usize = 0;
    while i < left
        invariant
            i <= left,
            left == body@.len(),
            echo@ == rest,
            rest == after(pdu@, 1),
            decode_response_start(function, pdu@) is Ok,
            echo@.len() == left,
            forall|k: int| 0 <= k < i ==> echo@[k] == body@[k],
        decreases left - i,
    {
        if echo[i] != body[i] {
            assert(echo@ != body@);
            return Err(RequestError::BadResponse(AduParseError::ReplyEchoMismatch));
        }
        i = i + 1;
    }
    proof {
        assert(echo@ =~= body@);
    }
    Ok(())
}

/// The response to a Read Device Identification request.
pub open spec fn device_outcome(pdu: Seq<u8>) -> Result<(u8, u8, Option<u8>, Seq<(u8, Seq<u8>)>), RequestError> {
    match decode_response_start(FunctionCode::ReadDeviceIdentification, pdu) {
        Err(e) => Err(e),
        Ok(()) => decode_device_info(after(pdu, 1)),
    }
}

/// Reads the response to a Read Device Identification request.
pub fn parse_device_reply(pdu: &[u8]) -> (r: Result<DeviceInfo, RequestError>)
    ensures
        match device_outcome(pdu@) {
            Ok((code, level, next, objs)) => r is Ok && r->Ok_0.mei_code == MeiCode::ReadDeviceId
                && device_code_byte(r->Ok_0.read_device_id) == code && conformity_byte(
                r->Ok_0.conformity_level,
            ) == level && r->Ok_0.continue_at == next && objects_of(r->Ok_0.storage@) == objs,
            Err(e) => r == Err::<DeviceInfo, RequestError>(e),
        },
{
    let mut cursor = read_cursor(pdu);
    parse_response_start(FunctionCode::ReadDeviceIdentification, &mut cursor)?;
    parse_device_identification_response(&mut cursor)
}

} // verus!
