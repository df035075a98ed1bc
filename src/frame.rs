//! Framing of PDUs: the MBAP header used over TCP and TLS, and the RTU
//! frame with its CRC used over serial lines.
use vstd::prelude::*;

use crate::codec::u16_at;
use crate::cursor::be16;
use crate::error::FrameParseError;
use crate::types::UnitId;

verus! {

/// Largest PDU: the function byte and its body.
pub const MAX_PDU_LENGTH: usize = 253;

/// Length of an MBAP header.
pub const MBAP_HEADER_LENGTH: usize = 7;

/// A PDU and the addressing that came with it.
#[derive(Debug, PartialEq, Eq)]
pub struct Frame {
    /// The transaction id of an MBAP frame; 0 for RTU.
    pub tx_id: u16,
    /// The unit the PDU is for.
    pub unit_id: UnitId,
    /// The function byte and its body.
    pub pdu: Vec<u8>,
}

/// What the framing reads off the front of a buffer.
#[derive(Debug, PartialEq, Eq)]
pub enum ParseOutcome {
    /// This many more bytes are needed before a frame can be read.
    NeedMore(usize),
    /// A frame, and the number of bytes it took.
    Complete(Frame, usize),
}

/// What the MBAP framing reads off the front of `s`: the bytes it still
/// needs, or the transaction id, unit id, PDU and length of the frame.
pub open spec fn decode_mbap(s: Seq<u8>) -> Result<Result<(u16, u8, Seq<u8>, int), int>, FrameParseError> {
    if s.len() < 7 {
        Ok(Err(7 - s.len()))
    } else if u16_at(s, 2) != 0 {
        Err(FrameParseError::BadProtocolId(u16_at(s, 2)))
    } else if u16_at(s, 4) < 2 || u16_at(s, 4) > 254 {
        Err(FrameParseError::BadLength(u16_at(s, 4)))
    } else if s.len() < 6 + u16_at(s, 4) {
        Ok(Err(6 + u16_at(s, 4) - s.len()))
    } else {
        Ok(Ok((u16_at(s, 0), s[6], s.subrange(7, 6 + u16_at(s, 4)), 6 + u16_at(s, 4))))
    }
}

/// The bytes of an MBAP frame: transaction id, protocol id 0, the length
/// of unit id and PDU, unit id, PDU.
pub open spec fn encode_mbap(tx_id: u16, unit_id: u8, pdu: Seq<u8>) -> Seq<u8> {
    be16(tx_id) + be16(0) + be16((pdu.len() + 1) as u16) + seq![unit_id] + pdu
}

/// The frame that a decoded MBAP frame describes.
pub open spec fn outcome_matches(r: ParseOutcome, d: Result<(u16, u8, Seq<u8>, int), int>) -> bool {
    match d {
        Err(more) => r == ParseOutcome::NeedMore(more as usize),
        Ok((tx, unit, pdu, n)) => match r {
            ParseOutcome::Complete(f, used) => f.tx_id == tx && f.unit_id.value == unit && f.pdu@
                == pdu && used == n,
            _ => false,
        },
    }
}

fn be_at(buf: &[u8], i: usize) -> (r: u16)
    requires
        i + 1 < buf@.len(),
    ensures
        r == u16_at(buf@, i as int),
{
    (buf[i] as u16) * 256 + buf[i + 1] as u16
}

/// Reads an MBAP frame off the front of `buffer`, or says how many more
/// bytes it needs. A protocol id other than 0, and a length outside
/// 2..=254, are errors.
pub fn parse_mbap(buffer: &[u8]) -> (r: Result<ParseOutcome, FrameParseError>)
    ensures
        match decode_mbap(buffer@) {
            Err(e) => r == Err::<ParseOutcome, FrameParseError>(e),
            Ok(d) => r is Ok && outcome_matches(r->Ok_0, d),
        },
{
    if buffer.len() < MBAP_HEADER_LENGTH {
        return Ok(ParseOutcome::NeedMore(MBAP_HEADER_LENGTH - buffer.len()));
    }
    let tx_id = be_at(buffer, 0);
    let protocol = be_at(buffer, 2);
    if protocol != 0 {
        return Err(FrameParseError::BadProtocolId(protocol));
    }
    let length = be_at(buffer, 4);
    if length < 2 || length > 254 {
        return Err(FrameParseError::BadLength(length));
    }
    let total = 6 + length as usize;
    if buffer.len() < total {
        return Ok(ParseOutcome::NeedMore(total - buffer.len()));
    }
    let pdu = vstd::slice::slice_to_vec(vstd::slice::slice_subrange(buffer, 7, total));
    Ok(ParseOutcome::Complete(Frame { tx_id, unit_id: UnitId::new(buffer[6]), pdu }, total))
}

/// Writes an MBAP frame around a PDU.
pub fn format_mbap(tx_id: u16, unit_id: UnitId, pdu: &[u8]) -> (r: Vec<u8>)
    requires
        1 <= pdu@.len() <= MAX_PDU_LENGTH,
    ensures
        r@ == encode_mbap(tx_id, unit_id.value, pdu@),
{
    let length = (pdu.len() + 1) as u16;
    let mut out: Vec<u8> = Vec::new();
    out.push((tx_id / 256) as u8);
    out.push((tx_id % 256) as u8);
    out.push(0);
    out.push(0);
    out.push((length / 256) as u8);
    out.push((length % 256) as u8);
    out.push(unit_id.value);
    let ghost head = out@;
    let mut i: usize = 0;
    while i < pdu.len()
        invariant
            i <= pdu@.len(),
            out@ == head + pdu@.subrange(0, i as int),
        decreases pdu@.len() - i,
    {
        out.push(pdu[i]);
        proof {
            assert(head + pdu@.subrange(0, i + 1) =~= out@);
        }
        i = i + 1;
    }
    proof {
        assert(pdu@.subrange(0, pdu@.len() as int) =~= pdu@);
        assert(out@ =~= encode_mbap(tx_id, unit_id.value, pdu@));
    }
    out
}

/// Reading back an MBAP frame gives its transaction id, unit id and PDU,
/// whatever bytes follow it.
pub proof fn lemma_mbap_round_trip(tx_id: u16, unit_id: u8, pdu: Seq<u8>, rest: Seq<u8>)
    requires
        1 <= pdu.len() <= MAX_PDU_LENGTH,
    ensures
        decode_mbap(encode_mbap(tx_id, unit_id, pdu) + rest) == Ok::<
            Result<(u16, u8, Seq<u8>, int), int>,
            FrameParseError,
        >(Ok((tx_id, unit_id, pdu, 7 + pdu.len() as int))),
{
    let s = encode_mbap(tx_id, unit_id, pdu) + rest;
    let len = (pdu.len() + 1) as u16;
    assert(tx_id == (tx_id / 256) * 256 + tx_id % 256);
    assert(len == (len / 256) * 256 + len % 256);
    assert(s[0] == (tx_id / 256) as u8 && s[1] == (tx_id % 256) as u8);
    assert(s[2] == 0 && s[3] == 0);
    assert(s[4] == (len / 256) as u8 && s[5] == (len % 256) as u8);
    assert(s[6] == unit_id);
    assert(s.subrange(7, 7 + pdu.len() as int) =~= pdu);
}

/// One bit step of the CRC-16/MODBUS register (polynomial 0xA001,
/// reflected).
pub open spec fn crc_shift(c: u16) -> u16 {
    if c & 1 == 1 {
        (c >> 1u16) ^ 0xA001
    } else {
        c >> 1u16
    }
}

/// Four bit steps of the CRC register.
pub open spec fn crc_shift4(c: u16) -> u16 {
    crc_shift(crc_shift(crc_shift(crc_shift(c))))
}

/// The CRC register after taking in one byte: eight bit steps.
pub open spec fn crc_byte(crc: u16, b: u8) -> u16 {
    crc_shift4(crc_shift4(crc ^ (b as u16)))
}

/// The CRC register after taking in `s` from `init`.
pub open spec fn crc_from(init: u16, s: Seq<u8>) -> u16
    decreases s.len(),
{
    if s.len() == 0 {
        init
    } else {
        crc_byte(crc_from(init, s.drop_last()), s.last())
    }
}

/// CRC-16/MODBUS of `s`: initial value 0xFFFF, no final xor.
pub open spec fn crc16(s: Seq<u8>) -> u16 {
    crc_from(0xFFFF, s)
}

fn shift(c: u16) -> (r: u16)
    ensures
        r == crc_shift(c),
{
    if c & 1 == 1 {
        (c >> 1u16) ^ 0xA001
    } else {
        c >> 1u16
    }
}

fn shift4(c: u16) -> (r: u16)
    ensures
        r == crc_shift4(c),
{
    shift(shift(shift(shift(c))))
}

/// CRC-16/MODBUS of `data`.
pub fn calc_crc(data: &[u8]) -> (r: u16)
    ensures
        r == crc16(data@),
{
    let mut crc: u16 = 0xFFFF;
    let mut i: usize = 0;
    while i < data.len()
        invariant
            i <= data@.len(),
            crc == crc_from(0xFFFF, data@.subrange(0, i as int)),
        decreases data@.len() - i,
    {
        let b = data[i];
        crc = shift4(shift4(crc ^ (b as u16)));
        proof {
            assert(data@.subrange(0, i + 1).drop_last() =~= data@.subrange(0, i as int));
        }
        i = i + 1;
    }
    proof {
        assert(data@.subrange(0, data@.len() as int) =~= data@);
    }
    crc
}

/// The bytes of an RTU frame: unit id, PDU, CRC low byte, CRC high byte.
pub open spec fn encode_rtu(unit_id: u8, pdu: Seq<u8>) -> Seq<u8> {
    let body = seq![unit_id] + pdu;
    body + seq![(crc16(body) % 256) as u8, (crc16(body) / 256) as u8]
}

/// What an RTU frame holds: its unit id and PDU, if its size and CRC are
/// right.
pub open spec fn decode_rtu(s: Seq<u8>) -> Result<(u8, Seq<u8>), FrameParseError> {
    if s.len() < 4 || s.len() > 256 {
        Err(FrameParseError::BadFrameSize(s.len() as usize))
    } else {
        let body = s.subrange(0, s.len() - 2);
        let received = (s[s.len() - 2] as int + 256 * s[s.len() - 1] as int) as u16;
        if crc16(body) != received {
            Err(FrameParseError::BadCrc(crc16(body), received))
        } else {
            Ok((s[0], s.subrange(1, s.len() - 2)))
        }
    }
}

/// Reads a whole RTU frame, checking its size and its CRC.
pub fn parse_rtu(frame: &[u8]) -> (r: Result<Frame, FrameParseError>)
    ensures
        match decode_rtu(frame@) {
            Err(e) => r == Err::<Frame, FrameParseError>(e),
            Ok((unit, pdu)) => r is Ok && r->Ok_0.tx_id == 0 && r->Ok_0.unit_id.value == unit
                && r->Ok_0.pdu@ == pdu,
        },
{
    let n = frame.len();
    if n < 4 || n > 256 {
        return Err(FrameParseError::BadFrameSize(n));
    }
    let body = vstd::slice::slice_subrange(frame, 0, n - 2);
    let computed = calc_crc(body);
    let received = (frame[n - 2] as u16) + 256 * (frame[n - 1] as u16);
    if computed != received {
        return Err(FrameParseError::BadCrc(computed, received));
    }
    let pdu = vstd::slice::slice_to_vec(vstd::slice::slice_subrange(frame, 1, n - 2));
    Ok(Frame { tx_id: 0, unit_id: UnitId::new(frame[0]), pdu })
}

/// Writes an RTU frame around a PDU.
pub fn format_rtu(unit_id: UnitId, pdu: &[u8]) -> (r: Vec<u8>)
    requires
        1 <= pdu@.len() <= MAX_PDU_LENGTH,
    ensures
        r@ == encode_rtu(unit_id.value, pdu@),
{
    let mut out: Vec<u8> = Vec::new();
    out.push(unit_id.value);
    let mut i: usize = 0;
    while i < pdu.len()
        invariant
            i <= pdu@.len(),
            out@ == seq![unit_id.value] + pdu@.subrange(0, i as int),
        decreases pdu@.len() - i,
    {
        out.push(pdu[i]);
        proof {
            assert(seq![unit_id.value] + pdu@.subrange(0, i + 1) =~= out@);
        }
        i = i + 1;
    }
    proof {
        assert(pdu@.subrange(0, pdu@.len() as int) =~= pdu@);
    }
    let crc = calc_crc(out.as_slice());
    out.push((crc % 256) as u8);
    out.push((crc / 256) as u8);
    proof {
        assert(out@ =~= encode_rtu(unit_id.value, pdu@));
    }
    out
}

/// Reading back an RTU frame gives its unit id and PDU.
pub proof fn lemma_rtu_round_trip(unit_id: u8, pdu: Seq<u8>)
    requires
        1 <= pdu.len() <= MAX_PDU_LENGTH,
    ensures
        decode_rtu(encode_rtu(unit_id, pdu)) == Ok::<(u8, Seq<u8>), FrameParseError>((unit_id, pdu)),
{
    let body = seq![unit_id] + pdu;
    let s = encode_rtu(unit_id, pdu);
    let c = crc16(body);
    assert(s.subrange(0, s.len() - 2) =~= body);
    assert(s.subrange(1, s.len() - 2) =~= pdu);
    assert(c == (c % 256) + 256 * (c / 256));
}

} // verus!
