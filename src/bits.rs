//! Packing of coil states into bytes and of registers into big-endian
//! words, with the byte counts that precede them.
use vstd::prelude::*;

use scursor::{ReadCursor, WriteCursor};

use crate::codec::{after, no_room, put_u16, put_u8, too_short, u16_at};
use crate::cursor::{
    be16, dest_of, has_room, lemma_wrote_nothing, lemma_wrote_trans, read_bytes,
    read_remaining, read_u8, unread, write_remaining, wrote,
};
use crate::error::{AduParseError, InternalError, RequestError};

verus! {

/// The number of bytes that `n` bits fill: `ceil(n / 8)`.
pub open spec fn bytes_for_bits(n: int) -> int {
    if n % 8 == 0 {
        n / 8
    } else {
        n / 8 + 1
    }
}

/// Bit `k` of `bits` as 0 or 1; 0 past the end.
pub open spec fn bit_u8(bits: Seq<bool>, k: int) -> u8 {
    if 0 <= k < bits.len() && bits[k] {
        1
    } else {
        0
    }
}

/// Byte `j` of the packing of `bits`: bit `i` of it is bit `8j + i` of
/// `bits`, least significant first.
pub open spec fn pack_byte(bits: Seq<bool>, j: int) -> u8 {
    bit_u8(bits, 8 * j) | (bit_u8(bits, 8 * j + 1) << 1u8) | (bit_u8(bits, 8 * j + 2) << 2u8) | (
    bit_u8(bits, 8 * j + 3) << 3u8) | (bit_u8(bits, 8 * j + 4) << 4u8) | (bit_u8(bits, 8 * j + 5)
        << 5u8) | (bit_u8(bits, 8 * j + 6) << 6u8) | (bit_u8(bits, 8 * j + 7) << 7u8)
}

/// The bytes of a sequence of coil states, eight to a byte, least
/// significant bit first, the last byte padded with zeros.
pub open spec fn pack_bits(bits: Seq<bool>) -> Seq<u8> {
    Seq::new(bytes_for_bits(bits.len() as int) as nat, |j: int| pack_byte(bits, j))
}

/// Bit `i` (0 to 7) of byte `b` is set.
pub open spec fn bit_set(b: u8, i: int) -> bool {
    (b >> (i as u8)) & 1u8 == 1u8
}

/// The first `n` coil states packed in `bytes`.
pub open spec fn unpack_bits(bytes: Seq<u8>, n: int) -> Seq<bool> {
    Seq::new(n as nat, |k: int| bit_set(bytes[k / 8], k % 8))
}

/// The big-endian bytes of a sequence of registers.
pub open spec fn encode_registers(values: Seq<u16>) -> Seq<u8> {
    Seq::new(
        2 * values.len(),
        |i: int|
            if i % 2 == 0 {
                (values[i / 2] / 256) as u8
            } else {
                (values[i / 2] % 256) as u8
            },
    )
}

/// The first `n` registers in `bytes`, each high byte first.
pub open spec fn decode_registers(bytes: Seq<u8>, n: int) -> Seq<u16> {
    Seq::new(n as nat, |k: int| u16_at(bytes, 2 * k))
}

proof fn lemma_byte_bits(x0: u8, x1: u8, x2: u8, x3: u8, x4: u8, x5: u8, x6: u8, x7: u8)
    by (bit_vector)
    requires
        x0 <= 1 && x1 <= 1 && x2 <= 1 && x3 <= 1 && x4 <= 1 && x5 <= 1 && x6 <= 1 && x7 <= 1,
    ensures
        ((x0 | (x1 << 1u8) | (x2 << 2u8) | (x3 << 3u8) | (x4 << 4u8) | (x5 << 5u8) | (x6 << 6u8) | (x7
            << 7u8)) >> 0u8) & 1u8 == x0,
        ((x0 | (x1 << 1u8) | (x2 << 2u8) | (x3 << 3u8) | (x4 << 4u8) | (x5 << 5u8) | (x6 << 6u8) | (x7
            << 7u8)) >> 1u8) & 1u8 == x1,
        ((x0 | (x1 << 1u8) | (x2 << 2u8) | (x3 << 3u8) | (x4 << 4u8) | (x5 << 5u8) | (x6 << 6u8) | (x7
            << 7u8)) >> 2u8) & 1u8 == x2,
        ((x0 | (x1 << 1u8) | (x2 << 2u8) | (x3 << 3u8) | (x4 << 4u8) | (x5 << 5u8) | (x6 << 6u8) | (x7
            << 7u8)) >> 3u8) & 1u8 == x3,
        ((x0 | (x1 << 1u8) | (x2 << 2u8) | (x3 << 3u8) | (x4 << 4u8) | (x5 << 5u8) | (x6 << 6u8) | (x7
            << 7u8)) >> 4u8) & 1u8 == x4,
        ((x0 | (x1 << 1u8) | (x2 << 2u8) | (x3 << 3u8) | (x4 << 4u8) | (x5 << 5u8) | (x6 << 6u8) | (x7
            << 7u8)) >> 5u8) & 1u8 == x5,
        ((x0 | (x1 << 1u8) | (x2 << 2u8) | (x3 << 3u8) | (x4 << 4u8) | (x5 << 5u8) | (x6 << 6u8) | (x7
            << 7u8)) >> 6u8) & 1u8 == x6,
        ((x0 | (x1 << 1u8) | (x2 << 2u8) | (x3 << 3u8) | (x4 << 4u8) | (x5 << 5u8) | (x6 << 6u8) | (x7
            << 7u8)) >> 7u8) & 1u8 == x7,
{
}

/// Bit `i` of byte `j` of the packing is coil state `8j + i`.
pub proof fn lemma_pack_bit(bits: Seq<bool>, j: int, i: int)
    requires
        0 <= j,
        0 <= i < 8,
    ensures
        bit_set(pack_byte(bits, j), i) == (bit_u8(bits, 8 * j + i) == 1),
{
    lemma_byte_bits(
        bit_u8(bits, 8 * j),
        bit_u8(bits, 8 * j + 1),
        bit_u8(bits, 8 * j + 2),
        bit_u8(bits, 8 * j + 3),
        bit_u8(bits, 8 * j + 4),
        bit_u8(bits, 8 * j + 5),
        bit_u8(bits, 8 * j + 6),
        bit_u8(bits, 8 * j + 7),
    );
}

/// Unpacking the packing of coil states gives them back.
pub proof fn lemma_bits_round_trip(bits: Seq<bool>, rest: Seq<u8>)
    ensures
        unpack_bits(pack_bits(bits) + rest, bits.len() as int) == bits,
        pack_bits(bits).len() == bytes_for_bits(bits.len() as int),
{
    let packed = pack_bits(bits);
    assert forall|k: int| 0 <= k < bits.len() implies #[trigger] unpack_bits(
        packed + rest,
        bits.len() as int,
    )[k] == bits[k] by {
        let j = k / 8;
        let i = k % 8;
        assert(j < bytes_for_bits(bits.len() as int));
        assert((packed + rest)[j] == pack_byte(bits, j));
        lemma_pack_bit(bits, j, i);
        assert(8 * j + i == k);
    }
    assert(unpack_bits(packed + rest, bits.len() as int) =~= bits);
}

/// Reading back the bytes of registers gives the registers.
pub proof fn lemma_registers_round_trip(values: Seq<u16>, rest: Seq<u8>)
    ensures
        decode_registers(encode_registers(values) + rest, values.len() as int) == values,
        encode_registers(values).len() == 2 * values.len(),
{
    let e = encode_registers(values);
    assert forall|k: int| 0 <= k < values.len() implies #[trigger] decode_registers(
        e + rest,
        values.len() as int,
    )[k] == values[k] by {
        assert((2 * k) % 2 == 0 && (2 * k) / 2 == k);
        assert((2 * k + 1) % 2 == 1 && (2 * k + 1) / 2 == k);
        assert((e + rest)[2 * k] == e[2 * k]);
        assert((e + rest)[2 * k + 1] == e[2 * k + 1]);
        let v = values[k];
        assert(v == (v / 256) * 256 + v % 256);
    }
    assert(decode_registers(e + rest, values.len() as int) =~= values);
}

/// The byte count of `num_bits` coil states, if it fits in one byte.
pub fn calc_bytes_for_bits(num_bits: usize) -> (r: Result<u8, InternalError>)
    ensures
        r is Ok <==> bytes_for_bits(num_bits as int) <= 255,
        r is Ok ==> r->Ok_0 == bytes_for_bits(num_bits as int),
        r is Err ==> r == Err::<u8, InternalError>(
            InternalError::BadByteCount(bytes_for_bits(num_bits as int) as usize),
        ),
{
    let div_8 = num_bits / 8;
    let count = if num_bits % 8 == 0 {
        div_8
    } else {
        div_8 + 1
    };
    if count <= 255 {
        Ok(count as u8)
    } else {
        Err(InternalError::BadByteCount(count))
    }
}

/// The byte count of `num_registers` registers, if it fits in one byte.
pub fn calc_bytes_for_registers(num_registers: usize) -> (r: Result<u8, InternalError>)
    ensures
        r is Ok <==> 2 * num_registers <= 255,
        r is Ok ==> r->Ok_0 == 2 * num_registers,
        r is Err ==> r == Err::<u8, InternalError>(
            InternalError::BadByteCount(register_byte_count(num_registers as int)),
        ),
{
    let count = match num_registers.checked_mul(2) {
        Some(c) => c,
        None => usize::MAX,
    };
    if count <= 255 {
        Ok(count as u8)
    } else {
        Err(InternalError::BadByteCount(count))
    }
}

/// The byte count of `n` registers, held at `usize::MAX`.
pub open spec fn register_byte_count(n: int) -> usize {
    if 2 * n <= usize::MAX {
        (2 * n) as usize
    } else {
        usize::MAX
    }
}

fn bit_of(bits: &[bool], k: usize) -> (r: u8)
    ensures
        r == bit_u8(bits@, k as int),
{
    if k < bits.len() && bits[k] {
        1
    } else {
        0
    }
}

/// Byte `j` of the packing of `bits`.
pub fn pack_byte_at(bits: &[bool], j: usize) -> (r: u8)
    requires
        j < 0x1000,
    ensures
        r == pack_byte(bits@, j as int),
{
    let k = 8 * j;
    bit_of(bits, k) | (bit_of(bits, k + 1) << 1u8) | (bit_of(bits, k + 2) << 2u8) | (bit_of(
        bits,
        k + 3,
    ) << 3u8) | (bit_of(bits, k + 4) << 4u8) | (bit_of(bits, k + 5) << 5u8) | (bit_of(bits, k + 6)
        << 6u8) | (bit_of(bits, k + 7) << 7u8)
}

/// Writes bytes `0..n` of the packing of `bits`.
fn put_packed(bits: &[bool], n: usize, cursor: &mut WriteCursor) -> (r: Result<(), RequestError>)
    requires
        n == bytes_for_bits(bits@.len() as int),
        n <= 255,
    ensures
        r is Ok <==> has_room(*old(cursor), n as int),
        r is Ok ==> wrote(*old(cursor), *final(cursor), pack_bits(bits@)),
        r is Err ==> r == Err::<(), RequestError>(RequestError::no_room()),
{
    let ghost c0 = *cursor;
    let ghost packed = pack_bits(bits@);
    if write_remaining(cursor) < n {
        return no_room();
    }
    proof {
        lemma_wrote_nothing(c0);
        assert(packed.subrange(0, 0) =~= Seq::<u8>::empty());
    }
    let mut j: usize = 0;
    while j < n
        invariant
            n == bytes_for_bits(bits@.len() as int),
            n <= 255,
            j <= n,
            has_room(c0, n as int),
            packed == pack_bits(bits@),
            wrote(c0, *cursor, packed.subrange(0, j as int)),
            dest_of(*cursor).len() == dest_of(c0).len(),
        decreases n - j,
    {
        let ghost before = *cursor;
        let b = pack_byte_at(bits, j);
        let res = put_u8(cursor, b);
        if res.is_err() {
            return res;
        }
        proof {
            assert(packed.subrange(0, j as int) + seq![b] =~= packed.subrange(0, j + 1));
            lemma_wrote_trans(c0, before, *cursor, packed.subrange(0, j as int), seq![b]);
        }
        j = j + 1;
    }
    proof {
        assert(packed.subrange(0, n as int) =~= packed);
    }
    Ok(())
}

/// Writes a byte count and the packed coil states.
pub fn serialize_bits(bits: &[bool], cursor: &mut WriteCursor) -> (r: Result<(), RequestError>)
    ensures
        bytes_for_bits(bits@.len() as int) > 255 ==> r == Err::<(), RequestError>(
            RequestError::Internal(
                InternalError::BadByteCount(bytes_for_bits(bits@.len() as int) as usize),
            ),
        ),
        bytes_for_bits(bits@.len() as int) <= 255 ==> (r is Ok <==> has_room(
            *old(cursor),
            1 + bytes_for_bits(bits@.len() as int),
        )),
        bytes_for_bits(bits@.len() as int) <= 255 && r is Err ==> r == Err::<(), RequestError>(
            RequestError::no_room(),
        ),
        r is Ok ==> wrote(
            *old(cursor),
            *final(cursor),
            seq![bytes_for_bits(bits@.len() as int) as u8] + pack_bits(bits@),
        ),
{
    let ghost c0 = *cursor;
    let num_bytes = match calc_bytes_for_bits(bits.len()) {
        Ok(n) => n,
        Err(e) => return Err(RequestError::Internal(e)),
    };
    put_u8(cursor, num_bytes)?;
    let ghost c1 = *cursor;
    put_packed(bits, num_bytes as usize, cursor)?;
    proof {
        lemma_wrote_trans(c0, c1, *cursor, seq![num_bytes], pack_bits(bits@));
    }
    Ok(())
}

/// Writes registers, each high byte first.
fn put_registers(values: &[u16], cursor: &mut WriteCursor) -> (r: Result<(), RequestError>)
    requires
        values@.len() <= 0x7FFF,
    ensures
        r is Ok <==> has_room(*old(cursor), 2 * values@.len() as int),
        r is Ok ==> wrote(*old(cursor), *final(cursor), encode_registers(values@)),
        r is Err ==> r == Err::<(), RequestError>(RequestError::no_room()),
{
    let ghost c0 = *cursor;
    if write_remaining(cursor) / 2 < values.len() {
        return no_room();
    }
    proof {
        lemma_wrote_nothing(c0);
        assert(encode_registers(values@.subrange(0, 0)) =~= Seq::<u8>::empty());
    }
    let mut j: usize = 0;
    while j < values.len()
        invariant
            values@.len() <= 0x7FFF,
            j <= values@.len(),
            has_room(c0, 2 * values@.len() as int),
            wrote(c0, *cursor, encode_registers(values@.subrange(0, j as int))),
            dest_of(*cursor).len() == dest_of(c0).len(),
        decreases values@.len() - j,
    {
        let ghost before = *cursor;
        let v = values[j];
        let res = put_u16(cursor, v);
        if res.is_err() {
            return res;
        }
        proof {
            let e0 = encode_registers(values@.subrange(0, j as int));
            let e1 = encode_registers(values@.subrange(0, j + 1));
            assert forall|i: int| 0 <= i < e1.len() implies #[trigger] e1[i] == (e0 + be16(v))[i] by {
                if i < 2 * j {
                    assert(i / 2 < j);
                } else if i == 2 * j {
                    assert(i / 2 == j && i % 2 == 0);
                } else {
                    assert(i / 2 == j && i % 2 == 1);
                }
            }
            assert(e0 + be16(v) =~= e1);
            lemma_wrote_trans(c0, before, *cursor, e0, be16(v));
        }
        j = j + 1;
    }
    proof {
        assert(values@.subrange(0, values@.len() as int) =~= values@);
    }
    Ok(())
}

/// Writes a byte count and the registers, each high byte first.
pub fn serialize_registers(values: &[u16], cursor: &mut WriteCursor) -> (r: Result<(), RequestError>)
    ensures
        2 * values@.len() > 255 ==> r == Err::<(), RequestError>(
            RequestError::Internal(InternalError::BadByteCount(register_byte_count(values@.len() as int))),
        ),
        2 * values@.len() <= 255 ==> (r is Ok <==> has_room(*old(cursor), 1 + 2 * values@.len() as int)),
        2 * values@.len() <= 255 && r is Err ==> r == Err::<(), RequestError>(RequestError::no_room()),
        r is Ok ==> wrote(
            *old(cursor),
            *final(cursor),
            seq![(2 * values@.len()) as u8] + encode_registers(values@),
        ),
{
    let ghost c0 = *cursor;
    let num_bytes = match calc_bytes_for_registers(values.len()) {
        Ok(n) => n,
        Err(e) => return Err(RequestError::Internal(e)),
    };
    put_u8(cursor, num_bytes)?;
    let ghost c1 = *cursor;
    put_registers(values, cursor)?;
    proof {
        lemma_wrote_trans(c0, c1, *cursor, seq![num_bytes], encode_registers(values@));
    }
    Ok(())
}

} // verus!

verus! {

/// The coil states after a byte count: the count must be `ceil(count / 8)`
/// and exactly that many bytes must follow.
pub open spec fn decode_bit_block(count: int, s: Seq<u8>) -> Result<Seq<bool>, RequestError> {
    let n = bytes_for_bits(count);
    if s.len() < 1 {
        Err(RequestError::insufficient())
    } else if s[0] != n {
        Err(RequestError::BadResponse(AduParseError::ByteCountMismatch(n as usize, s[0])))
    } else if s.len() - 1 < n {
        Err(RequestError::insufficient())
    } else if s.len() - 1 > n {
        Err(RequestError::BadResponse(AduParseError::TrailingBytes((s.len() - 1 - n) as usize)))
    } else {
        Ok(unpack_bits(after(s, 1), count))
    }
}

/// The registers after a byte count: the count must be `2 * count` and
/// exactly that many bytes must follow.
pub open spec fn decode_register_block(count: int, s: Seq<u8>) -> Result<Seq<u16>, RequestError> {
    let n = 2 * count;
    if s.len() < 1 {
        Err(RequestError::insufficient())
    } else if s[0] != n {
        Err(RequestError::BadResponse(AduParseError::ByteCountMismatch(n as usize, s[0])))
    } else if s.len() - 1 < n {
        Err(RequestError::insufficient())
    } else if s.len() - 1 > n {
        Err(RequestError::BadResponse(AduParseError::TrailingBytes((s.len() - 1 - n) as usize)))
    } else {
        Ok(decode_registers(after(s, 1), count))
    }
}

/// A block read back from its own encoding is the block itself.
pub proof fn lemma_bit_block_round_trip(bits: Seq<bool>)
    requires
        bytes_for_bits(bits.len() as int) <= 255,
    ensures
        decode_bit_block(bits.len() as int, seq![bytes_for_bits(bits.len() as int) as u8] + pack_bits(bits))
            == Ok::<Seq<bool>, RequestError>(bits),
{
    let s = seq![bytes_for_bits(bits.len() as int) as u8] + pack_bits(bits);
    lemma_bits_round_trip(bits, Seq::<u8>::empty());
    assert(after(s, 1) =~= pack_bits(bits) + Seq::<u8>::empty());
}

/// Registers read back from their own encoding are the registers.
pub proof fn lemma_register_block_round_trip(values: Seq<u16>)
    requires
        2 * values.len() <= 255,
    ensures
        decode_register_block(values.len() as int, seq![(2 * values.len()) as u8] + encode_registers(values))
            == Ok::<Seq<u16>, RequestError>(values),
{
    let s = seq![(2 * values.len()) as u8] + encode_registers(values);
    lemma_registers_round_trip(values, Seq::<u8>::empty());
    assert(after(s, 1) =~= encode_registers(values) + Seq::<u8>::empty());
}

/// Reads a byte count and the bytes it announces, which must be all that is
/// left: the byte count must be `n`.
fn take_block<'a>(n: usize, cursor: &mut ReadCursor<'a>) -> (r: Result<&'a [u8], RequestError>)
    requires
        n <= 255,
    ensures
        ({
            let s = unread(*old(cursor));
            if s.len() < 1 {
                r == Err::<&[u8], RequestError>(RequestError::insufficient())
            } else if s[0] != n {
                r == Err::<&[u8], RequestError>(
                    RequestError::BadResponse(AduParseError::ByteCountMismatch(n, s[0])),
                )
            } else if s.len() - 1 < n {
                r == Err::<&[u8], RequestError>(RequestError::insufficient())
            } else if s.len() - 1 > n {
                r == Err::<&[u8], RequestError>(
                    RequestError::BadResponse(AduParseError::TrailingBytes((s.len() - 1 - n) as usize)),
                )
            } else {
                r is Ok && r->Ok_0@ == after(s, 1) && unread(*final(cursor)).len() == 0
            }
        }),
{
    let ghost s = unread(*cursor);
    let count = match read_u8(cursor) {
        Ok(v) => v,
        Err(_) => return too_short(),
    };
    if count as usize != n {
        return Err(RequestError::BadResponse(AduParseError::ByteCountMismatch(n, count)));
    }
    let bytes = match read_bytes(cursor, n) {
        Ok(b) => b,
        Err(_) => return too_short(),
    };
    let left = read_remaining(cursor);
    if left != 0 {
        return Err(RequestError::BadResponse(AduParseError::TrailingBytes(left)));
    }
    proof {
        assert(bytes@ =~= after(s, 1));
    }
    Ok(bytes)
}

/// The first `count` coil states packed in `bytes`.
fn unpack(bytes: &[u8], count: u16) -> (r: Vec<bool>)
    requires
        bytes@.len() == bytes_for_bits(count as int),
    ensures
        r@ == unpack_bits(bytes@, count as int),
{
    let mut out: Vec<bool> = Vec::new();
    let mut k: u16 = 0;
    while k < count
        invariant
            k <= count,
            bytes@.len() == bytes_for_bits(count as int),
            out@ == unpack_bits(bytes@, k as int),
        decreases count - k,
    {
        let b = bytes[(k / 8) as usize];
        let bit = (b >> ((k % 8) as u8)) & 1u8 == 1u8;
        out.push(bit);
        proof {
            assert(out@ =~= unpack_bits(bytes@, k + 1));
        }
        k = k + 1;
    }
    out
}

/// The first `count` registers in `bytes`.
fn unpack_registers(bytes: &[u8], count: u16) -> (r: Vec<u16>)
    requires
        bytes@.len() == 2 * count,
    ensures
        r@ == decode_registers(bytes@, count as int),
{
    let mut out: Vec<u16> = Vec::new();
    let mut k: usize = 0;
    while k < count as usize
        invariant
            k <= count,
            bytes@.len() == 2 * count,
            out@ == decode_registers(bytes@, k as int),
        decreases count - k,
    {
        let v = (bytes[2 * k] as u16) * 256 + bytes[2 * k + 1] as u16;
        out.push(v);
        proof {
            assert(out@ =~= decode_registers(bytes@, k + 1));
        }
        k = k + 1;
    }
    out
}

/// Reads a byte count and `count` coil states, which must be all that is left.
pub fn parse_bit_block(count: u16, cursor: &mut ReadCursor) -> (r: Result<Vec<bool>, RequestError>)
    ensures
        match decode_bit_block(count as int, unread(*old(cursor))) {
            Ok(bits) => r is Ok && r->Ok_0@ == bits,
            Err(e) => r == Err::<Vec<bool>, RequestError>(e),
        },
{
    let n = (if count % 8 == 0 {
        count / 8
    } else {
        count / 8 + 1
    }) as usize;
    if n > 255 {
        let b = match read_u8(cursor) {
            Ok(v) => v,
            Err(_) => return too_short(),
        };
        return Err(RequestError::BadResponse(AduParseError::ByteCountMismatch(n, b)));
    }
    let bytes = take_block(n, cursor)?;
    Ok(unpack(bytes, count))
}

/// Reads a byte count and `count` registers, which must be all that is left.
pub fn parse_register_block(count: u16, cursor: &mut ReadCursor) -> (r: Result<Vec<u16>, RequestError>)
    ensures
        match decode_register_block(count as int, unread(*old(cursor))) {
            Ok(values) => r is Ok && r->Ok_0@ == values,
            Err(e) => r == Err::<Vec<u16>, RequestError>(e),
        },
{
    let n = 2 * (count as usize);
    if n > 255 {
        let b = match read_u8(cursor) {
            Ok(v) => v,
            Err(_) => return too_short(),
        };
        return Err(RequestError::BadResponse(AduParseError::ByteCountMismatch(n, b)));
    }
    let bytes = take_block(n, cursor)?;
    Ok(unpack_registers(bytes, count))
}

} // verus!
