//! Big-endian byte cursors over buffers, provided by the `scursor` crate.
//!
//! A read cursor is modelled by the bytes it has not consumed yet; a write
//! cursor by its whole destination buffer and its position in it.
use vstd::prelude::*;

use scursor::{ReadCursor, ReadError, WriteCursor, WriteError};

verus! {

/// scursor's read cursor, seen only through `unread`.
#[verifier::external_type_specification]
#[verifier::external_body]
pub struct ExReadCursor<'a>(scursor::ReadCursor<'a>);

/// scursor's write cursor, seen only through `dest_of` and `pos_of`.
#[verifier::external_type_specification]
#[verifier::external_body]
pub struct ExWriteCursor<'a>(scursor::WriteCursor<'a>);

/// scursor's error for a read past the end, carried only to be mapped.
#[verifier::external_type_specification]
#[verifier::external_body]
pub struct ExReadError(scursor::ReadError);

/// scursor's error for a write past the end, carried only to be mapped.
#[verifier::external_type_specification]
#[verifier::external_body]
pub struct ExWriteError(scursor::WriteError);

/// The bytes that a read cursor has not consumed yet.
pub uninterp spec fn unread(c: ReadCursor) -> Seq<u8>;

/// The whole destination buffer of a write cursor.
pub uninterp spec fn dest_of(c: WriteCursor) -> Seq<u8>;

/// The position of a write cursor in its destination buffer.
pub uninterp spec fn pos_of(c: WriteCursor) -> nat;

/// `dest` with `bytes` written over it from `pos` on.
pub open spec fn spliced(dest: Seq<u8>, pos: int, bytes: Seq<u8>) -> Seq<u8> {
    dest.subrange(0, pos) + bytes + dest.subrange(pos + bytes.len(), dest.len() as int)
}

/// The big-endian bytes of a 16-bit value.
pub open spec fn be16(v: u16) -> Seq<u8> {
    seq![(v / 256) as u8, (v % 256) as u8]
}

/// The 16-bit value of two big-endian bytes.
pub open spec fn u16_of(hi: u8, lo: u8) -> u16 {
    (hi as int * 256 + lo as int) as u16
}

/// Moving from `before` to `after`, a write cursor wrote `bytes` at its
/// position and stepped over them.
pub open spec fn wrote(before: WriteCursor, after: WriteCursor, bytes: Seq<u8>) -> bool {
    &&& pos_of(after) == pos_of(before) + bytes.len()
    &&& dest_of(after) == spliced(dest_of(before), pos_of(before) as int, bytes)
}

/// There is room for `n` more bytes after the position.
pub open spec fn has_room(c: WriteCursor, n: int) -> bool {
    pos_of(c) + n <= dest_of(c).len()
}

/// Two writes in a row write what the two wrote, one after the other.
pub proof fn lemma_wrote_trans(a: WriteCursor, b: WriteCursor, c: WriteCursor, x: Seq<u8>, y: Seq<u8>)
    requires
        wrote(a, b, x),
        wrote(b, c, y),
        has_room(a, (x.len() + y.len()) as int),
    ensures
        wrote(a, c, x + y),
{
    let d = dest_of(a);
    let p = pos_of(a) as int;
    assert(spliced(spliced(d, p, x), p + x.len(), y) =~= spliced(d, p, x + y));
}

/// Writing nothing leaves a cursor as it is.
pub proof fn lemma_wrote_nothing(c: WriteCursor)
    requires
        pos_of(c) <= dest_of(c).len(),
    ensures
        wrote(c, c, Seq::<u8>::empty()),
{
    assert(spliced(dest_of(c), pos_of(c) as int, Seq::<u8>::empty()) =~= dest_of(c));
}

/// Relies on scursor's `ReadCursor::new`: the cursor starts at the first byte.
#[verifier::external_body]
pub(crate) fn read_cursor<'a>(input: &'a [u8]) -> (r: ReadCursor<'a>)
    ensures
        unread(r) == input@,
{
    ReadCursor::new(input)
}

/// Relies on scursor's `ReadCursor::read_u8`: it takes one byte, and leaves
/// the cursor as it was when none is left.
#[verifier::external_body]
pub(crate) fn read_u8(c: &mut ReadCursor) -> (r: Result<u8, ReadError>)
    ensures
        r is Ok <==> unread(*old(c)).len() >= 1,
        r is Ok ==> r->Ok_0 == unread(*old(c))[0] && unread(*final(c)) == unread(*old(c)).drop_first(),
        r is Err ==> unread(*final(c)) == unread(*old(c)),
{
    c.read_u8()
}

/// Relies on scursor's `ReadCursor::read_u16_be`: two bytes, high byte first.
#[verifier::external_body]
pub(crate) fn read_u16_be(c: &mut ReadCursor) -> (r: Result<u16, ReadError>)
    ensures
        r is Ok <==> unread(*old(c)).len() >= 2,
        r is Ok ==> r->Ok_0 == u16_of(unread(*old(c))[0], unread(*old(c))[1])
            && unread(*final(c)) == unread(*old(c)).subrange(2, unread(*old(c)).len() as int),
{
    c.read_u16_be()
}

/// Relies on scursor's `ReadCursor::read_bytes`: the next `count` bytes, and
/// the cursor as it was when fewer are left.
#[verifier::external_body]
pub(crate) fn read_bytes<'a>(c: &mut ReadCursor<'a>, count: usize) -> (r: Result<&'a [u8], ReadError>)
    ensures
        r is Ok <==> count <= unread(*old(c)).len(),
        r is Ok ==> r->Ok_0@ == unread(*old(c)).subrange(0, count as int)
            && unread(*final(c)) == unread(*old(c)).subrange(count as int, unread(*old(c)).len() as int),
        r is Err ==> unread(*final(c)) == unread(*old(c)),
{
    c.read_bytes(count)
}




/// Relies on scursor's `ReadCursor::remaining`: the number of bytes left.
#[verifier::external_body]
pub(crate) fn read_remaining(c: &ReadCursor) -> (r: usize)
    ensures
        r == unread(*c).len(),
{
    c.remaining()
}


/// Relies on scursor's `WriteCursor::remaining`: the room left after the
/// position, which never passes the end of the buffer.
#[verifier::external_body]
pub(crate) fn write_remaining(c: &WriteCursor) -> (r: usize)
    ensures
        r == dest_of(*c).len() - pos_of(*c),
{
    c.remaining()
}

/// Relies on scursor's `WriteCursor::position`.
#[verifier::external_body]
pub(crate) fn position(c: &WriteCursor) -> (r: usize)
    ensures
        r == pos_of(*c),
{
    c.position()
}

/// Relies on scursor's `WriteCursor::write_u8`: one byte at the position, or
/// nothing changed when the buffer is full.
#[verifier::external_body]
pub(crate) fn write_u8(c: &mut WriteCursor, value: u8) -> (r: Result<(), WriteError>)
    ensures
        r is Ok <==> pos_of(*old(c)) < dest_of(*old(c)).len(),
        r is Ok ==> wrote(*old(c), *final(c), seq![value]),
        r is Err ==> *final(c) == *old(c),
{
    c.write_u8(value)
}

/// Relies on scursor's `WriteCursor::write_bytes`: the bytes at the
/// position, or nothing changed when they do not fit.
#[verifier::external_body]
pub(crate) fn write_bytes(c: &mut WriteCursor, bytes: &[u8]) -> (r: Result<(), WriteError>)
    ensures
        r is Ok <==> pos_of(*old(c)) + bytes@.len() <= dest_of(*old(c)).len(),
        r is Ok ==> wrote(*old(c), *final(c), bytes@),
        r is Err ==> *final(c) == *old(c),
{
    c.write_bytes(bytes)
}

/// Relies on scursor's `WriteCursor::write_u16_be`: the two bytes of the
/// value, high byte first, or nothing changed when they do not fit.
#[verifier::external_body]
pub(crate) fn write_u16_be(c: &mut WriteCursor, value: u16) -> (r: Result<(), WriteError>)
    ensures
        r is Ok <==> pos_of(*old(c)) + 2 <= dest_of(*old(c)).len(),
        r is Ok ==> wrote(*old(c), *final(c), be16(value)),
        r is Err ==> *final(c) == *old(c),
{
    c.write_u16_be(value)
}

/// Relies on scursor's `WriteCursor::seek_to`: moves the position anywhere
/// up to the end of the buffer, and refuses anything past it.
#[verifier::external_body]
pub(crate) fn seek_to(c: &mut WriteCursor, pos: usize) -> (r: Result<(), WriteError>)
    ensures
        r is Ok <==> pos <= dest_of(*old(c)).len(),
        dest_of(*final(c)) == dest_of(*old(c)),
        r is Ok ==> pos_of(*final(c)) == pos,
        r is Err ==> pos_of(*final(c)) == pos_of(*old(c)),
{
    c.seek_to(pos)
}


} // verus!
