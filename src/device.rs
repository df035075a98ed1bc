//! Read Device Identification: the server's pre-built object buffers, the
//! paged response that streams them within the PDU limit, and the client's
//! reading of such a response.
use vstd::prelude::*;

use scursor::{ReadCursor, WriteCursor};

use crate::codec::{after, patch, put_u8, reserve, too_short, Slot};
use crate::cursor::{
    dest_of, has_room, lemma_wrote_nothing, lemma_wrote_trans, pos_of, read_bytes, read_u8,
    read_remaining, spliced, unread, write_bytes, write_remaining, wrote,
};
use crate::error::{AduParseError, ExceptionCode, RequestError};
use crate::types::{
    conformity_byte, device_code_byte, is_conformity_byte, mei_code_from_u8,
    read_device_id_from_u8, MeiCode, ReadDeviceConformityLevel, ReadDeviceIdCode,
    ReadDeviceRequest,
};

verus! {

/// Room for the object list of one response: the 253 bytes of a PDU less
/// the function byte and the six header fields.
pub const OBJECT_BUDGET: usize = 246;

/// One identification object: its id and its bytes.
#[derive(Clone, Debug, PartialEq, Eq)]
pub struct InfoObject {
    pub id: u8,
    pub data: Vec<u8>,
}

impl InfoObject {
    /// Create a new object from its id and bytes.
    pub fn new(id: u8, data: Vec<u8>) -> (r: Self)
        ensures
            r.id == id,
            r.data@ == data@,
    {
        InfoObject { id, data }
    }

    /// The object as an id and a byte sequence.
    pub open spec fn view(&self) -> (u8, Seq<u8>) {
        (self.id, self.data@)
    }
}

/// The objects of a slice as ids and byte sequences.
pub open spec fn objects_of(objs: Seq<InfoObject>) -> Seq<(u8, Seq<u8>)> {
    Seq::new(objs.len(), |i: int| objs[i].view())
}

/// The bytes of one object: id, length, data.
pub open spec fn triple(o: (u8, Seq<u8>)) -> Seq<u8> {
    seq![o.0, o.1.len() as u8] + o.1
}

/// The bytes of a list of objects, one triple after another.
pub open spec fn encode_objects(objs: Seq<(u8, Seq<u8>)>) -> Seq<u8>
    decreases objs.len(),
{
    if objs.len() == 0 {
        Seq::empty()
    } else {
        encode_objects(objs.drop_last()) + triple(objs.last())
    }
}

/// Where object `i` starts in the bytes of the list.
pub open spec fn offset_of(objs: Seq<(u8, Seq<u8>)>, i: int) -> int {
    encode_objects(objs.subrange(0, i)).len() as int
}

/// The objects sent from `objs` within `budget` bytes, and the id of the
/// first one that did not fit, if any.
pub open spec fn page(objs: Seq<(u8, Seq<u8>)>, budget: int) -> (Seq<(u8, Seq<u8>)>, Option<u8>)
    decreases objs.len(),
{
    if objs.len() == 0 {
        (Seq::empty(), None)
    } else if 2 + objs[0].1.len() > budget {
        (Seq::empty(), Some(objs[0].0))
    } else {
        let rest = page(objs.drop_first(), budget - 2 - objs[0].1.len());
        (seq![objs[0]] + rest.0, rest.1)
    }
}

/// The body of a device identification response that streams `objs` from
/// the first on: interface type, device code, conformity level, more
/// follows, next object id, object count, then the objects that fit.
pub open spec fn response_bytes(code: u8, level: u8, objs: Seq<(u8, Seq<u8>)>) -> Seq<u8> {
    let (sent, next) = page(objs, OBJECT_BUDGET as int);
    seq![
        0x0Eu8,
        code,
        level,
        if next is Some { 0xFFu8 } else { 0x00u8 },
        match next {
            Some(id) => id,
            None => 0u8,
        },
        sent.len() as u8,
    ] + encode_objects(sent)
}

/// The list of `a` then `b` encodes as the bytes of `a` then those of `b`.
pub proof fn lemma_encode_concat(a: Seq<(u8, Seq<u8>)>, b: Seq<(u8, Seq<u8>)>)
    ensures
        encode_objects(a + b) == encode_objects(a) + encode_objects(b),
    decreases b.len(),
{
    if b.len() == 0 {
        assert(a + b =~= a);
        assert(encode_objects(a) + encode_objects(b) =~= encode_objects(a));
    } else {
        lemma_encode_concat(a, b.drop_last());
        assert((a + b).drop_last() =~= a + b.drop_last());
        assert((a + b).last() == b.last());
        assert(encode_objects(a) + encode_objects(b) =~= encode_objects(a) + encode_objects(
            b.drop_last(),
        ) + triple(b.last()));
    }
}

/// A list of one object encodes as its triple.
pub proof fn lemma_encode_one(o: (u8, Seq<u8>))
    ensures
        encode_objects(seq![o]) == triple(o),
        triple(o).len() == 2 + o.1.len(),
{
    let one = seq![o];
    assert(one.drop_last() =~= Seq::<(u8, Seq<u8>)>::empty());
    assert(encode_objects(one.drop_last()) =~= Seq::<u8>::empty());
    assert(encode_objects(one) =~= triple(o));
}

/// The bytes of a list start with those of its first object.
pub proof fn lemma_encode_front(objs: Seq<(u8, Seq<u8>)>)
    requires
        objs.len() > 0,
    ensures
        encode_objects(objs) == triple(objs[0]) + encode_objects(objs.drop_first()),
{
    let one = seq![objs[0]];
    lemma_encode_concat(one, objs.drop_first());
    assert(one + objs.drop_first() =~= objs);
    lemma_encode_one(objs[0]);
}

/// Object `i` starts at its offset, and the objects from `i` on fill the
/// bytes from there to the end.
pub proof fn lemma_offset(objs: Seq<(u8, Seq<u8>)>, i: int)
    requires
        0 <= i < objs.len(),
    ensures
        offset_of(objs, i + 1) == offset_of(objs, i) + triple(objs[i]).len(),
        encode_objects(objs).subrange(offset_of(objs, i), encode_objects(objs).len() as int)
            == triple(objs[i]) + encode_objects(objs.subrange(i + 1, objs.len() as int)),
{
    let head = objs.subrange(0, i);
    let tail = objs.subrange(i, objs.len() as int);
    lemma_encode_concat(head, tail);
    assert(head + tail =~= objs);
    lemma_encode_front(tail);
    assert(tail.drop_first() =~= objs.subrange(i + 1, objs.len() as int));
    assert(objs.subrange(0, i + 1).drop_last() =~= head);
    assert(encode_objects(objs).subrange(offset_of(objs, i), encode_objects(objs).len() as int)
        =~= encode_objects(tail));
}

/// Every object takes at least its two header bytes.
pub proof fn lemma_encode_len(objs: Seq<(u8, Seq<u8>)>)
    ensures
        encode_objects(objs).len() >= 2 * objs.len(),
    decreases objs.len(),
{
    if objs.len() > 0 {
        lemma_encode_len(objs.drop_last());
    }
}

/// The objects of a page take at most the budget.
pub proof fn lemma_page_fits(objs: Seq<(u8, Seq<u8>)>, budget: int)
    ensures
        encode_objects(page(objs, budget).0).len() <= if budget < 0 { 0 } else { budget },
        page(objs, budget).0.len() <= objs.len(),
    decreases objs.len(),
{
    if objs.len() > 0 && 2 + objs[0].1.len() <= budget {
        let rest = page(objs.drop_first(), budget - 2 - objs[0].1.len());
        lemma_page_fits(objs.drop_first(), budget - 2 - objs[0].1.len());
        lemma_encode_concat(seq![objs[0]], rest.0);
        lemma_encode_one(objs[0]);
    }
}

/// A page of `objs` is a page of its first object, if that fits, and then
/// a page of the rest within what is left.
pub proof fn lemma_page_step(objs: Seq<(u8, Seq<u8>)>, i: int, budget: int)
    requires
        0 <= i < objs.len(),
        2 + objs[i].1.len() <= budget,
    ensures
        page(objs.subrange(i, objs.len() as int), budget) == ({
            let rest = page(
                objs.subrange(i + 1, objs.len() as int),
                budget - 2 - objs[i].1.len(),
            );
            (seq![objs[i]] + rest.0, rest.1)
        }),
{
    let tail = objs.subrange(i, objs.len() as int);
    assert(tail.drop_first() =~= objs.subrange(i + 1, objs.len() as int));
    assert(tail[0] == objs[i]);
}

/// The page of what is left after `i` objects, written as what was sent
/// so far and the page of the objects from `i` on.
pub open spec fn page_so_far(
    objs: Seq<(u8, Seq<u8>)>,
    start: int,
    i: int,
    budget: int,
) -> bool {
    let p = page(objs.subrange(i, objs.len() as int), budget);
    page(objs.subrange(start, objs.len() as int), OBJECT_BUDGET as int) == (
    objs.subrange(start, i) + p.0, p.1)
}

/// Reasons why device identification objects cannot be served.
#[derive(Clone, Copy, Debug, PartialEq, Eq, Structural)]
pub enum DeviceInfoError {
    /// An object whose triple does not fit the 246 bytes of a page: its id.
    ObjectTooLarge(u8),
    /// An id used twice where ids must be unique.
    DuplicateObjectId(u8),
}

/// Object `i` cannot be served: its triple is longer than a page, or its
/// id was used before it.
pub open spec fn faulty(objs: Seq<(u8, Seq<u8>)>, i: int) -> bool {
    2 + objs[i].1.len() > OBJECT_BUDGET || exists|j: int| 0 <= j < i && objs[j].0 == objs[i].0
}

/// The error for a faulty object.
pub open spec fn fault_of(objs: Seq<(u8, Seq<u8>)>, i: int) -> DeviceInfoError {
    if 2 + objs[i].1.len() > OBJECT_BUDGET {
        DeviceInfoError::ObjectTooLarge(objs[i].0)
    } else {
        DeviceInfoError::DuplicateObjectId(objs[i].0)
    }
}

/// Every object can be served.
pub open spec fn servable(objs: Seq<(u8, Seq<u8>)>) -> bool {
    forall|i: int| 0 <= i < objs.len() ==> !#[trigger] faulty(objs, i)
}

/// The error for `objs` is the one of its first faulty object.
pub open spec fn first_fault(objs: Seq<(u8, Seq<u8>)>, e: DeviceInfoError) -> bool {
    exists|i: int|
        0 <= i < objs.len() && faulty(objs, i) && e == fault_of(objs, i) && (forall|j: int|
            0 <= j < i ==> !#[trigger] faulty(objs, j))
}

/// The index of the first object with id `id` from `i` on, or -1.
pub open spec fn find_from(objs: Seq<(u8, Seq<u8>)>, id: u8, i: int) -> int
    decreases objs.len() - i,
{
    if i < 0 || i >= objs.len() {
        -1
    } else if objs[i].0 == id {
        i
    } else {
        find_from(objs, id, i + 1)
    }
}

proof fn lemma_find_range(objs: Seq<(u8, Seq<u8>)>, id: u8, i: int)
    requires
        0 <= i,
    ensures
        find_from(objs, id, i) == -1 || (i <= find_from(objs, id, i) < objs.len() && objs[find_from(
            objs,
            id,
            i,
        )].0 == id),
    decreases objs.len() - i,
{
    if i < objs.len() && objs[i].0 != id {
        lemma_find_range(objs, id, i + 1);
    }
}

/// The objects of one category, pre-built into the bytes of a response.
pub struct ObjectCategory {
    /// The triples of all objects, in order.
    buffer: Vec<u8>,
    /// Each object's id and the offset of its triple in `buffer`.
    layout: Vec<(u8, usize)>,
    /// The objects as ids and byte sequences.
    objects: Ghost<Seq<(u8, Seq<u8>)>>,
}

impl ObjectCategory {
    /// The objects as ids and byte sequences.
    pub closed spec fn objs(&self) -> Seq<(u8, Seq<u8>)> {
        self.objects@
    }

    /// The buffer holds the objects' triples and the layout their offsets;
    /// every object fits a response and ids are unique.
    #[verifier::type_invariant]
    spec fn wf(&self) -> bool {
        let objs = self.objs();
        &&& self.buffer@ == encode_objects(objs)
        &&& self.layout@.len() == objs.len()
        &&& forall|i: int|
            0 <= i < objs.len() ==> #[trigger] self.layout@[i] == (objs[i].0, offset_of(objs, i) as usize)
        &&& servable(objs)
    }

    /// Builds the buffer and layout of `objs`, refusing an object that no
    /// response can hold and an id used twice.
    pub fn build(objs: &[InfoObject]) -> (r: Result<Self, DeviceInfoError>)
        ensures
            r is Ok <==> servable(objects_of(objs@)),
            r is Ok ==> r->Ok_0.objs() == objects_of(objs@),
            r is Err ==> first_fault(objects_of(objs@), r->Err_0),
    {
        let ghost all = objects_of(objs@);
        let mut buffer: Vec<u8> = Vec::new();
        let mut layout: Vec<(u8, usize)> = Vec::new();
        let mut i: usize = 0;
        while i < objs.len()
            invariant
                i <= objs@.len(),
                all == objects_of(objs@),
                buffer@ == encode_objects(all.subrange(0, i as int)),
                layout@.len() == i,
                forall|k: int|
                    0 <= k < i ==> #[trigger] layout@[k] == (all[k].0, offset_of(all, k) as usize),
                forall|k: int| 0 <= k < i ==> !#[trigger] faulty(all, k),
                forall|k: int| 0 <= k < i ==> 2 + all[k].1.len() <= OBJECT_BUDGET,
            decreases objs@.len() - i,
        {
            let obj = &objs[i];
            assert(all[i as int] == obj.view());
            if obj.data.len() > OBJECT_BUDGET - 2 {
                assert(faulty(all, i as int));
                return Err(DeviceInfoError::ObjectTooLarge(obj.id));
            }
            let mut k: usize = 0;
            while k < i
                invariant
                    k <= i,
                    i < objs@.len(),
                    all == objects_of(objs@),
                    all[i as int] == objs@[i as int].view(),
                    obj.id == all[i as int].0,
                    2 + all[i as int].1.len() <= OBJECT_BUDGET,
                    forall|m: int| 0 <= m < i ==> !#[trigger] faulty(all, m),
                    layout@.len() == i,
                    forall|m: int|
                        0 <= m < i ==> #[trigger] layout@[m] == (all[m].0, offset_of(all, m) as usize),
                    forall|m: int| 0 <= m < k ==> all[m].0 != all[i as int].0,
                decreases i - k,
            {
                if layout[k].0 == obj.id {
                    assert(layout@[k as int] == (all[k as int].0, offset_of(all, k as int) as usize));
                    assert(all[k as int].0 == all[i as int].0);
                    assert(faulty(all, i as int));
                    return Err(DeviceInfoError::DuplicateObjectId(obj.id));
                }
                assert(layout@[k as int] == (all[k as int].0, offset_of(all, k as int) as usize));
                k = k + 1;
            }
            let ghost before = buffer@;
            let offset = buffer.len();
            layout.push((obj.id, offset));
            buffer.push(obj.id);
            buffer.push(obj.data.len() as u8);
            let mut d: usize = 0;
            while d < obj.data.len()
                invariant
                    d <= obj.data@.len(),
                    buffer@ == before + seq![obj.id, obj.data@.len() as u8] + obj.data@.subrange(0, d as int),
                decreases obj.data@.len() - d,
            {
                buffer.push(obj.data[d]);
                proof {
                    assert(obj.data@.subrange(0, d as int).push(obj.data@[d as int]) =~= obj.data@.subrange(0, d + 1));
                }
                d = d + 1;
            }
            proof {
                assert(obj.data@.subrange(0, obj.data@.len() as int) =~= obj.data@);
                assert(all.subrange(0, i + 1).drop_last() =~= all.subrange(0, i as int));
                assert(all.subrange(0, i + 1).last() == all[i as int]);
                assert(!faulty(all, i as int));
            }
            i = i + 1;
        }
        proof {
            assert(all.subrange(0, objs@.len() as int) =~= all);
        }
        Ok(ObjectCategory { buffer, layout, objects: Ghost(all) })
    }

    /// The index of the object with id `id`, if there is one.
    pub fn find(&self, id: u8) -> (r: Option<usize>)
        ensures
            find_from(self.objs(), id, 0) == -1 ==> r is None,
            find_from(self.objs(), id, 0) != -1 ==> r == Some(find_from(self.objs(), id, 0) as usize),
    {
        proof {
            use_type_invariant(self);
        }
        let mut k: usize = 0;
        while k < self.layout.len()
            invariant
                self.wf(),
                k <= self.layout@.len(),
                find_from(self.objs(), id, 0) == find_from(self.objs(), id, k as int),
            decreases self.layout@.len() - k,
        {
            if self.layout[k].0 == id {
                return Some(k);
            }
            k = k + 1;
        }
        None
    }

    /// The number of objects.
    pub fn len(&self) -> (r: usize)
        ensures
            r == self.objs().len(),
    {
        proof {
            use_type_invariant(self);
        }
        self.layout.len()
    }
}

} // verus!

verus! {

/// The six header bytes of a response before the three last are known.
pub open spec fn reserved_header(code: u8, level: u8) -> Seq<u8> {
    seq![0x0Eu8, code, level, 0u8, 0u8, 0u8]
}

/// No object starts past the end of the bytes of the list.
pub proof fn lemma_offset_bound(objs: Seq<(u8, Seq<u8>)>, i: int)
    requires
        0 <= i <= objs.len(),
    ensures
        offset_of(objs, i) <= encode_objects(objs).len(),
        i == objs.len() ==> offset_of(objs, i) == encode_objects(objs).len(),
{
    lemma_encode_concat(objs.subrange(0, i), objs.subrange(i, objs.len() as int));
    assert(objs.subrange(0, i) + objs.subrange(i, objs.len() as int) =~= objs);
    assert(objs.subrange(0, objs.len() as int) =~= objs);
}

/// Writes the interface type, the device code and the level, and reserves
/// the three fields that the walk over the objects decides.
fn write_header(code: u8, level: u8, cursor: &mut WriteCursor) -> (r: Result<(Slot, Slot, Slot), RequestError>)
    ensures
        r is Ok <==> has_room(*old(cursor), 6),
        r is Ok ==> wrote(*old(cursor), *final(cursor), reserved_header(code, level)) && r->Ok_0.0.pos
            == pos_of(*old(cursor)) + 3 && r->Ok_0.1.pos == pos_of(*old(cursor)) + 4 && r->Ok_0.2.pos
            == pos_of(*old(cursor)) + 5,
        r is Err ==> r == Err::<(Slot, Slot, Slot), RequestError>(RequestError::no_room()),
{
    let ghost c0 = *cursor;
    if write_remaining(cursor) < 6 {
        return Err(RequestError::Internal(crate::error::InternalError::InsufficientWriteSpace));
    }
    put_u8(cursor, 0x0E)?;
    let ghost c1 = *cursor;
    put_u8(cursor, code)?;
    let ghost c2 = *cursor;
    put_u8(cursor, level)?;
    let ghost c3 = *cursor;
    let more_slot = reserve(cursor)?;
    let ghost c4 = *cursor;
    let next_slot = reserve(cursor)?;
    let ghost c5 = *cursor;
    let count_slot = reserve(cursor)?;
    proof {
        lemma_wrote_trans(c0, c1, c2, seq![0x0Eu8], seq![code]);
        assert(seq![0x0Eu8] + seq![code] =~= seq![0x0Eu8, code]);
        lemma_wrote_trans(c0, c2, c3, seq![0x0Eu8, code], seq![level]);
        assert(seq![0x0Eu8, code] + seq![level] =~= seq![0x0Eu8, code, level]);
        lemma_wrote_trans(c0, c3, c4, seq![0x0Eu8, code, level], seq![0u8]);
        assert(seq![0x0Eu8, code, level] + seq![0u8] =~= seq![0x0Eu8, code, level, 0u8]);
        lemma_wrote_trans(c0, c4, c5, seq![0x0Eu8, code, level, 0u8], seq![0u8]);
        assert(seq![0x0Eu8, code, level, 0u8] + seq![0u8] =~= seq![0x0Eu8, code, level, 0u8, 0u8]);
        lemma_wrote_trans(c0, c5, *cursor, seq![0x0Eu8, code, level, 0u8, 0u8], seq![0u8]);
        assert(seq![0x0Eu8, code, level, 0u8, 0u8] + seq![0u8] =~= reserved_header(code, level));
    }
    Ok((more_slot, next_slot, count_slot))
}

impl ObjectCategory {
    /// The id, length and data of object `i`, read at its offset.
    proof fn lemma_object_at(&self, i: int)
        requires
            self.wf(),
            0 <= i < self.objs().len(),
        ensures
            ({
                let objs = self.objs();
                let off = offset_of(objs, i);
                &&& off + 2 + objs[i].1.len() <= self.buffer@.len()
                &&& self.buffer@[off] == objs[i].0
                &&& self.buffer@[off + 1] == objs[i].1.len() as u8
                &&& self.buffer@.subrange(off + 2, off + 2 + objs[i].1.len()) == objs[i].1
                &&& offset_of(objs, i + 1) == off + 2 + objs[i].1.len()
            }),
    {
        let objs = self.objs();
        let off = offset_of(objs, i);
        let len = objs[i].1.len();
        lemma_offset(objs, i);
        lemma_offset_bound(objs, i);
        lemma_encode_one(objs[i]);
        let buf = self.buffer@;
        let tail = buf.subrange(off, buf.len() as int);
        let t = triple(objs[i]);
        let rest = encode_objects(objs.subrange(i + 1, objs.len() as int));
        assert(tail == t + rest);
        assert(tail.len() == buf.len() - off);
        assert(t.len() == 2 + len);
        assert(off + 2 + len <= buf.len());
        assert(buf[off] == tail[0]);
        assert(buf[off + 1] == tail[1]);
        assert((t + rest)[0] == t[0]);
        assert((t + rest)[1] == t[1]);
        assert forall|k: int| 0 <= k < len implies buf[off + 2 + k] == objs[i].1[k] by {
            assert(buf[off + 2 + k] == tail[2 + k]);
            assert((t + rest)[2 + k] == t[2 + k]);
        }
        assert(buf.subrange(off + 2, off + 2 + len) =~= objs[i].1);
    }

    /// Writes the objects from index `start` on while each triple fits in
    /// what is left of the 246 bytes; returns how many it wrote and the id
    /// of the first one left out, if any.
    fn walk(&self, start: usize, cursor: &mut WriteCursor) -> (r: Result<(u8, Option<u8>), RequestError>)
        requires
            start <= self.objs().len(),
        ensures
            ({
                let whole = page(self.objs().subrange(start as int, self.objs().len() as int), OBJECT_BUDGET as int);
                &&& has_room(*old(cursor), encode_objects(whole.0).len() as int) ==> r is Ok
                &&& r is Ok ==> r->Ok_0 == (whole.0.len() as u8, whole.1) && wrote(*old(cursor), *final(cursor), encode_objects(whole.0))
                    && has_room(*old(cursor), encode_objects(whole.0).len() as int)
                &&& r is Err ==> r == Err::<(u8, Option<u8>), RequestError>(RequestError::no_room())
            }),
    {
        proof {
            use_type_invariant(self);
        }
        let ghost c0 = *cursor;
        let ghost objs = self.objs();
        let ghost n = objs.len() as int;
        let ghost whole = page(objs.subrange(start as int, n), OBJECT_BUDGET as int);
        let _ = write_remaining(cursor);
        proof {
            lemma_page_fits(objs.subrange(start as int, n), OBJECT_BUDGET as int);
            lemma_wrote_nothing(c0);
            assert(objs.subrange(start as int, start as int) =~= Seq::<(u8, Seq<u8>)>::empty());
            assert(encode_objects(Seq::<(u8, Seq<u8>)>::empty()) =~= Seq::<u8>::empty());
            lemma_offset_bound(objs, start as int);
            if (start as int) < n {
                assert(self.layout@[start as int] == (objs[start as int].0, offset_of(objs, start as int) as usize));
            }
            assert(objs.subrange(start as int, n) + Seq::<(u8, Seq<u8>)>::empty() =~= objs.subrange(start as int, n));
        }
        let mut off: usize = self.buffer.len();
        if start < self.layout.len() {
            off = self.layout[start].1;
        }
        let mut i: usize = start;
        let mut budget: usize = OBJECT_BUDGET;
        let mut written: u8 = 0;
        let mut next_id: Option<u8> = None;
        let mut stopped = false;
        while i < self.layout.len() && !stopped
            invariant
                self.wf(),
                objs == self.objs(),
                n == objs.len(),
                start <= i <= n,
                whole == page(objs.subrange(start as int, n), OBJECT_BUDGET as int),
                off == offset_of(objs, i as int),
                budget <= OBJECT_BUDGET,
                budget == OBJECT_BUDGET - encode_objects(objs.subrange(start as int, i as int)).len(),
                page_so_far(objs, start as int, i as int, budget as int),
                written == i - start,
                c0 == *old(cursor),
                wrote(c0, *cursor, encode_objects(objs.subrange(start as int, i as int))),
                dest_of(*cursor).len() == dest_of(c0).len(),
                encode_objects(objs.subrange(start as int, i as int)).len() + encode_objects(
                    page(objs.subrange(i as int, n), budget as int).0,
                ).len() == encode_objects(whole.0).len(),
                stopped ==> i < n && next_id == Some(objs[i as int].0) && 2 + objs[i as int].1.len()
                    > budget,
                !stopped ==> next_id is None,
            decreases n - i + (if stopped { 0int } else { 1int }),
        {
            let ghost before = *cursor;
            proof {
                self.lemma_object_at(i as int);
                assert(!faulty(objs, i as int));
            }
            let _ = self.buffer.len();
            let id = self.buffer[off];
            let len = self.buffer[off + 1] as usize;
            if 2 + len > budget {
                next_id = Some(id);
                stopped = true;
            } else {
                proof {
                    lemma_page_step(objs, i as int, budget as int);
                    let rest = page(objs.subrange(i + 1, n), budget - 2 - len);
                    lemma_encode_one(objs[i as int]);
                    lemma_encode_concat(seq![objs[i as int]], rest.0);
                    lemma_encode_concat(objs.subrange(start as int, i as int), seq![objs[i as int]]);
                    assert(objs.subrange(start as int, i as int) + seq![objs[i as int]] =~= objs.subrange(start as int, i + 1));
                    assert(objs.subrange(start as int, i as int) + (seq![objs[i as int]] + rest.0) =~= objs.subrange(start as int, i + 1) + rest.0);
                    lemma_encode_len(objs.subrange(start as int, i + 1));
                }
                assert(encode_objects(objs.subrange(start as int, i as int)).len() + 2 + len
                    <= encode_objects(whole.0).len());
                if write_remaining(cursor) < 2 + len {
                    assert(pos_of(*cursor) == pos_of(c0) + encode_objects(objs.subrange(start as int, i as int)).len());
                    assert(!has_room(c0, encode_objects(whole.0).len() as int));
                    return Err(RequestError::Internal(crate::error::InternalError::InsufficientWriteSpace));
                }
                put_u8(cursor, id)?;
                let ghost b1 = *cursor;
                put_u8(cursor, len as u8)?;
                let ghost b2 = *cursor;
                let data = vstd::slice::slice_subrange(self.buffer.as_slice(), off + 2, off + 2 + len);
                match write_bytes(cursor, data) {
                    Ok(()) => {},
                    Err(_) => {
                        return Err(RequestError::Internal(crate::error::InternalError::InsufficientWriteSpace));
                    },
                }
                proof {
                    lemma_wrote_trans(before, b1, b2, seq![id], seq![len as u8]);
                    assert(seq![id] + seq![len as u8] =~= seq![id, len as u8]);
                    lemma_wrote_trans(before, b2, *cursor, seq![id, len as u8], data@);
                    assert(seq![id, len as u8] + data@ =~= triple(objs[i as int]));
                    lemma_wrote_trans(
                        c0,
                        before,
                        *cursor,
                        encode_objects(objs.subrange(start as int, i as int)),
                        triple(objs[i as int]),
                    );
                }
                budget = budget - 2 - len;
                written = written + 1;
                off = off + 2 + len;
                i = i + 1;
            }
        }
        proof {
            if !stopped {
                assert(objs.subrange(i as int, n) =~= Seq::<(u8, Seq<u8>)>::empty());
            } else {
                assert(objs.subrange(i as int, n)[0] == objs[i as int]);
            }
            assert(objs.subrange(start as int, i as int) + Seq::<(u8, Seq<u8>)>::empty() =~= objs.subrange(start as int, i as int));
        }
        let _ = write_remaining(cursor);
        Ok((written, next_id))
    }

    /// Writes the response body that streams the objects from index `start`
    /// on: the header, then each object while its triple fits in what is
    /// left of the 246 bytes; the three last header fields are patched once
    /// the walk has ended.
    pub fn write_page(&self, start: usize, code: u8, level: u8, cursor: &mut WriteCursor) -> (r: Result<(), RequestError>)
        requires
            start <= self.objs().len(),
        ensures
            has_room(
                *old(cursor),
                response_bytes(code, level, self.objs().subrange(start as int, self.objs().len() as int)).len() as int,
            ) ==> r is Ok,
            r is Ok ==> wrote(
                *old(cursor),
                *final(cursor),
                response_bytes(code, level, self.objs().subrange(start as int, self.objs().len() as int)),
            ),
            r is Ok ==> has_room(
                *old(cursor),
                response_bytes(code, level, self.objs().subrange(start as int, self.objs().len() as int)).len() as int,
            ),
            r is Err ==> r == Err::<(), RequestError>(RequestError::no_room()),
    {
        proof {
            use_type_invariant(self);
        }
        let ghost c0 = *cursor;
        let ghost objs = self.objs();
        let ghost whole = page(objs.subrange(start as int, objs.len() as int), OBJECT_BUDGET as int);
        let (more_slot, next_slot, count_slot) = write_header(code, level, cursor)?;
        let ghost c_hdr = *cursor;
        let (written, next_id) = self.walk(start, cursor)?;
        let ghost c_end = *cursor;
        let more: u8 = if next_id.is_some() {
            0xFF
        } else {
            0x00
        };
        let next: u8 = match next_id {
            Some(id) => id,
            None => 0x00,
        };
        patch(cursor, more_slot, more);
        patch(cursor, next_slot, next);
        patch(cursor, count_slot, written);
        proof {
            let body = encode_objects(whole.0);
            lemma_wrote_trans(c0, c_hdr, c_end, reserved_header(code, level), body);
            let p0 = pos_of(c0) as int;
            let d0 = dest_of(c0);
            let full = response_bytes(code, level, objs.subrange(start as int, objs.len() as int));
            assert(full =~= seq![0x0Eu8, code, level, more, next, written] + body);
            assert(spliced(d0, p0, reserved_header(code, level) + body).update(p0 + 3, more).update(
                p0 + 4,
                next,
            ).update(p0 + 5, written) =~= spliced(d0, p0, full));
        }
        Ok(())
    }
}

} // verus!

verus! {

/// No object of `objs` has id `id`.
pub open spec fn lacks(objs: Seq<(u8, Seq<u8>)>, id: u8) -> bool {
    forall|k: int| 0 <= k < objs.len() ==> #[trigger] objs[k].0 != id
}

proof fn lemma_find_none(objs: Seq<(u8, Seq<u8>)>, id: u8, i: int)
    requires
        0 <= i,
    ensures
        find_from(objs, id, i) == -1 <==> (forall|k: int| i <= k < objs.len() ==> #[trigger] objs[k].0 != id),
    decreases objs.len() - i,
{
    lemma_find_range(objs, id, i);
    if i < objs.len() && objs[i].0 != id {
        lemma_find_none(objs, id, i + 1);
    }
}

/// No id is shared by two categories.
pub open spec fn disjoint_ids(
    basic: Seq<(u8, Seq<u8>)>,
    regular: Seq<(u8, Seq<u8>)>,
    extended: Seq<(u8, Seq<u8>)>,
) -> bool {
    &&& forall|j: int| 0 <= j < regular.len() ==> lacks(basic, #[trigger] regular[j].0)
    &&& forall|j: int|
        0 <= j < extended.len() ==> lacks(basic, #[trigger] extended[j].0) && lacks(regular, extended[j].0)
}

/// The index to start a streamed read at: the object asked for if the
/// category has it, else the first.
pub open spec fn start_in(objs: Seq<(u8, Seq<u8>)>, obj: Option<u8>) -> int {
    match obj {
        Some(id) => if find_from(objs, id, 0) == -1 {
            0
        } else {
            find_from(objs, id, 0)
        },
        None => 0,
    }
}

/// The device identification a server offers: its basic, regular and
/// extended objects, and whether single objects can be read.
pub struct ServerDeviceInfo {
    basic: ObjectCategory,
    regular: ObjectCategory,
    extended: ObjectCategory,
    individual: bool,
}

impl ServerDeviceInfo {
    /// With single-object reads, no id is in two categories.
    #[verifier::type_invariant]
    spec fn wf(&self) -> bool {
        self.individual ==> disjoint_ids(
            self.basic.objs(),
            self.regular.objs(),
            self.extended.objs(),
        )
    }

    /// Single objects can be read.
    pub closed spec fn individual_access(&self) -> bool {
        self.individual
    }

    /// The basic objects.
    pub closed spec fn basic_objs(&self) -> Seq<(u8, Seq<u8>)> {
        self.basic.objs()
    }

    /// The regular objects.
    pub closed spec fn regular_objs(&self) -> Seq<(u8, Seq<u8>)> {
        self.regular.objs()
    }

    /// The extended objects.
    pub closed spec fn extended_objs(&self) -> Seq<(u8, Seq<u8>)> {
        self.extended.objs()
    }

    /// Category 0, 1 or 2: basic, regular, extended.
    pub open spec fn category_objs(&self, c: int) -> Seq<(u8, Seq<u8>)> {
        if c == 0 {
            self.basic_objs()
        } else if c == 1 {
            self.regular_objs()
        } else {
            self.extended_objs()
        }
    }

    /// The conformity level byte: 1, 2 or 3 by the highest category that
    /// holds objects, with 0x80 added when single objects can be read.
    pub open spec fn level_byte(&self) -> u8 {
        let base: u8 = if self.extended_objs().len() > 0 {
            3
        } else if self.regular_objs().len() > 0 {
            2
        } else {
            1
        };
        if self.individual_access() {
            (base + 0x80) as u8
        } else {
            base
        }
    }

    /// The category and first object that a request reads, or the
    /// exception it is refused with.
    pub open spec fn selection(&self, request: ReadDeviceRequest) -> Result<(int, int), ExceptionCode> {
        if request.mei_code != MeiCode::ReadDeviceId {
            Err(ExceptionCode::IllegalDataValue)
        } else {
            match request.dev_id {
                ReadDeviceIdCode::BasicStreaming => Ok((0, start_in(self.basic_objs(), request.obj_id))),
                ReadDeviceIdCode::RegularStreaming => Ok(
                    (1, start_in(self.regular_objs(), request.obj_id)),
                ),
                ReadDeviceIdCode::ExtendedStreaming => Ok(
                    (2, start_in(self.extended_objs(), request.obj_id)),
                ),
                ReadDeviceIdCode::Specific => {
                    if !self.individual_access() {
                        Err(ExceptionCode::IllegalDataAddress)
                    } else {
                        match request.obj_id {
                            None => Err(ExceptionCode::IllegalDataAddress),
                            Some(id) => if find_from(self.basic_objs(), id, 0) != -1 {
                                Ok((0, find_from(self.basic_objs(), id, 0)))
                            } else if find_from(self.regular_objs(), id, 0) != -1 {
                                Ok((1, find_from(self.regular_objs(), id, 0)))
                            } else if find_from(self.extended_objs(), id, 0) != -1 {
                                Ok((2, find_from(self.extended_objs(), id, 0)))
                            } else {
                                Err(ExceptionCode::IllegalDataAddress)
                            },
                        }
                    }
                },
            }
        }
    }

    /// The body of the response to `request`, when it is not refused.
    pub open spec fn response_to(&self, request: ReadDeviceRequest) -> Seq<u8> {
        let (c, start) = self.selection(request)->Ok_0;
        let objs = self.category_objs(c);
        response_bytes(
            device_code_byte(request.dev_id),
            self.level_byte(),
            objs.subrange(start, objs.len() as int),
        )
    }

    /// Builds the server's objects from the three categories, refusing an
    /// object no response can hold, an id used twice in a category and, when
    /// single objects can be read, an id used in two categories.
    pub fn new(
        basic: &[InfoObject],
        regular: &[InfoObject],
        extended: &[InfoObject],
        individual: bool,
    ) -> (r: Result<Self, DeviceInfoError>)
        ensures
            r is Ok <==> servable(objects_of(basic@)) && servable(objects_of(regular@)) && servable(
                objects_of(extended@),
            ) && (individual ==> disjoint_ids(
                objects_of(basic@),
                objects_of(regular@),
                objects_of(extended@),
            )),
            r is Ok ==> r->Ok_0.basic_objs() == objects_of(basic@) && r->Ok_0.regular_objs()
                == objects_of(regular@) && r->Ok_0.extended_objs() == objects_of(extended@)
                && r->Ok_0.individual_access() == individual,
            r is Err && !servable(objects_of(basic@)) ==> first_fault(objects_of(basic@), r->Err_0),
            r is Err && servable(objects_of(basic@)) && !servable(objects_of(regular@)) ==> first_fault(
                objects_of(regular@),
                r->Err_0,
            ),
            r is Err && servable(objects_of(basic@)) && servable(objects_of(regular@)) && !servable(
                objects_of(extended@),
            ) ==> first_fault(objects_of(extended@), r->Err_0),
            r is Err && servable(objects_of(basic@)) && servable(objects_of(regular@)) && servable(
                objects_of(extended@),
            ) ==> r->Err_0 is DuplicateObjectId && ((exists|j: int|
                0 <= j < regular@.len() && regular@[j].id == r->Err_0->DuplicateObjectId_0 && !lacks(
                    objects_of(basic@),
                    regular@[j].id,
                )) || (exists|j: int|
                0 <= j < extended@.len() && extended@[j].id == r->Err_0->DuplicateObjectId_0 && (
                !lacks(objects_of(basic@), extended@[j].id) || !lacks(
                    objects_of(regular@),
                    extended@[j].id,
                )))),
    {
        let basic_objects = ObjectCategory::build(basic)?;
        let regular_objects = ObjectCategory::build(regular)?;
        let extended_objects = ObjectCategory::build(extended)?;
        proof {
            use_type_invariant(&basic_objects);
            use_type_invariant(&regular_objects);
            use_type_invariant(&extended_objects);
        }
        if individual {
            let mut j: usize = 0;
            while j < regular_objects.layout.len()
                invariant
                    basic_objects.wf(),
                    regular_objects.wf(),
                    extended_objects.wf(),
                    individual,
                    basic_objects.objs() == objects_of(basic@),
                    regular_objects.objs() == objects_of(regular@),
                    extended_objects.objs() == objects_of(extended@),
                    j <= regular_objects.objs().len(),
                    forall|m: int| 0 <= m < j ==> lacks(basic_objects.objs(), #[trigger] regular_objects.objs()[m].0),
                decreases regular_objects.objs().len() - j,
            {
                let id = regular_objects.layout[j].0;
                assert(regular_objects.layout@[j as int] == (regular_objects.objs()[j as int].0, offset_of(regular_objects.objs(), j as int) as usize));
                proof {
                    lemma_find_none(basic_objects.objs(), id, 0);
                }
                if basic_objects.find(id).is_some() {
                    assert(regular@[j as int].id == id);
                    assert(!lacks(basic_objects.objs(), regular_objects.objs()[j as int].0));
                    return Err(DeviceInfoError::DuplicateObjectId(id));
                }
                j = j + 1;
            }
            let mut j: usize = 0;
            while j < extended_objects.layout.len()
                invariant
                    basic_objects.wf(),
                    regular_objects.wf(),
                    extended_objects.wf(),
                    basic_objects.objs() == objects_of(basic@),
                    regular_objects.objs() == objects_of(regular@),
                    extended_objects.objs() == objects_of(extended@),
                    individual,
                    j <= extended_objects.objs().len(),
                    forall|m: int|
                        0 <= m < j ==> lacks(basic_objects.objs(), #[trigger] extended_objects.objs()[m].0) && lacks(
                            regular_objects.objs(),
                            extended_objects.objs()[m].0,
                        ),
                decreases extended_objects.objs().len() - j,
            {
                let id = extended_objects.layout[j].0;
                assert(extended_objects.layout@[j as int] == (extended_objects.objs()[j as int].0, offset_of(extended_objects.objs(), j as int) as usize));
                proof {
                    lemma_find_none(basic_objects.objs(), id, 0);
                    lemma_find_none(regular_objects.objs(), id, 0);
                }
                if basic_objects.find(id).is_some() || regular_objects.find(id).is_some() {
                    assert(extended@[j as int].id == id);
                    assert(!lacks(basic_objects.objs(), extended_objects.objs()[j as int].0) || !lacks(
                        regular_objects.objs(),
                        extended_objects.objs()[j as int].0,
                    ));
                    return Err(DeviceInfoError::DuplicateObjectId(id));
                }
                j = j + 1;
            }
        }
        Ok(ServerDeviceInfo {
            basic: basic_objects,
            regular: regular_objects,
            extended: extended_objects,
            individual,
        })
    }

    /// The conformity level this server advertises.
    pub fn conformity_level(&self) -> (r: ReadDeviceConformityLevel)
        ensures
            conformity_byte(r) == self.level_byte(),
    {
        proof {
            use_type_invariant(self);
            use_type_invariant(&self.basic);
            use_type_invariant(&self.regular);
            use_type_invariant(&self.extended);
        }
        let has_extended = self.extended.layout.len() > 0;
        let has_regular = self.regular.layout.len() > 0;
        if has_extended {
            if self.individual {
                ReadDeviceConformityLevel::ExtendedIdentificationIndividual
            } else {
                ReadDeviceConformityLevel::ExtendedIdentificationStream
            }
        } else if has_regular {
            if self.individual {
                ReadDeviceConformityLevel::RegularIdentificationIndividual
            } else {
                ReadDeviceConformityLevel::RegularIdentificationStream
            }
        } else if self.individual {
            ReadDeviceConformityLevel::BasicIdentificationIndividual
        } else {
            ReadDeviceConformityLevel::BasicIdentificationStream
        }
    }
}

} // verus!

verus! {

impl ServerDeviceInfo {
    /// The index to start a streamed read of `cat` at.
    fn start_of(cat: &ObjectCategory, obj: Option<u8>) -> (r: usize)
        ensures
            r == start_in(cat.objs(), obj),
            r <= cat.objs().len(),
    {
        proof {
            use_type_invariant(cat);
        }
        let _ = cat.len();
        match obj {
            Some(id) => {
                proof {
                    lemma_find_range(cat.objs(), id, 0);
                }
                match cat.find(id) {
                    Some(i) => i,
                    None => 0,
                }
            },
            None => 0,
        }
    }

    /// Writes the response body to a device identification request, or
    /// returns the exception the request is refused with, writing nothing.
    pub fn read_device_identification(&self, request: &ReadDeviceRequest, cursor: &mut WriteCursor) -> (r: Result<(), RequestError>)
        ensures
            match self.selection(*request) {
                Err(e) => r == Err::<(), RequestError>(RequestError::Exception(e)) && *final(cursor) == *old(cursor),
                Ok(_) => {
                    &&& has_room(*old(cursor), self.response_to(*request).len() as int) ==> r is Ok
                    &&& r is Ok ==> wrote(*old(cursor), *final(cursor), self.response_to(*request))
                    &&& r is Ok ==> has_room(*old(cursor), self.response_to(*request).len() as int)
                    &&& r is Err ==> r == Err::<(), RequestError>(RequestError::no_room())
                },
            },
    {
        proof {
            use_type_invariant(self);
            use_type_invariant(&self.basic);
            use_type_invariant(&self.regular);
            use_type_invariant(&self.extended);
        }
        if request.mei_code != MeiCode::ReadDeviceId {
            return Err(RequestError::Exception(ExceptionCode::IllegalDataValue));
        }
        let code = request.dev_id.to_u8();
        let level = self.conformity_level().to_u8();
        match request.dev_id {
            ReadDeviceIdCode::BasicStreaming => {
                let start = Self::start_of(&self.basic, request.obj_id);
                self.basic.write_page(start, code, level, cursor)
            },
            ReadDeviceIdCode::RegularStreaming => {
                let start = Self::start_of(&self.regular, request.obj_id);
                self.regular.write_page(start, code, level, cursor)
            },
            ReadDeviceIdCode::ExtendedStreaming => {
                let start = Self::start_of(&self.extended, request.obj_id);
                self.extended.write_page(start, code, level, cursor)
            },
            ReadDeviceIdCode::Specific => {
                if !self.individual {
                    return Err(RequestError::Exception(ExceptionCode::IllegalDataAddress));
                }
                let id = match request.obj_id {
                    Some(id) => id,
                    None => {
                        return Err(RequestError::Exception(ExceptionCode::IllegalDataAddress));
                    },
                };
                let _ = self.basic.len();
                let _ = self.regular.len();
                let _ = self.extended.len();
                proof {
                    lemma_find_range(self.basic.objs(), id, 0);
                    lemma_find_range(self.regular.objs(), id, 0);
                    lemma_find_range(self.extended.objs(), id, 0);
                }
                match self.basic.find(id) {
                    Some(i) => {
                        return self.basic.write_page(i, code, level, cursor);
                    },
                    None => {},
                }
                match self.regular.find(id) {
                    Some(i) => {
                        return self.regular.write_page(i, code, level, cursor);
                    },
                    None => {},
                }
                match self.extended.find(id) {
                    Some(i) => self.extended.write_page(i, code, level, cursor),
                    None => Err(RequestError::Exception(ExceptionCode::IllegalDataAddress)),
                }
            },
        }
    }
}

/// Every response body: the more-follows byte is 0x00 or 0xFF, the object
/// count is the number of triples that follow, and the body takes at most
/// 252 bytes, so that with the function byte the PDU takes at most 253.
pub proof fn lemma_response_shape(code: u8, level: u8, objs: Seq<(u8, Seq<u8>)>)
    ensures
        ({
            let b = response_bytes(code, level, objs);
            let (sent, next) = page(objs, OBJECT_BUDGET as int);
            &&& b[3] == 0x00 || b[3] == 0xFF
            &&& b[5] == sent.len()
            &&& b.subrange(6, b.len() as int) == encode_objects(sent)
            &&& b.len() <= 252
            &&& 1 + b.len() <= 253
        }),
{
    let b = response_bytes(code, level, objs);
    let (sent, next) = page(objs, OBJECT_BUDGET as int);
    lemma_page_fits(objs, OBJECT_BUDGET as int);
    lemma_encode_len(sent);
    assert(b.subrange(6, b.len() as int) =~= encode_objects(sent));
}


} // verus!

verus! {

/// The `count` objects at the front of `s`, which must be all of it.
pub open spec fn decode_objects(s: Seq<u8>, count: nat) -> Result<Seq<(u8, Seq<u8>)>, RequestError>
    decreases count,
{
    if count == 0 {
        if s.len() == 0 {
            Ok(Seq::empty())
        } else {
            Err(RequestError::BadResponse(AduParseError::TrailingBytes(s.len() as usize)))
        }
    } else if s.len() < 2 {
        Err(RequestError::insufficient())
    } else if s.len() - 2 < s[1] {
        Err(RequestError::insufficient())
    } else {
        match decode_objects(after(s, 2 + s[1]), (count - 1) as nat) {
            Ok(rest) => Ok(seq![(s[0], s.subrange(2, 2 + s[1]))] + rest),
            Err(e) => Err(e),
        }
    }
}

/// A device identification response body: the device code, the
/// conformity level, where to continue, and the objects.
pub open spec fn decode_device_info(s: Seq<u8>) -> Result<
    (u8, u8, Option<u8>, Seq<(u8, Seq<u8>)>),
    RequestError,
> {
    if s.len() < 1 {
        Err(RequestError::insufficient())
    } else if s[0] != 0x0E {
        Err(RequestError::BadResponse(AduParseError::MeiCodeOutOfRange(s[0])))
    } else if s.len() < 2 {
        Err(RequestError::insufficient())
    } else if !(1 <= s[1] <= 4) {
        Err(RequestError::BadResponse(AduParseError::DeviceCodeOutOfRange(s[1])))
    } else if s.len() < 3 {
        Err(RequestError::insufficient())
    } else if !is_conformity_byte(s[2]) {
        Err(RequestError::BadResponse(AduParseError::ConformityLevelOutOfRange(s[2])))
    } else if s.len() < 4 {
        Err(RequestError::insufficient())
    } else if s[3] != 0x00 && s[3] != 0xFF {
        Err(RequestError::BadResponse(AduParseError::MoreFollowsOutOfRange(s[3])))
    } else if s.len() < 6 {
        Err(RequestError::insufficient())
    } else {
        match decode_objects(after(s, 6), s[5] as nat) {
            Ok(objs) => Ok(
                (
                    s[1],
                    s[2],
                    if s[3] == 0xFF {
                        Some(s[4])
                    } else {
                        None
                    },
                    objs,
                ),
            ),
            Err(e) => Err(e),
        }
    }
}

/// Reading back the bytes of objects gives the objects.
pub proof fn lemma_objects_round_trip(objs: Seq<(u8, Seq<u8>)>)
    requires
        forall|i: int| 0 <= i < objs.len() ==> (#[trigger] objs[i]).1.len() <= 255,
    ensures
        decode_objects(encode_objects(objs), objs.len()) == Ok::<Seq<(u8, Seq<u8>)>, RequestError>(objs),
    decreases objs.len(),
{
    if objs.len() == 0 {
        assert(encode_objects(objs) =~= Seq::<u8>::empty());
        assert(objs =~= Seq::<(u8, Seq<u8>)>::empty());
    } else {
        let s = encode_objects(objs);
        let rest = objs.drop_first();
        lemma_encode_front(objs);
        assert forall|i: int| 0 <= i < rest.len() implies (#[trigger] rest[i]).1.len() <= 255 by {
            assert(rest[i] == objs[i + 1]);
        }
        lemma_objects_round_trip(rest);
        let o = objs[0];
        assert(objs[0].1.len() <= 255);
        lemma_encode_one(o);
        assert(s.len() == 2 + o.1.len() + encode_objects(rest).len());
        assert(s[0] == triple(o)[0]);
        assert(s[1] == triple(o)[1]);
        assert(s[0] == o.0);
        assert(s[1] == o.1.len() as u8);
        assert(after(s, 2 + s[1]) =~= encode_objects(rest));
        assert(s.subrange(2, 2 + s[1]) =~= o.1);
        assert(seq![(s[0], s.subrange(2, 2 + s[1]))] + rest =~= objs);
        assert((objs.len() - 1) as nat == rest.len());
        assert(decode_objects(after(s, 2 + s[1]), (objs.len() - 1) as nat) == Ok::<Seq<(u8, Seq<u8>)>, RequestError>(rest));
    }
}

/// Reading back a response body gives its device code, level, the id to
/// continue at when more follows, and the objects it carries.
pub proof fn lemma_device_response_round_trip(code: u8, level: u8, objs: Seq<(u8, Seq<u8>)>)
    requires
        1 <= code <= 4,
        is_conformity_byte(level),
        forall|i: int| 0 <= i < objs.len() ==> (#[trigger] objs[i]).1.len() <= 255,
    ensures
        decode_device_info(response_bytes(code, level, objs)) == Ok::<
            (u8, u8, Option<u8>, Seq<(u8, Seq<u8>)>),
            RequestError,
        >((code, level, page(objs, OBJECT_BUDGET as int).1, page(objs, OBJECT_BUDGET as int).0)),
{
    let (sent, next) = page(objs, OBJECT_BUDGET as int);
    let b = response_bytes(code, level, objs);
    lemma_page_sub(objs, OBJECT_BUDGET as int);
    lemma_page_fits(objs, OBJECT_BUDGET as int);
    lemma_encode_len(sent);
    lemma_objects_round_trip(sent);
    assert(after(b, 6) =~= encode_objects(sent));
}

/// The objects of a page are objects of the list it was taken from.
pub proof fn lemma_page_sub(objs: Seq<(u8, Seq<u8>)>, budget: int)
    ensures
        forall|i: int|
            0 <= i < page(objs, budget).0.len() ==> exists|j: int|
                0 <= j < objs.len() && #[trigger] page(objs, budget).0[i] == objs[j],
    decreases objs.len(),
{
    if objs.len() > 0 && 2 + objs[0].1.len() <= budget {
        let rest = objs.drop_first();
        let b2 = budget - 2 - objs[0].1.len();
        lemma_page_sub(rest, b2);
        let p = page(objs, budget).0;
        assert forall|i: int| 0 <= i < p.len() implies exists|j: int|
            0 <= j < objs.len() && #[trigger] p[i] == objs[j] by {
            if i == 0 {
                assert(p[0] == objs[0]);
            } else {
                assert(p[i] == page(rest, b2).0[i - 1]);
                let j = choose|j: int| 0 <= j < rest.len() && page(rest, b2).0[i - 1] == rest[j];
                assert(rest[j] == objs[j + 1]);
            }
        }
    }
}

/// A device identification response, as read by a client.
#[derive(Debug, PartialEq, Eq)]
pub struct DeviceInfo {
    /// Always Read Device Identification.
    pub mei_code: MeiCode,
    /// The part of the identification that was read.
    pub read_device_id: ReadDeviceIdCode,
    /// The identification the server grants.
    pub conformity_level: ReadDeviceConformityLevel,
    /// The object to ask for next when more follows.
    pub continue_at: Option<u8>,
    /// The objects of this response, in order.
    pub storage: Vec<InfoObject>,
}

impl DeviceInfo {
    /// Creates an empty response from the bytes of its header fields.
    pub fn new(mei_code: u8, device_id: u8, conformity_level: u8) -> (r: Self)
        requires
            mei_code == 0x0D || mei_code == 0x0E,
            1 <= device_id <= 4,
            is_conformity_byte(conformity_level),
        ensures
            crate::types::mei_byte(r.mei_code) == mei_code,
            device_code_byte(r.read_device_id) == device_id,
            conformity_byte(r.conformity_level) == conformity_level,
            r.continue_at is None,
            r.storage@.len() == 0,
    {
        let mei = match mei_code_from_u8(mei_code) {
            Ok(m) => m,
            Err(_) => MeiCode::ReadDeviceId,
        };
        let code = match read_device_id_from_u8(device_id) {
            Ok(c) => c,
            Err(_) => ReadDeviceIdCode::BasicStreaming,
        };
        let level = match ReadDeviceConformityLevel::from_u8(conformity_level) {
            Ok(l) => l,
            Err(_) => ReadDeviceConformityLevel::BasicIdentificationStream,
        };
        DeviceInfo {
            mei_code: mei,
            read_device_id: code,
            conformity_level: level,
            continue_at: None,
            storage: Vec::new(),
        }
    }

    /// The index of the first object that does not fit, with the ones
    /// before it, in `max_msg_size` bytes (two of them per object for its
    /// id and length); `None` when all fit.
    pub fn response_message_count(&self, max_msg_size: u8) -> (r: Option<u8>)
        ensures
            ({
                let p = page(objects_of(self.storage@), max_msg_size as int);
                &&& p.1 is None ==> r is None
                &&& p.1 is Some ==> r == Some(p.0.len() as u8)
            }),
    {
        let ghost objs = objects_of(self.storage@);
        let mut budget: usize = max_msg_size as usize;
        let mut idx: usize = 0;
        proof {
            assert(objs.subrange(0, objs.len() as int) =~= objs);
            assert(objs.subrange(0, 0) + page(objs, budget as int).0 =~= page(objs, budget as int).0);
        }
        while idx < self.storage.len()
            invariant
                objs == objects_of(self.storage@),
                idx <= objs.len(),
                budget <= 255,
                page(objs, max_msg_size as int) == ({
                    let p = page(objs.subrange(idx as int, objs.len() as int), budget as int);
                    (objs.subrange(0, idx as int) + p.0, p.1)
                }),
                2 * idx + budget <= 255,
            decreases objs.len() - idx,
        {
            let len = self.storage[idx].data.len();
            assert(objs[idx as int].1.len() == len);
            if budget < 2 || len > budget - 2 {
                proof {
                    let tail = objs.subrange(idx as int, objs.len() as int);
                    assert(tail[0] == objs[idx as int]);
                    assert(objs.subrange(0, idx as int) + Seq::<(u8, Seq<u8>)>::empty() =~= objs.subrange(0, idx as int));
                }
                return Some(idx as u8);
            }
            proof {
                lemma_page_step(objs, idx as int, budget as int);
                assert(objs.subrange(0, idx as int) + seq![objs[idx as int]] =~= objs.subrange(0, idx + 1));
                let rest = page(objs.subrange(idx + 1, objs.len() as int), budget - 2 - len);
                assert(objs.subrange(0, idx as int) + (seq![objs[idx as int]] + rest.0) =~= objs.subrange(0, idx + 1) + rest.0);
            }
            budget = budget - 2 - len;
            idx = idx + 1;
        }
        proof {
            assert(objs.subrange(idx as int, objs.len() as int) =~= Seq::<(u8, Seq<u8>)>::empty());
        }
        None
    }
}

/// Reads a device identification response body: interface type, device
/// code, conformity level, more follows, next object id, object count and
/// the objects, which must be all that is left.
pub fn parse_device_identification_response(cursor: &mut ReadCursor) -> (r: Result<DeviceInfo, RequestError>)
    ensures
        match decode_device_info(unread(*old(cursor))) {
            Ok((code, level, next, objs)) => r is Ok && r->Ok_0.mei_code == MeiCode::ReadDeviceId
                && device_code_byte(r->Ok_0.read_device_id) == code && conformity_byte(
                r->Ok_0.conformity_level,
            ) == level && r->Ok_0.continue_at == next && objects_of(r->Ok_0.storage@) == objs,
            Err(e) => r == Err::<DeviceInfo, RequestError>(e),
        },
{
    let ghost s = unread(*cursor);
    let mei = match read_u8(cursor) {
        Ok(v) => v,
        Err(_) => return too_short(),
    };
    if mei != 0x0E {
        return Err(RequestError::BadResponse(AduParseError::MeiCodeOutOfRange(mei)));
    }
    let code = match read_u8(cursor) {
        Ok(v) => v,
        Err(_) => return too_short(),
    };
    let read_device_id = match read_device_id_from_u8(code) {
        Ok(c) => c,
        Err(e) => return Err(RequestError::BadResponse(e)),
    };
    let level = match read_u8(cursor) {
        Ok(v) => v,
        Err(_) => return too_short(),
    };
    let conformity_level = match ReadDeviceConformityLevel::from_u8(level) {
        Ok(l) => l,
        Err(e) => return Err(RequestError::BadResponse(e)),
    };
    let more = match read_u8(cursor) {
        Ok(v) => v,
        Err(_) => return too_short(),
    };
    if more != 0x00 && more != 0xFF {
        return Err(RequestError::BadResponse(AduParseError::MoreFollowsOutOfRange(more)));
    }
    let next = match read_u8(cursor) {
        Ok(v) => v,
        Err(_) => return too_short(),
    };
    let count = match read_u8(cursor) {
        Ok(v) => v,
        Err(_) => return too_short(),
    };
    proof {
        assert(unread(*cursor) =~= after(s, 6));
    }
    let storage = parse_objects(count, cursor)?;
    Ok(DeviceInfo {
        mei_code: MeiCode::ReadDeviceId,
        read_device_id,
        conformity_level,
        continue_at: if more == 0xFF {
            Some(next)
        } else {
            None
        },
        storage,
    })
}

/// Reads `count` objects, which must be all that is left.
fn parse_objects(count: u8, cursor: &mut ReadCursor) -> (r: Result<Vec<InfoObject>, RequestError>)
    ensures
        match decode_objects(unread(*old(cursor)), count as nat) {
            Ok(objs) => r is Ok && objects_of(r->Ok_0@) == objs,
            Err(e) => r == Err::<Vec<InfoObject>, RequestError>(e),
        },
{
    let ghost s0 = unread(*cursor);
    let mut out: Vec<InfoObject> = Vec::new();
    let mut k: u8 = 0;
    while k < count
        invariant
            k <= count,
            s0 == unread(*old(cursor)),
            ({
                let left = decode_objects(unread(*cursor), (count - k) as nat);
                match decode_objects(s0, count as nat) {
                    Ok(objs) => left is Ok && objs == objects_of(out@) + left->Ok_0,
                    Err(e) => left == Err::<Seq<(u8, Seq<u8>)>, RequestError>(e),
                }
            }),
        decreases count - k,
    {
        let ghost s = unread(*cursor);
        let id = match read_u8(cursor) {
            Ok(v) => v,
            Err(_) => {
                assert(decode_objects(s, (count - k) as nat) == Err::<Seq<(u8, Seq<u8>)>, RequestError>(RequestError::insufficient()));
                return too_short();
            },
        };
        let len = match read_u8(cursor) {
            Ok(v) => v,
            Err(_) => {
                assert(decode_objects(s, (count - k) as nat) == Err::<Seq<(u8, Seq<u8>)>, RequestError>(RequestError::insufficient()));
                return too_short();
            },
        };
        assert(len == s[1]);
        let data = match read_bytes(cursor, len as usize) {
            Ok(d) => d,
            Err(_) => {
                assert(decode_objects(s, (count - k) as nat) == Err::<Seq<(u8, Seq<u8>)>, RequestError>(RequestError::insufficient()));
                return too_short();
            },
        };
        let ghost before = objects_of(out@);
        out.push(InfoObject { id, data: vstd::slice::slice_to_vec(data) });
        proof {
            assert(unread(*cursor) =~= after(s, 2 + s[1]));
            assert(data@ =~= s.subrange(2, 2 + s[1]));
            let d = decode_objects(s, (count - k) as nat);
            if d is Ok {
                assert(d->Ok_0 =~= seq![(id, data@)] + decode_objects(unread(*cursor), (count - k - 1) as nat)->Ok_0);
            }
            assert(objects_of(out@) =~= before + seq![(id, data@)]);
            match decode_objects(s0, count as nat) {
                Ok(objs) => {
                    assert(objs =~= objects_of(out@) + decode_objects(unread(*cursor), (count - k - 1) as nat)->Ok_0);
                },
                Err(_) => {},
            }
        }
        k = k + 1;
    }
    let left = read_remaining(cursor);
    if left != 0 {
        return Err(RequestError::BadResponse(AduParseError::TrailingBytes(left)));
    }
    proof {
        assert(objects_of(out@) + Seq::<(u8, Seq<u8>)>::empty() =~= objects_of(out@));
    }
    Ok(out)
}

} // verus!

verus! {

impl ServerDeviceInfo {
    /// A response body of this server takes at most 252 bytes.
    pub proof fn lemma_response_to_size(&self, request: ReadDeviceRequest)
        requires
            self.selection(request) is Ok,
        ensures
            self.response_to(request).len() <= 252,
    {
        let (c, start) = self.selection(request)->Ok_0;
        let objs = self.category_objs(c);
        lemma_response_shape(
            device_code_byte(request.dev_id),
            self.level_byte(),
            objs.subrange(start, objs.len() as int),
        );
    }
}

} // verus!

verus! {

/// A page is the first objects of the list; it stops at the object whose
/// id it announces, or at the end of the list.
pub proof fn lemma_page_prefix(objs: Seq<(u8, Seq<u8>)>, budget: int)
    ensures
        ({
            let (sent, next) = page(objs, budget);
            &&& sent.len() <= objs.len()
            &&& sent == objs.subrange(0, sent.len() as int)
            &&& next is None ==> sent.len() == objs.len()
            &&& next is Some ==> sent.len() < objs.len() && next == Some(objs[sent.len() as int].0)
        }),
    decreases objs.len(),
{
    if objs.len() > 0 && 2 + objs[0].1.len() <= budget {
        let rest = objs.drop_first();
        let b2 = budget - 2 - objs[0].1.len();
        lemma_page_prefix(rest, b2);
        let (sent, next) = page(objs, budget);
        let (rs, rn) = page(rest, b2);
        assert(sent == seq![objs[0]] + rs);
        assert(sent =~= objs.subrange(0, sent.len() as int));
        if rn is Some {
            assert(objs[sent.len() as int] == rest[rs.len() as int]);
        }
    } else if objs.len() > 0 {
        assert(page(objs, budget).0 =~= objs.subrange(0, 0));
    } else {
        assert(page(objs, budget).0 =~= objs.subrange(0, 0));
    }
}

proof fn lemma_find_exact(objs: Seq<(u8, Seq<u8>)>, id: u8, j: int, i: int)
    requires
        0 <= j <= i < objs.len(),
        objs[i].0 == id,
        forall|k: int| j <= k < i ==> objs[k].0 != id,
    ensures
        find_from(objs, id, j) == i,
    decreases i - j,
{
    if j < i {
        lemma_find_exact(objs, id, j + 1, i);
    }
}

/// Continuing at the id that a page announces resumes right after the last
/// object that page sent: with unique ids, a streamed read from that id
/// starts at the first object left out, and a page that announces more has
/// sent at least one object, so a client that follows the ids ends.
pub proof fn lemma_continuation(objs: Seq<(u8, Seq<u8>)>, start: int)
    requires
        servable(objs),
        0 <= start <= objs.len(),
    ensures
        ({
            let (sent, next) = page(objs.subrange(start, objs.len() as int), OBJECT_BUDGET as int);
            &&& sent == objs.subrange(start, start + sent.len())
            &&& next is Some ==> start_in(objs, next) == start + sent.len() && sent.len() > 0
            &&& next is None ==> start + sent.len() == objs.len()
        }),
{
    let tail = objs.subrange(start, objs.len() as int);
    lemma_page_prefix(tail, OBJECT_BUDGET as int);
    let (sent, next) = page(tail, OBJECT_BUDGET as int);
    assert(sent =~= objs.subrange(start, start + sent.len()));
    if next is Some {
        assert(tail[0] == objs[start]);
        assert(!faulty(objs, start));
        let i = start + sent.len();
        let id = objs[i].0;
        assert(next == Some(id));
        assert forall|k: int| 0 <= k < i implies objs[k].0 != id by {
            assert(!faulty(objs, i));
        }
        lemma_find_exact(objs, id, 0, i);
    }
}

} // verus!
