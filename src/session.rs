//! Decisions of a client channel and of a server connection that do not
//! touch the transport: transaction ids, routing by unit id, and the
//! read-only authorization of the TLS profile.
use vstd::prelude::*;

use crate::error::ExceptionCode;
use crate::pdu::FunctionCode;
use crate::types::UnitId;

verus! {

/// The transaction ids of a client channel: counts up from 0 and wraps
/// from 0xFFFF to 0.
pub struct TransactionIds {
    pub next: u16,
}

impl TransactionIds {
    /// Starts at 0.
    pub fn new() -> (r: Self)
        ensures
            r.next == 0,
    {
        TransactionIds { next: 0 }
    }

    /// The id for the next request.
    pub fn allocate(&mut self) -> (r: u16)
        ensures
            r == old(self).next,
            final(self).next == if old(self).next == 0xFFFF {
                0
            } else {
                old(self).next + 1
            },
    {
        let id = self.next;
        self.next = self.next.wrapping_add(1);
        id
    }
}

/// What a server connection does with a frame for a unit.
#[derive(Clone, Copy, Debug, PartialEq, Eq, Structural)]
pub enum Route {
    /// Hand the request to the unit's handler; answer only if `respond`.
    Process { respond: bool },
    /// Answer with this exception without calling any handler.
    Reject(ExceptionCode),
    /// Drop the frame.
    Ignore,
}

/// Routes a frame for `unit`: a known unit processes it, silently for an
/// RTU broadcast; an unknown unit is a GatewayPathUnavailable exception
/// over TCP and is ignored over a serial line.
pub fn route(unit_known: bool, serial: bool, unit: UnitId) -> (r: Route)
    ensures
        unit_known ==> r == (Route::Process { respond: !(serial && unit.value == 0) }),
        !unit_known && serial ==> r == Route::Ignore,
        !unit_known && !serial ==> r == Route::Reject(ExceptionCode::GatewayPathUnavailable),
{
    if unit_known {
        Route::Process { respond: !(serial && unit.value == 0) }
    } else if serial {
        Route::Ignore
    } else {
        Route::Reject(ExceptionCode::GatewayPathUnavailable)
    }
}

/// The function writes to the unit.
pub open spec fn is_write(f: FunctionCode) -> bool {
    match f {
        FunctionCode::WriteSingleCoil | FunctionCode::WriteSingleRegister
        | FunctionCode::WriteMultipleCoils | FunctionCode::WriteMultipleRegisters
        | FunctionCode::MaskWriteRegister => true,
        _ => false,
    }
}

/// The read-only authorization: reads pass, writes are refused with
/// IllegalFunction.
pub fn authorize_read_only(function: FunctionCode) -> (r: Result<(), ExceptionCode>)
    ensures
        is_write(function) ==> r == Err::<(), ExceptionCode>(ExceptionCode::IllegalFunction),
        !is_write(function) ==> r is Ok,
{
    match function {
        FunctionCode::WriteSingleCoil | FunctionCode::WriteSingleRegister
        | FunctionCode::WriteMultipleCoils | FunctionCode::WriteMultipleRegisters
        | FunctionCode::MaskWriteRegister => Err(ExceptionCode::IllegalFunction),
        _ => Ok(()),
    }
}

} // verus!

verus! {

/// The transaction ids of the requests a client channel has sent and not
/// yet seen answered, up to a fixed number at a time (one over a serial
/// line, where frames carry no id).
pub struct InFlight {
    ids: Vec<u16>,
    max: usize,
}

impl InFlight {
    /// No id is pending twice, and no more than the maximum are pending.
    pub closed spec fn wf(&self) -> bool {
        self.ids@.no_duplicates() && self.ids@.len() <= self.max
    }

    /// The pending ids.
    pub closed spec fn pending(&self) -> Set<u16> {
        self.ids@.to_set()
    }

    /// The most ids that may be pending at once.
    pub closed spec fn limit(&self) -> nat {
        self.max as nat
    }

    /// A table with nothing pending that admits `max` requests at a time.
    pub fn new(max: usize) -> (r: Self)
        ensures
            r.wf(),
            r.pending() == Set::<u16>::empty(),
            r.limit() == max,
    {
        let r = InFlight { ids: Vec::new(), max };
        proof {
            assert(r.ids@.to_set() =~= Set::<u16>::empty());
        }
        r
    }

    /// The number of pending ids.
    pub fn len(&self) -> (r: usize)
        requires
            self.wf(),
        ensures
            r == self.pending().len(),
            r <= self.limit(),
    {
        proof {
            self.ids@.unique_seq_to_set();
        }
        self.ids.len()
    }

    fn position_of(&self, id: u16) -> (r: Option<usize>)
        ensures
            match r {
                Some(i) => i < self.ids@.len() && self.ids@[i as int] == id,
                None => !self.ids@.contains(id),
            },
    {
        let mut i: usize = 0;
        while i < self.ids.len()
            invariant
                i <= self.ids@.len(),
                forall|k: int| 0 <= k < i ==> self.ids@[k] != id,
            decreases self.ids@.len() - i,
        {
            if self.ids[i] == id {
                return Some(i);
            }
            i = i + 1;
        }
        None
    }

    /// Records a request sent with `id`; refused when that id is already
    /// pending or the table is full.
    pub fn register(&mut self, id: u16) -> (r: bool)
        requires
            old(self).wf(),
        ensures
            final(self).wf(),
            r == (!old(self).pending().contains(id) && old(self).pending().len() < old(self).limit()),
            r ==> final(self).pending() == old(self).pending().insert(id),
            !r ==> final(self).pending() == old(self).pending(),
            final(self).limit() == old(self).limit(),
    {
        proof {
            self.ids@.unique_seq_to_set();
        }
        if self.position_of(id).is_some() || self.ids.len() >= self.max {
            return false;
        }
        self.ids.push(id);
        proof {
            let before = old(self).ids@;
            assert(self.ids@ == before.push(id));
            assert forall|x: u16| self.ids@.contains(x) <==> (before.contains(x) || x == id) by {
                if self.ids@.contains(x) {
                    let k = choose|k: int| 0 <= k < self.ids@.len() && self.ids@[k] == x;
                    if k < before.len() {
                        assert(before[k] == x);
                    }
                }
                if before.contains(x) {
                    let k = choose|k: int| 0 <= k < before.len() && before[k] == x;
                    assert(self.ids@[k] == x);
                }
                if x == id {
                    assert(self.ids@[before.len() as int] == x);
                }
            }
            assert(self.ids@.to_set() =~= before.to_set().insert(id));
            assert(self.ids@.no_duplicates()) by {
                assert forall|a: int, b: int| 0 <= a < b < self.ids@.len() implies self.ids@[a] != self.ids@[b] by {
                    if b == self.ids@.len() - 1 {
                        assert(self.ids@[a] == old(self).ids@[a]);
                    }
                }
            }
        }
        true
    }

    /// Takes a response with `id`: true, and the id no longer pending, if a
    /// request with it was; false for an unsolicited id, which is dropped.
    pub fn complete(&mut self, id: u16) -> (r: bool)
        requires
            old(self).wf(),
        ensures
            final(self).wf(),
            r == old(self).pending().contains(id),
            final(self).pending() == old(self).pending().remove(id),
            final(self).limit() == old(self).limit(),
    {
        match self.position_of(id) {
            None => {
                proof {
                    assert(old(self).ids@.to_set().remove(id) =~= old(self).ids@.to_set());
                }
                false
            },
            Some(i) => {
                let ghost before = self.ids@;
                self.ids.remove(i);
                proof {
                    assert(self.ids@ =~= before.remove(i as int));
                    assert forall|x: u16| self.ids@.contains(x) <==> (before.contains(x) && x != id) by {
                        if self.ids@.contains(x) {
                            let k = choose|k: int| 0 <= k < self.ids@.len() && self.ids@[k] == x;
                            if k < i {
                                assert(before[k] == x);
                                assert(k != i);
                            } else {
                                assert(before[k + 1] == x);
                            }
                        }
                        if before.contains(x) && x != id {
                            let k = choose|k: int| 0 <= k < before.len() && before[k] == x;
                            assert(k != i);
                            if k < i {
                                assert(self.ids@[k] == x);
                            } else {
                                assert(self.ids@[k - 1] == x);
                            }
                        }
                    }
                    assert(self.ids@.to_set() =~= before.to_set().remove(id));
                    assert(self.ids@.no_duplicates()) by {
                        assert forall|a: int, b: int| 0 <= a < b < self.ids@.len() implies self.ids@[a] != self.ids@[b] by {
                            let a2 = if a < i { a } else { a + 1 };
                            let b2 = if b < i { b } else { b + 1 };
                            assert(self.ids@[a] == before[a2]);
                            assert(self.ids@[b] == before[b2]);
                        }
                    }
                }
                true
            },
        }
    }
}

} // verus!
