//! Value types of the protocol: unit ids, address ranges, indexed values,
//! the mask of a masked write and the device identification codes.
use vstd::prelude::*;

use crate::error::{AduParseError, InvalidRange};

verus! {

/// Largest count of a read of coils or discrete inputs.
pub const MAX_READ_COILS_COUNT: u16 = 0x07D0;

/// Largest count of a read of holding or input registers.
pub const MAX_READ_REGISTERS_COUNT: u16 = 0x007D;

/// Coil value on the wire for "on".
pub const COIL_ON: u16 = 0xFF00;

/// Coil value on the wire for "off".
pub const COIL_OFF: u16 = 0x0000;

/// Modbus unit identifier, a type-safe wrapper around `u8`.
#[derive(Clone, Copy, Debug, PartialEq, Eq, Structural)]
pub struct UnitId {
    /// underlying raw value
    pub value: u8,
}

impl UnitId {
    /// Create a new UnitId.
    pub fn new(value: u8) -> (r: Self)
        ensures
            r.value == value,
    {
        Self { value }
    }

    /// Broadcast address (only in RTU).
    pub fn broadcast() -> (r: Self)
        ensures
            r.value == 0,
    {
        Self { value: 0x00 }
    }

    /// True if the address is reserved in RTU mode (248 to 255).
    pub fn is_rtu_reserved(&self) -> (r: bool)
        ensures
            r == (self.value >= 248),
    {
        self.value >= 248
    }
}

/// The default UnitId is `0xFF`.
impl Default for UnitId {
    fn default() -> (r: Self)
        ensures
            r.value == 0xFF,
    {
        Self { value: 0xFF }
    }
}

/// Start and count of a block of consecutive addresses.
#[derive(Clone, Copy, Debug, PartialEq, Eq, Structural)]
pub struct AddressRange {
    /// Starting address of the range
    pub start: u16,
    /// Count of elements in the range
    pub count: u16,
}

/// A start and count make a range: at least one address, none past 0xFFFF.
pub open spec fn valid_range(start: u16, count: u16) -> bool {
    count >= 1 && start + count - 1 <= 0xFFFF
}

impl AddressRange {
    /// The range holds at least one address and none past 0xFFFF.
    pub open spec fn wf(self) -> bool {
        valid_range(self.start, self.count)
    }

    /// Create a new address range, refusing a count of zero and a range that
    /// passes the last address.
    pub fn try_from(start: u16, count: u16) -> (r: Result<Self, InvalidRange>)
        ensures
            r is Ok <==> valid_range(start, count),
            r is Ok ==> r->Ok_0 == (AddressRange { start, count }) && r->Ok_0.wf(),
            count == 0 ==> r == Err::<Self, InvalidRange>(InvalidRange::CountOfZero),
            count != 0 && !valid_range(start, count) ==> r == Err::<Self, InvalidRange>(
                InvalidRange::AddressOverflow(start, count),
            ),
    {
        if count == 0 {
            return Err(InvalidRange::CountOfZero);
        }
        let max_start = u16::MAX - (count - 1);
        if start > max_start {
            return Err(InvalidRange::AddressOverflow(start, count));
        }
        Ok(Self { start, count })
    }

    /// The addresses of the range as a `std::ops::Range`.
    pub fn to_std_range(self) -> (r: std::ops::Range<usize>)
        ensures
            r.start == self.start,
            r.end == self.start + self.count,
    {
        let start = self.start as usize;
        let end = start + (self.count as usize);
        start..end
    }

    /// An iterator over the addresses of the range.
    pub fn iter(&self) -> (r: AddressIterator)
        ensures
            r.current == self.start,
            r.remain == self.count,
    {
        AddressIterator::new(self.start, self.count)
    }

    /// The range as one that a read of coils or discrete inputs may ask for.
    pub fn of_read_bits(self) -> (r: Result<ReadBitsRange, InvalidRange>)
        ensures
            r is Ok <==> self.count <= MAX_READ_COILS_COUNT,
            r is Ok ==> r->Ok_0.inner == self,
            r is Err ==> r == Err::<ReadBitsRange, InvalidRange>(
                InvalidRange::CountTooLargeForType(self.count, MAX_READ_COILS_COUNT),
            ),
    {
        match self.limited_count(MAX_READ_COILS_COUNT) {
            Ok(inner) => Ok(ReadBitsRange { inner }),
            Err(e) => Err(e),
        }
    }

    /// The range as one that a read of registers may ask for.
    pub fn of_read_registers(self) -> (r: Result<ReadRegistersRange, InvalidRange>)
        ensures
            r is Ok <==> self.count <= MAX_READ_REGISTERS_COUNT,
            r is Ok ==> r->Ok_0.inner == self,
            r is Err ==> r == Err::<ReadRegistersRange, InvalidRange>(
                InvalidRange::CountTooLargeForType(self.count, MAX_READ_REGISTERS_COUNT),
            ),
    {
        match self.limited_count(MAX_READ_REGISTERS_COUNT) {
            Ok(inner) => Ok(ReadRegistersRange { inner }),
            Err(e) => Err(e),
        }
    }

    /// The range itself if its count is at most `limit`.
    pub fn limited_count(self, limit: u16) -> (r: Result<Self, InvalidRange>)
        ensures
            self.count <= limit ==> r == Ok::<Self, InvalidRange>(self),
            self.count > limit ==> r == Err::<Self, InvalidRange>(
                InvalidRange::CountTooLargeForType(self.count, limit),
            ),
    {
        if self.count > limit {
            return Err(InvalidRange::CountTooLargeForType(self.count, limit));
        }
        Ok(self)
    }
}

/// An address range valid for a read of coils or discrete inputs.
#[derive(Clone, Copy, Debug, PartialEq, Eq, Structural)]
pub struct ReadBitsRange {
    pub inner: AddressRange,
}

impl ReadBitsRange {
    /// The underlying address range.
    pub fn get(self) -> (r: AddressRange)
        ensures
            r == self.inner,
    {
        self.inner
    }
}

/// An address range valid for a read of holding or input registers.
#[derive(Clone, Copy, Debug, PartialEq, Eq, Structural)]
pub struct ReadRegistersRange {
    pub inner: AddressRange,
}

impl ReadRegistersRange {
    /// The underlying address range.
    pub fn get(self) -> (r: AddressRange)
        ensures
            r == self.inner,
    {
        self.inner
    }
}

/// Walks the addresses of a range, one at a time.
pub struct AddressIterator {
    pub current: u16,
    pub remain: u16,
}

impl AddressIterator {
    /// Starts at `current`, with `remain` addresses to go.
    pub fn new(current: u16, remain: u16) -> (r: Self)
        ensures
            r.current == current,
            r.remain == remain,
    {
        Self { current, remain }
    }

    /// The next address, or `None` once all have been given.
    pub fn next(&mut self) -> (r: Option<u16>)
        requires
            old(self).remain == 0 || old(self).current + old(self).remain - 1 <= 0xFFFF,
        ensures
            old(self).remain == 0 ==> r is None && *final(self) == *old(self),
            old(self).remain > 0 ==> r == Some(old(self).current) && final(self).remain == old(
                self,
            ).remain - 1,
            old(self).remain > 1 ==> final(self).current == old(self).current + 1,
    {
        if self.remain == 0 {
            return None;
        }
        let ret = self.current;
        self.remain = self.remain - 1;
        if self.remain > 0 {
            self.current = self.current + 1;
        }
        Some(ret)
    }
}

/// A value and its address.
#[derive(Clone, Copy, Debug, PartialEq, Eq, Structural)]
pub struct Indexed<T> {
    /// Address of the value
    pub index: u16,
    /// Associated value
    pub value: T,
}

impl<T> Indexed<T> {
    /// Create a new indexed value.
    pub fn new(index: u16, value: T) -> (r: Self)
        ensures
            r.index == index,
            r.value == value,
    {
        Indexed { index, value }
    }
}

/// The value a masked write leaves in a register that held `value`.
pub open spec fn masked(value: u16, and_mask: u16, or_mask: u16) -> u16 {
    (value & and_mask) | (or_mask & !and_mask)
}

/// The AND and OR masks of a Mask Write Register request.
#[derive(Clone, Copy, Debug, PartialEq, Eq, Structural)]
pub struct MaskWriteRegister {
    pub and_mask: u16,
    pub or_mask: u16,
}

impl MaskWriteRegister {
    /// Create a new MaskWriteRegister with the given masks.
    pub fn new(and_mask: u16, or_mask: u16) -> (r: Self)
        ensures
            r.and_mask == and_mask,
            r.or_mask == or_mask,
    {
        Self { and_mask, or_mask }
    }

    /// The value a register holding `value` takes under this mask: the bits
    /// of the AND mask keep the register's, the others take the OR mask's.
    pub fn mask_value(&self, value: u16) -> (r: u16)
        ensures
            r == masked(value, self.and_mask, self.or_mask),
    {
        (value & self.and_mask) | (self.or_mask & (!self.and_mask))
    }
}

/// The coil state that a wire value stands for.
pub open spec fn coil_of(value: u16) -> Option<bool> {
    if value == COIL_ON {
        Some(true)
    } else if value == COIL_OFF {
        Some(false)
    } else {
        None
    }
}

/// The wire value of a coil state.
pub open spec fn coil_word(value: bool) -> u16 {
    if value {
        COIL_ON
    } else {
        COIL_OFF
    }
}

/// Reads a coil state: 0xFF00 is on, 0x0000 off, anything else an error.
pub fn coil_from_u16(value: u16) -> (r: Result<bool, AduParseError>)
    ensures
        match coil_of(value) {
            Some(b) => r == Ok::<bool, AduParseError>(b),
            None => r == Err::<bool, AduParseError>(AduParseError::UnknownCoilState(value)),
        },
{
    if value == COIL_ON {
        Ok(true)
    } else if value == COIL_OFF {
        Ok(false)
    } else {
        Err(AduParseError::UnknownCoilState(value))
    }
}

/// Writes a coil state: 0xFF00 for on, 0x0000 for off.
pub fn coil_to_u16(value: bool) -> (r: u16)
    ensures
        r == coil_word(value),
{
    if value {
        COIL_ON
    } else {
        COIL_OFF
    }
}

/// Modbus Encapsulated Interface type.
#[derive(Clone, Copy, Debug, PartialEq, Eq, Structural)]
pub enum MeiCode {
    /// Read Device Identification (0x0E)
    ReadDeviceId,
    /// CANopen General Reference (0x0D), unused
    CanOpenGeneralReference,
}

/// Byte of an encapsulated interface type.
pub open spec fn mei_byte(m: MeiCode) -> u8 {
    match m {
        MeiCode::ReadDeviceId => 0x0E,
        MeiCode::CanOpenGeneralReference => 0x0D,
    }
}

impl MeiCode {
    /// The byte of this type on the wire.
    pub fn to_u8(self) -> (r: u8)
        ensures
            r == mei_byte(self),
    {
        match self {
            MeiCode::ReadDeviceId => 0x0E,
            MeiCode::CanOpenGeneralReference => 0x0D,
        }
    }
}

/// Reads an encapsulated interface type: 0x0D or 0x0E.
pub fn mei_code_from_u8(value: u8) -> (r: Result<MeiCode, AduParseError>)
    ensures
        value == 0x0D ==> r == Ok::<MeiCode, AduParseError>(MeiCode::CanOpenGeneralReference),
        value == 0x0E ==> r == Ok::<MeiCode, AduParseError>(MeiCode::ReadDeviceId),
        value != 0x0D && value != 0x0E ==> r == Err::<MeiCode, AduParseError>(
            AduParseError::MeiCodeOutOfRange(value),
        ),
        r is Ok ==> mei_byte(r->Ok_0) == value,
{
    match value {
        0x0D => Ok(MeiCode::CanOpenGeneralReference),
        0x0E => Ok(MeiCode::ReadDeviceId),
        _ => Err(AduParseError::MeiCodeOutOfRange(value)),
    }
}

/// Which part of the device identification a request reads.
#[derive(Clone, Copy, Debug, PartialEq, Eq, Structural)]
pub enum ReadDeviceIdCode {
    /// The basic objects, streamed (0x01).
    BasicStreaming,
    /// The regular objects, streamed (0x02).
    RegularStreaming,
    /// The extended objects, streamed (0x03).
    ExtendedStreaming,
    /// One object, named by its id (0x04).
    Specific,
}

/// Byte of a device identification code.
pub open spec fn device_code_byte(c: ReadDeviceIdCode) -> u8 {
    match c {
        ReadDeviceIdCode::BasicStreaming => 0x01,
        ReadDeviceIdCode::RegularStreaming => 0x02,
        ReadDeviceIdCode::ExtendedStreaming => 0x03,
        ReadDeviceIdCode::Specific => 0x04,
    }
}

impl ReadDeviceIdCode {
    /// The byte of this code on the wire.
    pub fn to_u8(self) -> (r: u8)
        ensures
            r == device_code_byte(self),
    {
        match self {
            ReadDeviceIdCode::BasicStreaming => 0x01,
            ReadDeviceIdCode::RegularStreaming => 0x02,
            ReadDeviceIdCode::ExtendedStreaming => 0x03,
            ReadDeviceIdCode::Specific => 0x04,
        }
    }
}

/// Reads a device identification code: 0x01 to 0x04.
pub fn read_device_id_from_u8(value: u8) -> (r: Result<ReadDeviceIdCode, AduParseError>)
    ensures
        r is Ok <==> 1 <= value <= 4,
        r is Ok ==> device_code_byte(r->Ok_0) == value,
        r is Err ==> r == Err::<ReadDeviceIdCode, AduParseError>(
            AduParseError::DeviceCodeOutOfRange(value),
        ),
{
    match value {
        0x01 => Ok(ReadDeviceIdCode::BasicStreaming),
        0x02 => Ok(ReadDeviceIdCode::RegularStreaming),
        0x03 => Ok(ReadDeviceIdCode::ExtendedStreaming),
        0x04 => Ok(ReadDeviceIdCode::Specific),
        _ => Err(AduParseError::DeviceCodeOutOfRange(value)),
    }
}

/// The identification a server grants: which categories, and whether
/// single objects can be read.
#[derive(Clone, Copy, Debug, PartialEq, Eq, Structural)]
pub enum ReadDeviceConformityLevel {
    /// Basic objects, streamed only (0x01).
    BasicIdentificationStream,
    /// Basic and regular objects, streamed only (0x02).
    RegularIdentificationStream,
    /// All three categories, streamed only (0x03).
    ExtendedIdentificationStream,
    /// Basic objects, single objects too (0x81).
    BasicIdentificationIndividual,
    /// Basic and regular objects, single objects too (0x82).
    RegularIdentificationIndividual,
    /// All three categories, single objects too (0x83).
    ExtendedIdentificationIndividual,
}

/// Byte of a conformity level.
pub open spec fn conformity_byte(c: ReadDeviceConformityLevel) -> u8 {
    match c {
        ReadDeviceConformityLevel::BasicIdentificationStream => 0x01,
        ReadDeviceConformityLevel::RegularIdentificationStream => 0x02,
        ReadDeviceConformityLevel::ExtendedIdentificationStream => 0x03,
        ReadDeviceConformityLevel::BasicIdentificationIndividual => 0x81,
        ReadDeviceConformityLevel::RegularIdentificationIndividual => 0x82,
        ReadDeviceConformityLevel::ExtendedIdentificationIndividual => 0x83,
    }
}

/// A byte names a conformity level.
pub open spec fn is_conformity_byte(b: u8) -> bool {
    b == 0x01 || b == 0x02 || b == 0x03 || b == 0x81 || b == 0x82 || b == 0x83
}

impl ReadDeviceConformityLevel {
    /// The byte of this level on the wire.
    pub fn to_u8(self) -> (r: u8)
        ensures
            r == conformity_byte(self),
    {
        match self {
            ReadDeviceConformityLevel::BasicIdentificationStream => 0x01,
            ReadDeviceConformityLevel::RegularIdentificationStream => 0x02,
            ReadDeviceConformityLevel::ExtendedIdentificationStream => 0x03,
            ReadDeviceConformityLevel::BasicIdentificationIndividual => 0x81,
            ReadDeviceConformityLevel::RegularIdentificationIndividual => 0x82,
            ReadDeviceConformityLevel::ExtendedIdentificationIndividual => 0x83,
        }
    }

    /// Reads a conformity level: one of the six defined bytes.
    pub fn from_u8(value: u8) -> (r: Result<ReadDeviceConformityLevel, AduParseError>)
        ensures
            r is Ok <==> is_conformity_byte(value),
            r is Ok ==> conformity_byte(r->Ok_0) == value,
            r is Err ==> r == Err::<ReadDeviceConformityLevel, AduParseError>(
                AduParseError::ConformityLevelOutOfRange(value),
            ),
    {
        match value {
            0x01 => Ok(ReadDeviceConformityLevel::BasicIdentificationStream),
            0x02 => Ok(ReadDeviceConformityLevel::RegularIdentificationStream),
            0x03 => Ok(ReadDeviceConformityLevel::ExtendedIdentificationStream),
            0x81 => Ok(ReadDeviceConformityLevel::BasicIdentificationIndividual),
            0x82 => Ok(ReadDeviceConformityLevel::RegularIdentificationIndividual),
            0x83 => Ok(ReadDeviceConformityLevel::ExtendedIdentificationIndividual),
            _ => Err(AduParseError::ConformityLevelOutOfRange(value)),
        }
    }
}

/// A client's request for device identification.
#[derive(Clone, Copy, Debug, PartialEq, Eq, Structural)]
pub struct ReadDeviceRequest {
    /// The encapsulated interface type, Read Device Identification.
    pub mei_code: MeiCode,
    /// The part of the identification asked for.
    pub dev_id: ReadDeviceIdCode,
    /// The object to start at; `None` starts at the first.
    pub obj_id: Option<u8>,
}

impl ReadDeviceRequest {
    /// Create a new Read Device Identification request.
    pub fn new(mei_type: MeiCode, dev_id: ReadDeviceIdCode, obj_id: Option<u8>) -> (r: Self)
        ensures
            r.mei_code == mei_type,
            r.dev_id == dev_id,
            r.obj_id == obj_id,
    {
        Self { mei_code: mei_type, dev_id, obj_id }
    }
}

} // verus!
