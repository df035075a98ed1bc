use rodbus::{
    coil_from_u16, coil_to_u16, AddressRange, AduParseError, Indexed, InvalidRange,
    MaskWriteRegister, UnitId,
};

#[test]
fn test_example_mask() {
    let mask_write_register = MaskWriteRegister::new(0x00F2, 0x0025);
    let value = 0x0012;

    let result = mask_write_register.mask_value(value);
    let expected = 0x17;
    assert_eq!(result, expected);
}

#[test]
fn test_and_mask_part() {
    let mask_write_register = MaskWriteRegister::new(0x00F2, 0x0000);
    let value = 0x0012;

    let result = mask_write_register.mask_value(value);
    let expected = 0x12;
    assert_eq!(result, expected);
}

#[test]
fn test_or_mask_part() {
    let mask_write_register = MaskWriteRegister::new(0x0000, 0x0025);
    let value = 0x0012;

    let result = mask_write_register.mask_value(value);
    let expected = 0x25;
    assert_eq!(result, expected);
}

#[test]
fn mask_law_holds_on_sample_values() {
    let samples: [u16; 5] = [0x0000, 0xFFFF, 0x1234, 0xA5A5, 0x0F0F];
    for v in samples {
        for a in samples {
            for o in samples {
                let m = MaskWriteRegister::new(a, o);
                assert_eq!(m.mask_value(v), (v & a) | (o & !a));
            }
        }
    }
}

#[test]
fn address_start_max_count_of_one_is_allowed() {
    AddressRange::try_from(std::u16::MAX, 1).unwrap();
}

#[test]
fn address_maximum_range_is_ok() {
    AddressRange::try_from(0, 0xFFFF).unwrap();
}

#[test]
fn address_count_zero_fails_validation() {
    assert_eq!(AddressRange::try_from(0, 0), Err(InvalidRange::CountOfZero));
}

#[test]
fn start_max_count_of_two_overflows() {
    assert_eq!(
        AddressRange::try_from(u16::MAX, 2),
        Err(InvalidRange::AddressOverflow(u16::MAX, 2))
    );
}

#[test]
fn full_range_and_overflowing_range() {
    let r = AddressRange::try_from(0, 0xFFFF).unwrap();
    assert_eq!((r.start, r.count), (0, 0xFFFF));
    assert_eq!(
        AddressRange::try_from(0xFFFF, 2),
        Err(InvalidRange::AddressOverflow(0xFFFF, 2))
    );
}

#[test]
fn valid_ranges_end_at_or_before_last_address() {
    for (s, c) in [(0u16, 1u16), (10, 20), (0xFFF0, 0x10), (0x8000, 0x8000)] {
        let r = AddressRange::try_from(s, c).unwrap();
        assert!(r.count >= 1);
        assert!(r.start as u32 + r.count as u32 - 1 <= 0xFFFF);
    }
    assert!(AddressRange::try_from(0xFFF0, 0x11).is_err());
}

#[test]
fn to_std_range_spans_the_addresses() {
    let r = AddressRange::try_from(3, 4).unwrap();
    assert_eq!(r.to_std_range(), 3..7);
}

#[test]
fn address_iterator_counts_up() {
    let r = AddressRange::try_from(0xFFFE, 2).unwrap();
    let mut it = r.iter();
    assert_eq!(it.next(), Some(0xFFFE));
    assert_eq!(it.next(), Some(0xFFFF));
    assert_eq!(it.next(), None);
}

#[test]
fn read_coils_count_cap() {
    let ok = AddressRange::try_from(0, 2000).unwrap().of_read_bits();
    assert!(ok.is_ok());
    assert_eq!(ok.unwrap().get(), AddressRange::try_from(0, 2000).unwrap());
    assert_eq!(
        AddressRange::try_from(0, 2001).unwrap().of_read_bits(),
        Err(InvalidRange::CountTooLargeForType(2001, 2000))
    );
}

#[test]
fn read_registers_count_cap() {
    assert!(AddressRange::try_from(0, 125).unwrap().of_read_registers().is_ok());
    assert_eq!(
        AddressRange::try_from(0, 126).unwrap().of_read_registers(),
        Err(InvalidRange::CountTooLargeForType(126, 125))
    );
}

#[test]
fn coil_values_on_the_wire() {
    assert_eq!(coil_to_u16(true), 0xFF00);
    assert_eq!(coil_to_u16(false), 0x0000);
    assert_eq!(coil_from_u16(0xFF00), Ok(true));
    assert_eq!(coil_from_u16(0x0000), Ok(false));
    assert_eq!(coil_from_u16(0x1234), Err(AduParseError::UnknownCoilState(0x1234)));
}

#[test]
fn indexed_holds_index_and_value() {
    let v = Indexed::new(7, 0xBEEFu16);
    assert_eq!((v.index, v.value), (7, 0xBEEF));
}

#[test]
fn broadcast_address() {
    assert_eq!(UnitId::broadcast(), UnitId::new(0x00));
}

#[test]
fn rtu_reserved_address() {
    assert!(UnitId::new(248).is_rtu_reserved());
    assert!(UnitId::new(255).is_rtu_reserved());
    assert!(!UnitId::new(41).is_rtu_reserved());
}

#[test]
fn default_unit_id_is_ff() {
    assert_eq!(UnitId::default(), UnitId::new(0xFF));
}
