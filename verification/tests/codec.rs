use libafl_sandbox::names::meta_name;
use libafl_sandbox::vars::{
    decode_value_from_state, encode_value_to_state, unsigned_value, PlcValue, PlcVarMeta, PlcVarType, VarErrorKind,
};

fn meta(name: &str, var_type: PlcVarType, size: usize, offset: usize) -> PlcVarMeta {
    let mut n = [0u8; 32];
    n[..name.len()].copy_from_slice(name.as_bytes());
    PlcVarMeta { name: n, var_type, size, offset }
}

#[test]
fn decodes_little_endian_values() {
    let state = [0x34u8, 0x12, 0x78, 0x56, 0x34, 0x12, 2, 0];
    assert_eq!(
        decode_value_from_state(&state, &meta("a", PlcVarType::UINT16, 2, 0)).unwrap(),
        PlcValue::UINT16(0x1234)
    );
    assert_eq!(
        decode_value_from_state(&state, &meta("b", PlcVarType::UINT32, 4, 2)).unwrap(),
        PlcValue::UINT32(0x12345678)
    );
    assert_eq!(decode_value_from_state(&state, &meta("c", PlcVarType::BOOL, 1, 6)).unwrap(), PlcValue::BOOL(true));
    assert_eq!(decode_value_from_state(&state, &meta("d", PlcVarType::BOOL, 1, 7)).unwrap(), PlcValue::BOOL(false));
    assert_eq!(decode_value_from_state(&state, &meta("e", PlcVarType::UINT8, 1, 1)).unwrap(), PlcValue::UINT8(0x12));
    let bits = 1.5f32.to_bits();
    let fstate = bits.to_le_bytes();
    assert_eq!(
        decode_value_from_state(&fstate, &meta("f", PlcVarType::FLOAT, 4, 0)).unwrap(),
        PlcValue::FLOAT(bits)
    );
}

#[test]
fn decode_errors_name_the_variable() {
    let state = [0u8; 4];
    let e = decode_value_from_state(&state, &meta("temp", PlcVarType::UINT32, 4, 1)).unwrap_err();
    assert_eq!(e.kind, VarErrorKind::OutOfBounds { offset: 1, size: 4, state_size: 4 });
    assert_eq!(e.name, "temp");
    let e = decode_value_from_state(&state, &meta("x", PlcVarType::UINT16, 1, 0)).unwrap_err();
    assert_eq!(e.kind, VarErrorKind::InvalidSize(PlcVarType::UINT16));
    let e = decode_value_from_state(&state, &meta("y", PlcVarType::UINT8, 2, usize::MAX)).unwrap_err();
    assert_eq!(e.kind, VarErrorKind::OffsetOverflow);
}

#[test]
fn encode_writes_only_the_variable() {
    let mut state = vec![9u8; 8];
    encode_value_to_state(&mut state, &meta("a", PlcVarType::UINT32, 4, 2), PlcValue::UINT32(0xA1B2C3D4)).unwrap();
    assert_eq!(state, vec![9, 9, 0xD4, 0xC3, 0xB2, 0xA1, 9, 9]);
    encode_value_to_state(&mut state, &meta("b", PlcVarType::BOOL, 1, 7), PlcValue::BOOL(true)).unwrap();
    assert_eq!(state[7], 1);
    let m = meta("c", PlcVarType::UINT16, 2, 0);
    encode_value_to_state(&mut state, &m, PlcValue::UINT16(0xBEEF)).unwrap();
    assert_eq!(&state[..2], &[0xEF, 0xBE]);
    assert_eq!(decode_value_from_state(&state, &m).unwrap(), PlcValue::UINT16(0xBEEF));
}

#[test]
fn encode_errors_leave_state_alone() {
    let mut state = vec![7u8; 4];
    let e = encode_value_to_state(&mut state, &meta("a", PlcVarType::UINT8, 1, 0), PlcValue::BOOL(true)).unwrap_err();
    assert_eq!(e.kind, VarErrorKind::TypeMismatch);
    let e = encode_value_to_state(&mut state, &meta("b", PlcVarType::UINT8, 2, 0), PlcValue::UINT8(1)).unwrap_err();
    assert_eq!(e.kind, VarErrorKind::InvalidSize(PlcVarType::UINT8));
    let e = encode_value_to_state(&mut state, &meta("c", PlcVarType::UINT32, 4, 2), PlcValue::UINT32(1)).unwrap_err();
    assert_eq!(e.kind, VarErrorKind::OutOfBounds { offset: 2, size: 4, state_size: 4 });
    assert_eq!(state, vec![7u8; 4]);
}

#[test]
fn names_are_trimmed_and_decoded() {
    let mut n = [0u8; 32];
    n[2..6].copy_from_slice(b"pump");
    let m = PlcVarMeta { name: n, var_type: PlcVarType::UINT8, size: 1, offset: 0 };
    assert_eq!(meta_name(&m), "pump");
    let mut bad = [0u8; 32];
    bad[0] = b'a';
    bad[1] = 0xff;
    let m = PlcVarMeta { name: bad, var_type: PlcVarType::UINT8, size: 1, offset: 0 };
    assert_eq!(meta_name(&m), "a\u{FFFD}");
    let m = PlcVarMeta { name: [0u8; 32], var_type: PlcVarType::UINT8, size: 1, offset: 0 };
    assert_eq!(meta_name(&m), "");
    let mut pv = [0u8; 32];
    pv[1] = b'p';
    pv[2] = b'v';
    let m = PlcVarMeta { name: pv, var_type: PlcVarType::UINT8, size: 1, offset: 0 };
    assert_eq!(meta_name(&m), "pv");
}

#[test]
fn unsigned_values_respect_ranges() {
    assert_eq!(unsigned_value(PlcVarType::UINT8, 255), Some(PlcValue::UINT8(255)));
    assert_eq!(unsigned_value(PlcVarType::UINT8, 256), None);
    assert_eq!(unsigned_value(PlcVarType::UINT16, 65535), Some(PlcValue::UINT16(65535)));
    assert_eq!(unsigned_value(PlcVarType::UINT16, 65536), None);
    assert_eq!(unsigned_value(PlcVarType::UINT32, 4294967295), Some(PlcValue::UINT32(4294967295)));
    assert_eq!(unsigned_value(PlcVarType::UINT32, 4294967296), None);
    assert_eq!(unsigned_value(PlcVarType::BOOL, 1), None);
    assert_eq!(PlcVarType::from_code(4), Some(PlcVarType::FLOAT));
    assert_eq!(PlcVarType::from_code(5), None);
}

#[test]
fn writing_back_a_read_value_keeps_the_state() {
    let metas = [
        meta("a", PlcVarType::UINT16, 2, 0),
        meta("b", PlcVarType::UINT32, 4, 2),
        meta("c", PlcVarType::BOOL, 1, 6),
        meta("d", PlcVarType::FLOAT, 4, 7),
    ];
    let state = vec![0x01u8, 0x80, 0xFF, 0x00, 0x10, 0x7F, 1, 0xDE, 0xAD, 0xBE, 0xEF];
    for m in metas.iter() {
        let v = decode_value_from_state(&state, m).unwrap();
        let mut copy = state.clone();
        encode_value_to_state(&mut copy, m, v).unwrap();
        assert_eq!(copy, state);
    }
    // A BOOL stored as 2 reads as true and is written back as 1.
    let odd = vec![2u8];
    let m = meta("flag", PlcVarType::BOOL, 1, 0);
    let v = decode_value_from_state(&odd, &m).unwrap();
    let mut copy = odd.clone();
    encode_value_to_state(&mut copy, &m, v).unwrap();
    assert_eq!(copy, vec![1u8]);
}
