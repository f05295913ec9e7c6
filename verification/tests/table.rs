use libafl_sandbox::table::{metadata_map, var_types, var_values_from_bytes, write_var_values};
use libafl_sandbox::vars::{PlcValue, PlcVarMeta, PlcVarType, VarErrorKind};

fn meta(name: &str, var_type: PlcVarType, size: usize, offset: usize) -> PlcVarMeta {
    let mut n = [0u8; 32];
    n[..name.len()].copy_from_slice(name.as_bytes());
    PlcVarMeta { name: n, var_type, size, offset }
}

fn sample_metas() -> Vec<PlcVarMeta> {
    vec![
        meta("phase", PlcVarType::UINT32, 4, 0),
        meta("pump", PlcVarType::UINT8, 1, 4),
        meta("running", PlcVarType::BOOL, 1, 5),
        meta("level", PlcVarType::UINT16, 2, 6),
        meta("setpoint", PlcVarType::FLOAT, 4, 8),
    ]
}

#[test]
fn table_keeps_first_order_and_last_entry() {
    let metas = vec![
        meta("a", PlcVarType::UINT8, 1, 0),
        meta("b", PlcVarType::UINT16, 2, 1),
        meta("a", PlcVarType::BOOL, 1, 3),
    ];
    let table = metadata_map(&metas);
    assert_eq!(table.names(), vec!["a".to_string(), "b".to_string()]);
    assert_eq!(table.get(&"a".to_string()).unwrap().offset, 3);
    assert!(table.get(&"zzz".to_string()).is_none());
    let types = var_types(&metas);
    assert_eq!(types, vec![("a".to_string(), PlcVarType::BOOL), ("b".to_string(), PlcVarType::UINT16)]);
}

#[test]
fn reads_named_and_all_variables() {
    let metas = sample_metas();
    let mut state = vec![0u8; 12];
    state[0] = 3;
    state[4] = 60;
    state[5] = 1;
    state[6] = 0x10;
    state[7] = 0x27;
    state[8..12].copy_from_slice(&2.5f32.to_bits().to_le_bytes());
    let names = vec!["level".to_string(), "pump".to_string()];
    let vals = var_values_from_bytes(&state, &metas, Some(&names)).unwrap();
    assert_eq!(vals, vec![("level".to_string(), PlcValue::UINT16(10000)), ("pump".to_string(), PlcValue::UINT8(60))]);
    let all = var_values_from_bytes(&state, &metas, None).unwrap();
    assert_eq!(all.len(), 5);
    assert_eq!(all[0], ("phase".to_string(), PlcValue::UINT32(3)));
    assert_eq!(all[2], ("running".to_string(), PlcValue::BOOL(true)));
    assert_eq!(all[4], ("setpoint".to_string(), PlcValue::FLOAT(2.5f32.to_bits())));
}

#[test]
fn unknown_variable_is_reported_first() {
    let metas = sample_metas();
    let state = vec![0u8; 12];
    let names = vec!["pump".to_string(), "nope".to_string(), "level".to_string()];
    let e = var_values_from_bytes(&state, &metas, Some(&names)).unwrap_err();
    assert_eq!(e.kind, VarErrorKind::UnknownVariable);
    assert_eq!(e.name, "nope");
    let short = vec![0u8; 6];
    let e = var_values_from_bytes(&short, &metas, Some(&["level".to_string()])).unwrap_err();
    assert_eq!(e.kind, VarErrorKind::OutOfBounds { offset: 6, size: 2, state_size: 6 });
    assert_eq!(e.name, "level");
}

#[test]
fn written_values_read_back() {
    let metas = sample_metas();
    let state = vec![0xAAu8; 12];
    let updates = vec![
        ("pump".to_string(), PlcValue::UINT8(75)),
        ("level".to_string(), PlcValue::UINT16(513)),
        ("running".to_string(), PlcValue::BOOL(false)),
        ("setpoint".to_string(), PlcValue::FLOAT(0.25f32.to_bits())),
    ];
    let new_state = write_var_values(&state, &metas, &updates).unwrap();
    assert_eq!(&new_state[0..4], &[0xAA; 4]);
    let names: Vec<String> = updates.iter().map(|u| u.0.clone()).collect();
    let back = var_values_from_bytes(&new_state, &metas, Some(&names)).unwrap();
    assert_eq!(back, updates);
}

#[test]
fn write_stops_at_first_bad_update() {
    let metas = sample_metas();
    let state = vec![0u8; 12];
    let updates = vec![("pump".to_string(), PlcValue::UINT8(1)), ("level".to_string(), PlcValue::UINT8(2))];
    let e = write_var_values(&state, &metas, &updates).unwrap_err();
    assert_eq!(e.kind, VarErrorKind::TypeMismatch);
    assert_eq!(e.name, "level");
    let e = write_var_values(&state, &metas, &[("ghost".to_string(), PlcValue::BOOL(true))]).unwrap_err();
    assert_eq!(e.kind, VarErrorKind::UnknownVariable);
    assert_eq!(write_var_values(&state, &metas, &[]).unwrap(), state);
}
