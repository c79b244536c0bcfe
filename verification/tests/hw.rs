use zugluft::hw::{
    searched_suffix,
    check_fan, chip_info_for, classify_lhm_error, ec_dump, is_live_temperature_name,
    sensor_count_note, sensor_role, slot_for_hardware, stable_u16, ChipInfo, HwError, SensorRole,
};

#[test]
fn keeps_live_temperature_names() {
    assert!(is_live_temperature_name("CPU"));
    assert!(is_live_temperature_name("Core (Tctl/Tdie)"));
    assert!(is_live_temperature_name("GPU Hot Spot"));
    assert!(is_live_temperature_name("Composite Temperature"));
    assert!(is_live_temperature_name("Temperature #8"));
}

#[test]
fn rejects_threshold_and_metadata_temperature_names() {
    assert!(!is_live_temperature_name("Warning Temperature"));
    assert!(!is_live_temperature_name("Critical Temperature"));
    assert!(!is_live_temperature_name("Temperature Sensor Resolution"));
    assert!(!is_live_temperature_name("Thermal Sensor Low Limit"));
    assert!(!is_live_temperature_name("Thermal Sensor High Limit"));
    assert!(!is_live_temperature_name("Thermal Sensor Critical Limit"));
}

#[test]
fn blank_and_padded_temperature_names() {
    assert!(is_live_temperature_name(""));
    assert!(is_live_temperature_name("   \t"));
    assert!(!is_live_temperature_name("  CRITICAL temperature  "));
    assert!(is_live_temperature_name("Critical"));
}

fn fnv_reference(value: &str) -> u16 {
    let mut hash = 0x811c_9dc5u32;
    for byte in value.as_bytes() {
        hash ^= *byte as u32;
        hash = hash.wrapping_mul(0x0100_0193);
    }
    ((hash >> 16) ^ hash) as u16
}

#[test]
fn stable_hash_matches_fnv() {
    assert_eq!(stable_u16(""), ((0x811c_9dc5u32 >> 16) ^ 0x811c_9dc5u32) as u16);
    for id in ["/lpc/nct6798d/0", "/amdcpu/0", "Ünïcödé"] {
        assert_eq!(stable_u16(id), fnv_reference(id));
    }
}

#[test]
fn slots_by_hardware_type() {
    assert_eq!(slot_for_hardware(2), 2);
    assert_eq!(slot_for_hardware(4), 3);
    assert_eq!(slot_for_hardware(5), 3);
    assert_eq!(slot_for_hardware(6), 3);
    assert_eq!(slot_for_hardware(7), 4);
    assert_eq!(slot_for_hardware(11), 5);
    assert_eq!(slot_for_hardware(1), 0);
}

#[test]
fn sensor_roles() {
    assert!(matches!(sensor_role(4, true, false), Some(SensorRole::Temperature)));
    assert!(sensor_role(4, false, false).is_none());
    assert!(matches!(sensor_role(2, false, false), Some(SensorRole::Power)));
    assert!(matches!(sensor_role(7, false, false), Some(SensorRole::FanRpm)));
    assert!(matches!(sensor_role(9, false, true), Some(SensorRole::Control)));
    assert!(sensor_role(9, false, false).is_none());
    assert!(sensor_role(3, true, true).is_none());
}

fn chip(controls: usize) -> ChipInfo {
    chip_info_for("Nuvoton NCT6798D".to_string(), "/lpc/nct6798d/0", 1, vec![], vec![], 3, controls)
        .unwrap()
}

#[test]
fn chip_info_from_counts() {
    assert!(chip_info_for("x".into(), "id", 1, vec![], vec![], 0, 0).is_none());
    let info = chip(2);
    assert_eq!(info.fan_count, 3);
    assert_eq!(info.control_count, 2);
    assert_eq!(info.address, fnv_reference("/lpc/nct6798d/0"));
    assert_eq!(info.slot, 0);
    let gpu = chip_info_for("GPU".into(), "/gpu", 0x104, vec!["Core".into()], vec![], 0, 1).unwrap();
    assert_eq!(gpu.version, 4);
    assert_eq!(gpu.temp_count, 1);
}

#[test]
fn count_mismatch_note() {
    assert_eq!(
        sensor_count_note("NCT", 3, 2).as_deref(),
        Some("NCT: LHM reported 3 RPM fan sensor(s) and 2 control sensor(s); controls are matched by order")
    );
    assert!(sensor_count_note("NCT", 2, 2).is_none());
    assert!(sensor_count_note("NCT", 0, 2).is_none());
}

#[test]
fn fan_index_checks() {
    let chips = vec![chip(2)];
    assert!(check_fan(&chips, 0, 1).is_ok());
    assert!(matches!(check_fan(&chips, 0, 2), Err(HwError::InvalidFan { chip: 0, fan: 2, controls: 2 })));
    assert!(matches!(check_fan(&chips, 1, 0), Err(HwError::InvalidChip { chip: 1, chips: 1 })));
}

#[test]
fn lhm_errors() {
    assert!(matches!(classify_lhm_error("System.UnauthorizedAccessException".into()), HwError::AccessDenied));
    assert!(matches!(classify_lhm_error("Access is denied.".into()), HwError::AccessDenied));
    assert!(matches!(classify_lhm_error("boom".into()), HwError::Lhm(m) if m == "boom"));
    assert!(matches!(ec_dump(3), Err(HwError::NoRawRegisters { chip: 3 })));
}

#[test]
fn searched_places_are_listed() {
    assert_eq!(searched_suffix(&[]), "");
    assert_eq!(searched_suffix(&["a.dll".to_string()]), " (searched: a.dll)");
    assert_eq!(
        searched_suffix(&[r"C:\x\b.dll".to_string(), "b.dll".to_string(), "c".to_string()]),
        r" (searched: C:\x\b.dll; b.dll; c)"
    );
}
