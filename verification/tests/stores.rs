use zugluft::hw::ChipInfo;
use zugluft::stores::{
    apply_curve_assignment, apply_target_request, assignments_for_chips, chip_key, Assignments,
    ManualTargets,
};
use zugluft::table::KeyedTable;

fn chip(name: &str, address: u16, slot: u8, fans: usize, controls: usize) -> ChipInfo {
    ChipInfo {
        name: name.to_string(),
        address,
        version: 0,
        slot,
        fan_count: fans,
        control_count: controls,
        temp_count: 0,
        temp_labels: Vec::new(),
        power_labels: Vec::new(),
    }
}

#[test]
fn chip_key_formats_name_address_and_slot() {
    assert_eq!(chip_key(&chip("Nuvoton NCT6798D", 0x0a2f, 0, 0, 0)), "Nuvoton NCT6798D@0A2F/0");
    assert_eq!(chip_key(&chip("gpu", 0xffff, 3, 0, 0)), "gpu@FFFF/3");
    assert_eq!(chip_key(&chip("x", 7, 12, 0, 0)), "x@0007/12");
}

#[test]
fn assignments_set_get_and_release() {
    let mut store = Assignments::new();
    let key = "nct@0290/0".to_string();
    assert_eq!(store.get(&key, 0), None);
    store.set(&key, 0, Some("quiet"));
    store.set(&key, 2, Some("loud"));
    assert_eq!(store.get(&key, 0), Some("quiet".to_string()));
    assert_eq!(store.get(&key, 2), Some("loud".to_string()));
    store.set(&key, 0, Some("loud"));
    assert_eq!(store.get(&key, 0), Some("loud".to_string()));
    store.set(&key, 0, None);
    assert_eq!(store.get(&key, 0), None);
    assert_eq!(store.get(&key, 2), Some("loud".to_string()));
    assert_eq!(store.get(&"other".to_string(), 2), None);
}

#[test]
fn assignments_are_laid_out_per_detected_fan() {
    let chips = vec![chip("a", 1, 0, 3, 2), chip("b", 2, 3, 1, 1)];
    let mut store = Assignments::new();
    store.set(&chip_key(&chips[0]), 1, Some("quiet"));
    store.set(&chip_key(&chips[1]), 0, Some("gpu"));
    store.set(&chip_key(&chips[1]), 5, Some("stale"));
    let layout = assignments_for_chips(&store, &chips);
    assert_eq!(
        layout,
        vec![
            vec![None, Some("quiet".to_string()), None],
            vec![Some("gpu".to_string())],
        ]
    );
}

#[test]
fn manual_targets_forget_empty_chips() {
    let mut targets = ManualTargets::new();
    let key = "nct@0290/0".to_string();
    targets.set(&key, 1, Some(128));
    assert_eq!(targets.get(&key, 1), Some(128));
    assert_eq!(targets.table().chip_tables().len(), 1);
    targets.set(&key, 1, None);
    assert_eq!(targets.get(&key, 1), None);
    assert_eq!(targets.table().chip_tables().len(), 0);
    targets.set(&key, 3, None);
    assert_eq!(targets.table().chip_tables().len(), 0);
}

#[test]
fn saved_targets_skip_curve_driven_and_missing_fans() {
    let chips = vec![chip("a", 1, 0, 3, 2), chip("b", 2, 3, 1, 1)];
    let mut targets = ManualTargets::new();
    targets.set(&chip_key(&chips[0]), 0, Some(10));
    targets.set(&chip_key(&chips[0]), 1, Some(20));
    targets.set(&chip_key(&chips[0]), 2, Some(30));
    targets.set(&chip_key(&chips[1]), 0, Some(40));
    let assignments = vec![vec![None, Some("quiet".to_string()), None], vec![None]];
    let restored = targets.targets_for_chips(&chips, &assignments);
    assert_eq!(restored, vec![(0, 0, 10), (1, 0, 40)]);
}

#[test]
fn keyed_table_keeps_chips_apart() {
    let mut table: KeyedTable<usize, u8> = KeyedTable::new();
    let a = "a".to_string();
    let b = "b".to_string();
    table.set(&a, 0, 1);
    table.set(&b, 0, 2);
    assert_eq!(table.get(&a, &0), Some(&1));
    assert_eq!(table.get(&b, &0), Some(&2));
    assert_eq!(table.remove(&a, &0), Some(1));
    assert!(table.is_chip_empty(&a));
    assert!(!table.is_chip_empty(&b));
    table.remove_chip(&a);
    assert!(!table.is_chip_empty(&a));
    assert_eq!(table.chip_tables().len(), 1);
    assert_eq!(table.chip_tables()[0].0, "b");
}

#[test]
fn a_manual_target_takes_the_fan_off_its_curve() {
    let chips = vec![chip("a", 1, 0, 3, 2)];
    let key = chip_key(&chips[0]);
    let mut manual = ManualTargets::new();
    let mut curves = Assignments::new();
    curves.set(&key, 1, Some("quiet"));
    let mut layout = assignments_for_chips(&curves, &chips);
    assert!(apply_target_request(&mut manual, &mut curves, &mut layout, &chips, 0, 1, Some(200)));
    assert_eq!(manual.get(&key, 1), Some(200));
    assert_eq!(curves.get(&key, 1), None);
    assert_eq!(layout, vec![vec![None, None, None]]);
    assert!(!apply_target_request(&mut manual, &mut curves, &mut layout, &chips, 0, 1, None));
    assert_eq!(manual.get(&key, 1), None);
    assert!(!apply_target_request(&mut manual, &mut curves, &mut layout, &chips, 0, 2, Some(9)));
    assert_eq!(manual.get(&key, 2), None);
    assert!(!apply_target_request(&mut manual, &mut curves, &mut layout, &chips, 4, 0, Some(9)));
}

#[test]
fn curve_assignments_replace_manual_targets() {
    let chips = vec![chip("a", 1, 0, 3, 2)];
    let key = chip_key(&chips[0]);
    let mut manual = ManualTargets::new();
    let mut curves = Assignments::new();
    manual.set(&key, 0, Some(77));
    let mut layout = assignments_for_chips(&curves, &chips);
    let assign = |m: &mut ManualTargets, c: &mut Assignments, l: &mut Vec<Vec<Option<String>>>, fan, curve: Option<&str>| {
        apply_curve_assignment(m, c, l, &chips, 0, fan, curve.map(str::to_string))
    };
    assert_eq!(assign(&mut manual, &mut curves, &mut layout, 0, Some("loud")), Some(false));
    assert_eq!(manual.get(&key, 0), None);
    assert_eq!(curves.get(&key, 0), Some("loud".to_string()));
    assert_eq!(layout[0][0], Some("loud".to_string()));
    assert_eq!(assign(&mut manual, &mut curves, &mut layout, 0, None), Some(true));
    assert_eq!(curves.get(&key, 0), None);
    assert_eq!(layout[0][0], None);
    assert_eq!(assign(&mut manual, &mut curves, &mut layout, 0, None), Some(false));
    assert_eq!(assign(&mut manual, &mut curves, &mut layout, 2, Some("x")), None);
    assert_eq!(curves.get(&key, 2), None);
}
