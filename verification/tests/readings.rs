use zugluft::cli::{fan_mode, DutyKind, FanMode};
use zugluft::config::{
    entry_identity, pins_after_edit, template_text_for, visible_readings, ChipPresence, DashboardEntry,
    DashboardItem, EntryKind, NamesConfig, TEMPLATE_CURVES, TEMPLATE_CURVE_TAIL, TEMPLATE_EXAMPLES, TEMPLATE_HEAD,
    TEMPLATE_SECOND_INPUT,
};
use zugluft::hw::ChipInfo;
use zugluft::text_edit::TextEdit;
use zugluft::ui::{DefinitionSync, SensorKey, SensorKind, ServicePhase};

fn strings(items: &[&str]) -> Vec<String> {
    items.iter().map(|s| s.to_string()).collect()
}

fn presence(temps: &[bool], fans: &[bool], powers: &[bool]) -> ChipPresence {
    ChipPresence { temps: temps.to_vec(), fans: fans.to_vec(), powers: powers.to_vec() }
}

fn key(kind: SensorKind, chip: usize, index: usize) -> SensorKey {
    SensorKey { kind, chip, index }
}

fn info(name: &str, temp_labels: &[&str], power_labels: &[&str]) -> ChipInfo {
    ChipInfo {
        name: name.to_string(),
        address: 0x290,
        version: 1,
        slot: 0,
        fan_count: 0,
        control_count: 0,
        temp_count: temp_labels.len(),
        temp_labels: strings(temp_labels),
        power_labels: strings(power_labels),
    }
}

#[test]
fn readings_follow_chip_then_kind_order_with_running_slots() {
    let names = NamesConfig::new();
    let chips = vec![presence(&[true, true], &[true], &[true]), presence(&[true], &[], &[])];
    let r = visible_readings(&names, &strings(&["nct", "gpu"]), &chips, &[true]);
    assert_eq!(
        r,
        vec![
            (key(SensorKind::Temperature, 0, 0), 0),
            (key(SensorKind::Temperature, 0, 1), 1),
            (key(SensorKind::FanRpm, 0, 0), 2),
            (key(SensorKind::Power, 0, 0), 3),
            (key(SensorKind::Temperature, 1, 0), 4),
            (key(SensorKind::Custom, 0, 0), 5),
        ]
    );
}

#[test]
fn absent_and_hidden_channels_keep_their_slots() {
    let mut names = NamesConfig::new();
    names.set_hidden_keys("nct".to_string(), strings(&["fan1"]));
    let chips = vec![presence(&[false, true], &[true, true], &[])];
    let r = visible_readings(&names, &strings(&["nct"]), &chips, &[false, true]);
    assert_eq!(
        r,
        vec![
            (key(SensorKind::Temperature, 0, 1), 1),
            (key(SensorKind::FanRpm, 0, 1), 3),
            (key(SensorKind::Custom, 0, 1), 5),
        ]
    );
}

#[test]
fn unnamed_chip_is_looked_up_by_its_position() {
    let mut names = NamesConfig::new();
    names.set_hidden_keys("chip 1".to_string(), strings(&["temp1"]));
    let chips = vec![presence(&[true], &[], &[]), presence(&[true, true], &[], &[])];
    let r = visible_readings(&names, &strings(&["nct"]), &chips, &[]);
    assert_eq!(r, vec![(key(SensorKind::Temperature, 0, 0), 0), (key(SensorKind::Temperature, 1, 1), 2)]);
}

#[test]
fn hidden_device_drops_all_its_readings() {
    let mut names = NamesConfig::new();
    names.set_hidden_keys("nct".to_string(), strings(&["device"]));
    let chips = vec![presence(&[true], &[true], &[true])];
    let r = visible_readings(&names, &strings(&["nct"]), &chips, &[true]);
    assert_eq!(r, vec![(key(SensorKind::Custom, 0, 0), 3)]);
}

#[test]
fn template_lists_reading_channels_commented_out() {
    let chips = vec![info("ITE IT8686E", &["CPU"], &[]), info("GPU", &[], &["Board"]), info("Spare", &[], &[])];
    let presence = vec![presence(&[true, true, false], &[false, true], &[]), presence(&[], &[], &[true, true])];
    let text = template_text_for(&chips, &presence);
    let expected = format!(
        "{TEMPLATE_HEAD}\n[chips.\"ITE IT8686E\"]\n# temp1 = \"CPU\"\n# temp2 = \"Temp 2\"\n# fan2 = \"Fan 2\"\n\
         \n[chips.\"GPU\"]\n# power1 = \"Board\"\n# power2 = \"Power 2\"\n\
         {TEMPLATE_EXAMPLES}ITE IT8686E{TEMPLATE_SECOND_INPUT}ITE IT8686E{TEMPLATE_CURVES}ITE IT8686E{TEMPLATE_CURVE_TAIL}"
    );
    assert_eq!(text, expected);
}

#[test]
fn template_without_chips_uses_the_example_chip() {
    let text = template_text_for(&[], &[]);
    assert!(text.starts_with("# zugluft display names"));
    assert!(text.contains("[units]\ntemperature = \"celsius\""));
    assert!(text.contains("# inputs = [\n#     { chip = \"ITE IT8688E\", temp = 1, weight = 2.0 },"));
    assert!(text.contains("# source = { chip = \"ITE IT8688E\", temp = 1 }"));
    assert!(text.ends_with("# end = [75.0, 90.0]\n"));
    assert!(!text.contains("[chips."));
}

#[test]
fn entry_identity_fills_in_id_and_name() {
    assert_eq!(entry_identity(EntryKind::Custom, 0, "", ""), ("custom1".to_string(), "custom1".to_string()));
    assert_eq!(entry_identity(EntryKind::Curve, 2, "", "Quiet"), ("curve3".to_string(), "Quiet".to_string()));
    assert_eq!(entry_identity(EntryKind::Curve, 2, "cpu", ""), ("cpu".to_string(), "cpu".to_string()));
    assert_eq!(entry_identity(EntryKind::Custom, 5, "mix", "Mix"), ("mix".to_string(), "Mix".to_string()));
}

#[test]
fn pinned_entry_carries_exactly_the_pin_fields() {
    let old = vec![DashboardEntry {
        kind: Some("curve".to_string()),
        chip: None,
        channel: None,
        id: Some("cpu".to_string()),
    }];
    let fan = DashboardItem::fan("nct", "fan2");
    let r = pins_after_edit(old, &fan, true);
    assert_eq!(r.len(), 2);
    let last = &r[1];
    assert_eq!(last.kind.as_deref(), Some("fan"));
    assert_eq!(last.chip.as_deref(), Some("nct"));
    assert_eq!(last.channel.as_deref(), Some("fan2"));
    assert_eq!(last.id, None);
    let curve = DashboardItem::curve("quiet");
    let r = pins_after_edit(r, &curve, true);
    let last = &r[2];
    assert_eq!(last.kind.as_deref(), Some("curve"));
    assert_eq!(last.chip, None);
    assert_eq!(last.channel, None);
    assert_eq!(last.id.as_deref(), Some("quiet"));
}

#[test]
fn definitions_are_sent_once_per_ready_connection() {
    let mut sync = DefinitionSync::new();
    assert!(!sync.on_state(ServicePhase::Connecting));
    assert!(sync.on_state(ServicePhase::Ready));
    assert!(!sync.on_state(ServicePhase::Ready));
    assert!(!sync.on_state(ServicePhase::Busy));
    assert!(!sync.on_state(ServicePhase::Ready));
    sync.config_reloaded();
    assert!(sync.on_state(ServicePhase::Ready));
    assert!(!sync.on_state(ServicePhase::Unavailable));
    assert!(!sync.on_state(ServicePhase::Busy));
    assert!(sync.on_state(ServicePhase::Ready));
}

#[test]
fn fan_mode_names_curves_and_duties() {
    let ids = strings(&["cpu", "gpu", "cpu"]);
    let names = strings(&["CPU Curve", "GPU Curve", "Other"]);
    assert!(matches!(fan_mode(Some("cpu"), &ids, &names, None), FanMode::Curve(n) if n == "CPU Curve"));
    assert!(matches!(fan_mode(Some("gpu"), &ids, &names, Some(DutyKind::Auto)), FanMode::Curve(n) if n == "GPU Curve"));
    assert!(matches!(fan_mode(Some("gone"), &ids, &names, None), FanMode::Curve(n) if n == "gone"));
    assert!(matches!(fan_mode(Some("gpu"), &ids, &strings(&["CPU Curve"]), None), FanMode::Curve(n) if n == "gpu"));
    assert!(matches!(fan_mode(None, &ids, &names, None), FanMode::NoControl));
    assert!(matches!(fan_mode(None, &ids, &names, Some(DutyKind::Auto)), FanMode::Auto));
    assert!(matches!(fan_mode(None, &ids, &names, Some(DutyKind::Manual)), FanMode::Manual));
}

#[test]
fn cursor_byte_counts_utf8_bytes() {
    let edit = TextEdit::new("a°b".to_string());
    assert_eq!(edit.cursor(), 3);
    assert_eq!(edit.cursor_byte(), 4);
    assert_eq!(TextEdit::new(String::new()).cursor_byte(), 0);
    assert_eq!(TextEdit::new("abc".to_string()).cursor_byte(), 3);
}

#[test]
fn hiding_or_losing_a_reading_recolours_nothing_else() {
    let chip_names = strings(&["nct"]);
    let all = vec![presence(&[true, true], &[true], &[true])];
    let fewer = vec![presence(&[false, true], &[true], &[true])];
    let mut names = NamesConfig::new();
    let full = visible_readings(&names, &chip_names, &all, &[true]);
    names.set_hidden_keys("nct".to_string(), strings(&["fan1"]));
    let thinned = visible_readings(&names, &chip_names, &fewer, &[true]);
    assert_eq!(full.len(), 5);
    assert_eq!(thinned.len(), 3);
    for (key, slot) in &thinned {
        let same = full.iter().find(|(k, _)| k == key).expect("shown in both");
        assert_eq!(same.1, *slot);
    }
}

#[test]
fn selected_byte_range_counts_utf8_bytes() {
    let mut edit = TextEdit::new("a°b".to_string());
    assert_eq!(edit.selected_byte_range(), (4, 4));
    edit.move_left(true, false);
    assert_eq!(edit.selected_range(), (2, 3));
    assert_eq!(edit.selected_byte_range(), (3, 4));
    edit.move_home(true);
    assert_eq!(edit.selected_byte_range(), (0, 4));
}
