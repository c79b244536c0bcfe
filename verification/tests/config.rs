use zugluft::config_file::{edit_config_text, ConfigEdit};
use zugluft::ui::{channel_key, SensorKey, SensorKind};
use zugluft::config::{
    dashboard_table, dashboard_table_matches, new_entry, entry_position, hidden_list_after, pins_after_edit,
    fallback_curve_id, fallback_custom_id, DashboardEntry, DashboardItem, DashboardItemKind, EntryKind,
    FanUnit, HiddenCategory, NamesConfig, TempUnit, HIDDEN_DEVICE_KEY,
};

fn strings(items: &[&str]) -> Vec<String> {
    items.iter().map(|s| s.to_string()).collect()
}

fn ids(items: &[Option<&str>]) -> Vec<Option<String>> {
    items.iter().map(|s| s.map(str::to_string)).collect()
}

#[test]
fn category_keys_and_channel_categories() {
    assert_eq!(HiddenCategory::Fans.key(), "fans");
    assert_eq!(HiddenCategory::Temperatures.key(), "temperatures");
    assert_eq!(HiddenCategory::Power.key(), "power");
    assert_eq!(HiddenCategory::from_channel_key("fan2"), Some(HiddenCategory::Fans));
    assert_eq!(HiddenCategory::from_channel_key("temp10"), Some(HiddenCategory::Temperatures));
    assert_eq!(HiddenCategory::from_channel_key("power1"), Some(HiddenCategory::Power));
    assert_eq!(HiddenCategory::from_channel_key("fan0"), None);
    assert_eq!(HiddenCategory::from_channel_key("fan"), None);
    assert_eq!(HiddenCategory::from_channel_key("fan1x"), None);
    assert_eq!(HiddenCategory::from_channel_key("custom1"), None);
    assert_eq!(HiddenCategory::from_channel_key("Fan1"), None);
}

#[test]
fn unit_names_and_defaults() {
    assert_eq!(TempUnit::default(), TempUnit::Celsius);
    assert_eq!(FanUnit::default(), FanUnit::Rpm);
    assert_eq!(TempUnit::Fahrenheit.as_str(), "fahrenheit");
    assert_eq!(TempUnit::Celsius.as_str(), "celsius");
    assert_eq!(FanUnit::Percent.as_str(), "percent");
    assert_eq!(FanUnit::Rpm.as_str(), "rpm");
}

#[test]
fn fallback_ids_are_one_based() {
    assert_eq!(fallback_custom_id(0), "custom1");
    assert_eq!(fallback_curve_id(11), "curve12");
}

#[test]
fn entries_are_found_by_own_or_positional_id() {
    let list = ids(&[Some("cpu"), None, Some("gpu")]);
    assert_eq!(entry_position(EntryKind::Custom, &list, "cpu"), Some(0));
    assert_eq!(entry_position(EntryKind::Custom, &list, "custom2"), Some(1));
    assert_eq!(entry_position(EntryKind::Custom, &list, "custom1"), None);
    assert_eq!(entry_position(EntryKind::Curve, &list, "curve2"), Some(1));
    assert_eq!(entry_position(EntryKind::Curve, &list, "custom2"), None);
    assert_eq!(entry_position(EntryKind::Curve, &list, "gpu"), Some(2));
    let twice = ids(&[Some("a"), Some("a")]);
    assert_eq!(entry_position(EntryKind::Custom, &twice, "a"), Some(0));
    assert_eq!(entry_position(EntryKind::Custom, &[], "a"), None);
}

#[test]
fn hiding_appends_once_and_showing_removes_every_copy() {
    let keys = strings(&["fan1", "temp2", "fan1"]);
    assert_eq!(hidden_list_after(&keys, "fan1", false), strings(&["temp2"]));
    assert_eq!(hidden_list_after(&keys, "fan1", true), strings(&["temp2", "fan1"]));
    assert_eq!(hidden_list_after(&keys, "power1", true), strings(&["fan1", "temp2", "fan1", "power1"]));
    assert!(hidden_list_after(&strings(&["temp2"]), "temp2", false).is_empty());
    assert_eq!(hidden_list_after(&Vec::new(), HIDDEN_DEVICE_KEY, true), strings(&[HIDDEN_DEVICE_KEY]));
    assert_eq!(
        hidden_list_after(&strings(&["fans"]), HiddenCategory::Fans.key(), false),
        Vec::<String>::new()
    );
    assert_eq!(
        hidden_list_after(&Vec::new(), HiddenCategory::Power.key(), true),
        strings(&["power"])
    );
}

#[test]
fn dashboard_entries_follow_the_item_kind() {
    let fan = DashboardItem::fan("nct6798", "fan1");
    let entry = dashboard_table(&fan);
    assert_eq!(entry.kind.as_deref(), Some("fan"));
    assert_eq!(entry.chip.as_deref(), Some("nct6798"));
    assert_eq!(entry.channel.as_deref(), Some("fan1"));
    assert_eq!(entry.id, None);
    let curve = DashboardItem::curve("quiet");
    let entry = dashboard_table(&curve);
    assert_eq!(entry.kind.as_deref(), Some("curve"));
    assert_eq!(entry.id.as_deref(), Some("quiet"));
    assert_eq!(entry.chip, None);
    assert_eq!(DashboardItemKind::Sensor.as_str(), "sensor");
    assert!(dashboard_table_matches(Some(&dashboard_table(&fan)), &fan));
    assert!(!dashboard_table_matches(None, &fan));
    let sensor = DashboardItem::sensor("nct6798", "fan1");
    assert!(!dashboard_table_matches(Some(&dashboard_table(&fan)), &sensor));
}

fn entry(kind: &str, chip: &str, channel: &str) -> DashboardEntry {
    DashboardEntry {
        kind: Some(kind.to_string()),
        chip: Some(chip.to_string()),
        channel: Some(channel.to_string()),
        id: None,
    }
}

#[test]
fn pinning_moves_the_item_to_the_end_once() {
    let fan = DashboardItem::fan("nct", "fan1");
    let entries = vec![entry("fan", "nct", "fan1"), entry("sensor", "nct", "temp1")];
    let pinned = pins_after_edit(entries, &fan, true);
    assert_eq!(pinned.len(), 2);
    assert_eq!(pinned[0].channel.as_deref(), Some("temp1"));
    assert!(dashboard_table_matches(pinned.last(), &fan));
    let unpinned = pins_after_edit(pinned, &fan, false);
    assert_eq!(unpinned.len(), 1);
    assert_eq!(unpinned[0].kind.as_deref(), Some("sensor"));
}

fn dashboard_entries(text: &str) -> Vec<DashboardEntry> {
    let doc = text.parse::<toml_edit::DocumentMut>().expect("valid toml");
    let field = |table: &toml_edit::Table, key: &str| {
        table.get(key).and_then(|v| v.as_str()).map(str::to_string)
    };
    doc.get("dashboard")
        .and_then(|d| d.get("item"))
        .and_then(|i| i.as_array_of_tables())
        .map(|items| {
            items
                .iter()
                .map(|t| DashboardEntry {
                    kind: field(t, "kind"),
                    chip: field(t, "chip"),
                    channel: field(t, "channel"),
                    id: field(t, "id"),
                })
                .collect()
        })
        .unwrap_or_default()
}

#[test]
fn unpin_prunes_empty_dashboard_table() {
    let text = "[[dashboard.item]]\nkind = \"fan\"\nchip = \"nct6798\"\nchannel = \"fan1\"\n";
    let item = DashboardItem::fan("nct6798", "fan1");

    let text = edit_config_text(text, ConfigEdit::Pin { item, pinned: false }).expect("edited");
    let doc = text.parse::<toml_edit::DocumentMut>().expect("valid toml");

    assert!(doc.get("dashboard").is_none());
}

#[test]
fn pins_into_empty_inline_dashboard_table() {
    let item = DashboardItem::fan("nct6798", "fan1");

    let text = edit_config_text("dashboard = {}\n", ConfigEdit::Pin { item, pinned: true }).expect("edited");

    assert!(text.contains("[[dashboard.item]]"));
    let entries = dashboard_entries(&text);
    assert_eq!(entries.len(), 1);
    let fan = DashboardItem::fan("nct6798", "fan1");
    assert!(dashboard_table_matches(entries.first(), &fan));
    let mut config = NamesConfig::new();
    for entry in &entries {
        if let (Some(chip), Some(channel)) = (&entry.chip, &entry.channel) {
            config.push_pin(DashboardItem::fan(chip, channel));
        }
    }
    assert!(config.is_dashboard_pinned(&fan));
}

#[test]
fn labels_prefer_user_names_then_chip_defaults() {
    let mut config = NamesConfig::new();
    config.set_name("nct".to_string(), "temp1".to_string(), "CPU".to_string());
    config.set_name("nct".to_string(), "fan2".to_string(), "Rear".to_string());
    let defaults = strings(&["Package", "Core"]);
    assert_eq!(config.temp_label("nct", 0, &defaults), "CPU");
    assert_eq!(config.temp_label("nct", 1, &defaults), "Core");
    assert_eq!(config.temp_label("nct", 2, &defaults), "Temp 3");
    assert_eq!(config.power_label("nct", 0, &[]), "Power 1");
    assert_eq!(config.fan_label("nct", 1), "Rear");
    assert_eq!(config.fan_label("nct", 0), "Fan 1");
    assert_eq!(config.fan_label("other", 1), "Fan 2");
}

#[test]
fn device_label_ignores_blank_names() {
    let mut config = NamesConfig::new();
    assert_eq!(config.device_label("nct"), "nct");
    config.set_name("nct".to_string(), "name".to_string(), "  ".to_string());
    assert_eq!(config.device_label("nct"), "nct");
    config.set_name("nct".to_string(), "name".to_string(), "Board".to_string());
    assert_eq!(config.device_label("nct"), "Board");
}

#[test]
fn units_default_until_set() {
    let mut config = NamesConfig::new();
    assert_eq!(config.temp_unit(), TempUnit::Celsius);
    assert_eq!(config.fan_unit(), FanUnit::Rpm);
    config.set_units(Some(TempUnit::Fahrenheit), None);
    assert_eq!(config.temp_unit(), TempUnit::Fahrenheit);
    assert_eq!(config.fan_unit(), FanUnit::Rpm);
}

#[test]
fn hidden_by_device_category_or_channel() {
    let mut config = NamesConfig::new();
    config.set_hidden_keys("nct".to_string(), strings(&["temperatures", "fan2"]));
    assert!(config.is_hidden("nct", "temp1"));
    assert!(config.is_category_hidden("nct", HiddenCategory::Temperatures));
    assert!(config.is_hidden("nct", "fan2"));
    assert!(config.is_channel_hidden("nct", "fan2"));
    assert!(!config.is_hidden("nct", "fan1"));
    assert!(!config.is_device_hidden("nct"));
    config.set_hidden_keys("gpu".to_string(), strings(&["device"]));
    assert!(config.is_device_hidden("gpu"));
    assert!(config.is_hidden("gpu", "power1"));
    assert!(!config.is_hidden("other", "temp1"));
}

#[test]
fn graph_overrides() {
    let mut config = NamesConfig::new();
    config.set_graph_color("nct".to_string(), "temp1".to_string(), "#ff8000".to_string());
    config.set_graph_color("nct".to_string(), "temp2".to_string(), "00ff00".to_string());
    config.set_graph_color("nct".to_string(), "temp3".to_string(), "#zz".to_string());
    config.set_graph_style("nct".to_string(), "temp1".to_string(), "dashed".to_string());
    config.set_graph_shown("nct".to_string(), "fan1".to_string(), true);
    assert_eq!(config.graph_color("nct", "temp1"), Some(0xff8000));
    assert_eq!(config.graph_color("nct", "temp2"), Some(0x00ff00));
    assert_eq!(config.graph_color("nct", "temp3"), None);
    assert_eq!(config.graph_color("nct", "temp4"), None);
    assert_eq!(config.graph_style("nct", "temp1"), Some("dashed".to_string()));
    assert_eq!(config.graph_style("nct", "temp2"), None);
    assert_eq!(config.graph_shown("nct", "fan1"), Some(true));
    assert_eq!(config.graph_shown("nct", "fan2"), None);
}

#[test]
fn channel_keys_fall_in_their_category() {
    let key = |kind, index| channel_key(SensorKey { kind, chip: 0, index });
    assert_eq!(
        HiddenCategory::from_channel_key(&key(SensorKind::Temperature, 0)),
        Some(HiddenCategory::Temperatures)
    );
    assert_eq!(HiddenCategory::from_channel_key(&key(SensorKind::FanRpm, 4)), Some(HiddenCategory::Fans));
    assert_eq!(HiddenCategory::from_channel_key(&key(SensorKind::Power, 19)), Some(HiddenCategory::Power));
    assert_eq!(HiddenCategory::from_channel_key(&key(SensorKind::Custom, 0)), None);
    let mut config = NamesConfig::new();
    config.set_hidden_keys("nct".to_string(), hidden_list_after(&Vec::new(), HiddenCategory::Fans.key(), true));
    assert!(config.is_hidden("nct", &key(SensorKind::FanRpm, 2)));
    assert!(!config.is_hidden("nct", &key(SensorKind::Temperature, 2)));
}

#[test]
fn new_entries_take_the_first_free_number() {
    assert_eq!(
        new_entry(EntryKind::Custom, &strings(&["custom2", "x"])),
        (3, "custom3".to_string(), "Sensor 3".to_string())
    );
    assert_eq!(
        new_entry(EntryKind::Custom, &strings(&["custom3", "custom4"])),
        (5, "custom5".to_string(), "Sensor 5".to_string())
    );
    assert_eq!(new_entry(EntryKind::Curve, &[]), (1, "curve1".to_string(), "Curve 1".to_string()));
    assert_eq!(
        new_entry(EntryKind::Curve, &strings(&["curve2", "curve3", "curve4"])),
        (5, "curve5".to_string(), "Curve 5".to_string())
    );
}

#[test]
fn channel_appearance_prefers_user_overrides() {
    let mut config = NamesConfig::new();
    let temp = SensorKey { kind: SensorKind::Temperature, chip: 0, index: 0 };
    let fan = SensorKey { kind: SensorKind::FanRpm, chip: 0, index: 1 };
    assert_eq!(config.channel_appearance("nct", temp, 1), (0x7ec860, zugluft::ui::LineStyle::Solid, true));
    assert_eq!(config.channel_appearance("nct", fan, 11), (0x7ec860, zugluft::ui::LineStyle::Solid, false));
    config.set_graph_color("nct".to_string(), "temp1".to_string(), "#123456".to_string());
    config.set_graph_style("nct".to_string(), "temp1".to_string(), "dotted".to_string());
    config.set_graph_style("nct".to_string(), "fan2".to_string(), "wavy".to_string());
    config.set_graph_shown("nct".to_string(), "fan2".to_string(), true);
    config.set_graph_shown("nct".to_string(), "temp1".to_string(), false);
    assert_eq!(config.channel_appearance("nct", temp, 1), (0x123456, zugluft::ui::LineStyle::Dotted, false));
    assert_eq!(config.channel_appearance("nct", fan, 0), (0x5aa0f2, zugluft::ui::LineStyle::Solid, true));
    assert_eq!(config.channel_appearance("other", temp, 3).0, 0xe06c75);
}
