use zugluft::ui::{
    channel_index, channel_key, default_shown, line_styles_in_order, parse_line_style, sensor_id,
    sensor_style, AppView, Assets, LineStyle, SensorKey, SensorKind, SensorUnit, SettingField,
};

fn key(kind: SensorKind, chip: usize, index: usize) -> SensorKey {
    SensorKey { kind, chip, index }
}

#[test]
fn channel_keys_are_one_based() {
    assert_eq!(channel_key(key(SensorKind::Temperature, 0, 0)), "temp1");
    assert_eq!(channel_key(key(SensorKind::FanRpm, 1, 2)), "fan3");
    assert_eq!(channel_key(key(SensorKind::Power, 0, 9)), "power10");
    assert_eq!(channel_key(key(SensorKind::Custom, 0, 4)), "custom");
}

#[test]
fn channel_index_inverts_channel_key() {
    assert_eq!(channel_index("fan3", "fan"), Some(2));
    assert_eq!(channel_index("temp1", "temp"), Some(0));
    assert_eq!(channel_index("fan0", "fan"), None);
    assert_eq!(channel_index("fan", "fan"), None);
    assert_eq!(channel_index("temp1", "fan"), None);
    assert_eq!(channel_index("fanx", "fan"), None);
    let k = key(SensorKind::Power, 0, 6);
    assert_eq!(channel_index(&channel_key(k), "power"), Some(6));
}

#[test]
fn sensor_ids_and_default_visibility() {
    assert_eq!(sensor_id(key(SensorKind::Temperature, 0, 0)), 0);
    assert_eq!(sensor_id(key(SensorKind::FanRpm, 2, 3)), 1024 + 128 + 3);
    assert_eq!(sensor_id(key(SensorKind::Custom, 0, 1)), 3073);
    assert!(default_shown(SensorKind::Temperature));
    assert!(default_shown(SensorKind::Custom));
    assert!(!default_shown(SensorKind::FanRpm));
}

#[test]
fn palette_cycles_and_lines_are_solid() {
    assert_eq!(sensor_style(0), (0x5aa0f2, LineStyle::Solid));
    assert_eq!(sensor_style(9), (0xe0d24f, LineStyle::Solid));
    assert_eq!(sensor_style(10), sensor_style(0));
    assert_eq!(sensor_style(13).0, 0xe06c75);
}

#[test]
fn line_style_names_round_trip() {
    for style in line_styles_in_order() {
        assert_eq!(parse_line_style(style.name()), Some(style));
    }
    assert_eq!(parse_line_style("dashdot"), Some(LineStyle::DashDot));
    assert_eq!(parse_line_style("Dashed"), None);
    assert_eq!(LineStyle::DashDot.label(), "Dash-dot");
    assert_eq!(line_styles_in_order().len(), 4);
}

#[test]
fn unit_labels_views_and_fields() {
    assert_eq!(SensorUnit::Celsius.label(), "°C");
    assert_eq!(SensorUnit::Rpm.label(), "U/min");
    assert_eq!(SensorUnit::Watts.label(), "W");
    assert_eq!(AppView::Telemetry.id(), 3);
    assert_eq!(AppView::Curves.icon(), "icons/spline.svg");
    assert_eq!(AppView::Settings.label(), "Settings");
    assert_eq!(SettingField::Minimum.id(), 5);
    assert_eq!(SettingField::StepUp.id(), 0);
}

#[test]
fn bundled_icons_are_found_by_path() {
    let assets = Assets;
    assert_eq!(assets.find("icons/fan.svg"), Some(1));
    assert_eq!(assets.find("icons/none.svg"), None);
    assert_eq!(assets.list("icons/eye").len(), 2);
    assert_eq!(assets.list("icons/").len(), 13);
    assert!(assets.list("fonts/").is_empty());
    assert_eq!(Assets::names()[12], "icons/wind.svg");
}
