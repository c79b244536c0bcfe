use zugluft::hw::ChipInfo;
use zugluft::ipc::{
    channel_location, default_curve_hysteresis_delay_ms, default_curve_source, default_curve_hysteresis_only_downward,
    fill_wide, wide_null, CurveSource, CustomKind, PipeServer, SourceSlot,
    CONTROL_PIPE, EVENTS_PIPE, FILE_FLAG_FIRST_PIPE_INSTANCE, PIPE_ACCESS_DUPLEX,
};

fn named(name: &str) -> ChipInfo {
    ChipInfo {
        name: name.to_string(),
        address: 0,
        version: 0,
        slot: 0,
        fan_count: 0,
        control_count: 0,
        temp_count: 2,
        temp_labels: Vec::new(),
        power_labels: Vec::new(),
    }
}

#[test]
fn pipe_names() {
    assert_eq!(EVENTS_PIPE, r"\\.\pipe\zugluft.events");
    assert_eq!(CONTROL_PIPE, r"\\.\pipe\zugluft.control");
}

#[test]
fn first_pipe_instance_is_exclusive() {
    let mut server = PipeServer::new(EVENTS_PIPE);
    assert_eq!(server.pipe_name(), EVENTS_PIPE);
    assert_eq!(server.open_mode(), PIPE_ACCESS_DUPLEX | FILE_FLAG_FIRST_PIPE_INSTANCE);
    assert_eq!(server.open_mode(), 0x0008_0003);
    server.instance_created();
    assert_eq!(server.open_mode(), PIPE_ACCESS_DUPLEX);
    server.instance_created();
    assert_eq!(server.open_mode(), 3);
    assert_eq!(server.pipe_name(), EVENTS_PIPE);
}

#[test]
fn wide_strings_end_in_zero() {
    assert_eq!(wide_null("ab"), vec![0x61, 0x62, 0]);
    assert_eq!(wide_null(""), vec![0]);
    assert_eq!(wide_null("°"), vec![0xb0, 0]);
    assert_eq!(wide_null("\u{1F600}"), vec![0xD83D, 0xDE00, 0]);
    let expected: Vec<u16> = "zugluft €".encode_utf16().chain(std::iter::once(0)).collect();
    assert_eq!(wide_null("zugluft €"), expected);
}

#[test]
fn fill_wide_truncates_to_the_buffer() {
    let mut small = [9u16; 3];
    fill_wide(&mut small, "zugluft");
    assert_eq!(small, [0x7a, 0x75, 0x67]);
    let mut large = [9u16; 6];
    fill_wide(&mut large, "ab");
    assert_eq!(large, [0x61, 0x62, 0, 9, 9, 9]);
}

#[test]
fn curve_sources_resolve_against_published_state() {
    let chips = vec![named("cpu"), named("nct"), named("nct")];
    let customs = vec!["avg".to_string(), "hot".to_string()];
    let temp = CurveSource::Temp { chip: "nct".to_string(), temp: 2 };
    assert_eq!(temp.locate(&chips, &customs), Some(SourceSlot::Temp { chip: 1, temp: 1 }));
    let zero = CurveSource::Temp { chip: "nct".to_string(), temp: 0 };
    assert_eq!(zero.locate(&chips, &customs), None);
    let missing = CurveSource::Temp { chip: "gpu".to_string(), temp: 1 };
    assert_eq!(missing.locate(&chips, &customs), None);
    let custom = CurveSource::Custom { custom: "hot".to_string() };
    assert_eq!(custom.locate(&chips, &customs), Some(SourceSlot::Custom { index: 1 }));
    let unknown = CurveSource::Custom { custom: "cold".to_string() };
    assert_eq!(unknown.locate(&chips, &customs), None);
    assert_eq!(channel_location(&chips, "cpu", 1), Some(SourceSlot::Temp { chip: 0, temp: 0 }));
}

#[test]
fn custom_kinds_compare() {
    assert_eq!(CustomKind::Average, CustomKind::Average);
    assert_ne!(CustomKind::Min, CustomKind::Max);
}

#[test]
fn curve_hysteresis_defaults() {
    assert_eq!(default_curve_hysteresis_delay_ms(), 2000);
    assert!(default_curve_hysteresis_only_downward());
}

#[test]
fn messages_end_in_a_line_feed() {
    assert_eq!(zugluft::ipc::frame_line(b"{}".to_vec()), b"{}\n".to_vec());
    assert_eq!(zugluft::ipc::frame_line(Vec::new()), vec![b'\n']);
}

fn source_text(source: Option<CurveSource>) -> String {
    match source {
        Some(CurveSource::Temp { chip, temp }) => format!("{chip}:{temp}"),
        Some(CurveSource::Custom { custom }) => format!("custom {custom}"),
        None => "none".to_string(),
    }
}

#[test]
fn new_curves_read_the_first_live_channel() {
    let chips = vec![named("cpu"), named("nct")];
    let customs = vec!["avg".to_string()];
    let readable = vec![vec![false, false], vec![false, true, true]];
    assert_eq!(source_text(default_curve_source(&chips, &readable, &customs)), "nct:2");
    let readable = vec![vec![false], vec![false]];
    assert_eq!(source_text(default_curve_source(&chips, &readable, &customs)), "custom avg");
    assert_eq!(source_text(default_curve_source(&chips, &readable, &[])), "none");
    let readable = vec![vec![false], vec![false], vec![true]];
    assert_eq!(source_text(default_curve_source(&chips, &readable, &[])), "none");
    let readable = vec![vec![true]];
    assert_eq!(source_text(default_curve_source(&chips, &readable, &[])), "cpu:1");
}
