use zugluft::config::{DashboardItem, EntryKind, FanUnit, TempUnit};
use zugluft::config_file::{edit_config_text, ConfigEdit};
use zugluft::toml_doc::Leaf;

fn doc(text: &str) -> toml_edit::DocumentMut {
    text.parse::<toml_edit::DocumentMut>().expect("valid toml")
}

fn strs(doc: &toml_edit::DocumentMut, section: &str, key: &str) -> Option<Vec<String>> {
    doc.get(section)?.get(key)?.as_array().map(|a| a.iter().filter_map(|v| v.as_str().map(str::to_string)).collect())
}

fn ids(doc: &toml_edit::DocumentMut, section: &str, field: &str) -> Vec<Option<String>> {
    doc.get(section)
        .and_then(|i| i.as_array_of_tables())
        .map(|a| a.iter().map(|t| t.get(field).and_then(|v| v.as_str()).map(str::to_string)).collect())
        .unwrap_or_default()
}

fn hidden(chip: &str, key: &str, hidden: bool) -> ConfigEdit {
    ConfigEdit::Hidden { chip: chip.to_string(), key: key.to_string(), hidden }
}

#[test]
fn hiding_appends_and_showing_last_key_removes_the_list() {
    let text = "# mine\n[hidden]\nnct = [\"fan1\"]\ngpu = [\"temp1\"]\n";
    let text = edit_config_text(text, hidden("nct", "fan2", true)).expect("edited");
    assert!(text.starts_with("# mine\n"));
    let d = doc(&text);
    assert_eq!(strs(&d, "hidden", "nct"), Some(vec!["fan1".to_string(), "fan2".to_string()]));
    let text = edit_config_text(&text, hidden("nct", "fan1", false)).expect("edited");
    let text = edit_config_text(&text, hidden("nct", "fan2", false)).expect("edited");
    let d = doc(&text);
    assert!(d["hidden"].get("nct").is_none());
    assert_eq!(strs(&d, "hidden", "gpu"), Some(vec!["temp1".to_string()]));
}

#[test]
fn hiding_twice_keeps_one_key() {
    let text = edit_config_text("", hidden("nct", "fans", true)).expect("edited");
    let text = edit_config_text(&text, hidden("nct", "fans", true)).expect("edited");
    assert_eq!(strs(&doc(&text), "hidden", "nct"), Some(vec!["fans".to_string()]));
}

#[test]
fn invalid_toml_is_not_rewritten() {
    assert!(edit_config_text("[hidden\nnct = 1", hidden("nct", "fan1", true)).is_none());
    assert!(edit_config_text("a = ", ConfigEdit::Units { temp: TempUnit::Celsius, fan: FanUnit::Rpm }).is_none());
}

#[test]
fn writing_through_a_plain_value_is_declined() {
    assert!(edit_config_text("hidden = 5\n", hidden("nct", "fan1", true)).is_none());
    assert!(edit_config_text("units = \"x\"\n", ConfigEdit::Units { temp: TempUnit::Celsius, fan: FanUnit::Rpm })
        .is_none());
    // Showing a key needs no write through it.
    assert!(edit_config_text("hidden = 5\n", hidden("nct", "fan1", false)).is_some());
}

#[test]
fn units_are_written_into_units_table() {
    let text = "[units]\ntemperature = \"celsius\"\n[other]\nx = 1\n";
    let edit = ConfigEdit::Units { temp: TempUnit::Fahrenheit, fan: FanUnit::Percent };
    let d = doc(&edit_config_text(text, edit).expect("edited"));
    assert_eq!(d["units"]["temperature"].as_str(), Some("fahrenheit"));
    assert_eq!(d["units"]["fan"].as_str(), Some("percent"));
    assert_eq!(d["other"]["x"].as_integer(), Some(1));
}

fn sensors() -> &'static str {
    "[[custom]]\nid = \"a\"\nname = \"A\"\n\n[[custom]]\nname = \"Second\"\n\n[[custom]]\nid = \"c\"\nname = \"C\"\n"
}

#[test]
fn deleting_an_entry_keeps_the_others_in_order() {
    let edit = ConfigEdit::DeleteEntry { kind: EntryKind::Custom, id: "a".to_string() };
    let d = doc(&edit_config_text(sensors(), edit).expect("edited"));
    assert_eq!(ids(&d, "custom", "name"), vec![Some("Second".to_string()), Some("C".to_string())]);
    let edit = ConfigEdit::DeleteEntry { kind: EntryKind::Custom, id: "custom2".to_string() };
    let d = doc(&edit_config_text(sensors(), edit).expect("edited"));
    assert_eq!(ids(&d, "custom", "id"), vec![Some("a".to_string()), Some("c".to_string())]);
    let edit = ConfigEdit::DeleteEntry { kind: EntryKind::Custom, id: "zzz".to_string() };
    let d = doc(&edit_config_text(sensors(), edit).expect("edited"));
    assert_eq!(ids(&d, "custom", "id").len(), 3);
}

#[test]
fn renaming_an_entry_sets_only_its_name() {
    let edit = ConfigEdit::RenameEntry { kind: EntryKind::Custom, id: "c".to_string(), name: "Mix".to_string() };
    let d = doc(&edit_config_text(sensors(), edit).expect("edited"));
    assert_eq!(
        ids(&d, "custom", "name"),
        vec![Some("A".to_string()), Some("Second".to_string()), Some("Mix".to_string())]
    );
    assert_eq!(ids(&d, "custom", "id"), vec![Some("a".to_string()), None, Some("c".to_string())]);
}

#[test]
fn saving_an_entry_replaces_or_appends() {
    let mut table = toml_edit::Table::new();
    table["id"] = toml_edit::value("c");
    table["name"] = toml_edit::value("New C");
    let edit = ConfigEdit::SaveEntry { kind: EntryKind::Custom, id: "c".to_string(), table: table.clone() };
    let d = doc(&edit_config_text(sensors(), edit).expect("edited"));
    assert_eq!(
        ids(&d, "custom", "name"),
        vec![Some("A".to_string()), Some("Second".to_string()), Some("New C".to_string())]
    );
    let edit = ConfigEdit::SaveEntry { kind: EntryKind::Curve, id: "c".to_string(), table };
    let d = doc(&edit_config_text(sensors(), edit).expect("edited"));
    assert_eq!(ids(&d, "curve", "name"), vec![Some("New C".to_string())]);
    assert_eq!(ids(&d, "custom", "id").len(), 3);
}

#[test]
fn graph_fields_prune_emptied_tables() {
    let set = ConfigEdit::GraphField {
        section: "graph_shown".to_string(),
        chip: "nct".to_string(),
        key: "fan1".to_string(),
        value: Some(Leaf::Flag(false)),
    };
    let text = edit_config_text("", set).expect("edited");
    assert_eq!(doc(&text)["graph_shown"]["nct"]["fan1"].as_bool(), Some(false));
    let clear = ConfigEdit::GraphField {
        section: "graph_shown".to_string(),
        chip: "nct".to_string(),
        key: "fan1".to_string(),
        value: None,
    };
    let text = edit_config_text(&text, clear).expect("edited");
    assert!(doc(&text).get("graph_shown").is_none());
}

#[test]
fn curve_colors_and_names_are_set_and_removed() {
    let set = ConfigEdit::CurveColor { id: "cpu".to_string(), color: Some("#ff0000".to_string()) };
    let text = edit_config_text("", set).expect("edited");
    assert_eq!(doc(&text)["curve_color"]["cpu"].as_str(), Some("#ff0000"));
    let clear = ConfigEdit::CurveColor { id: "cpu".to_string(), color: None };
    let text = edit_config_text(&text, clear).expect("edited");
    assert!(doc(&text).get("curve_color").is_none());

    let name = ConfigEdit::ChipName { chip: "nct".to_string(), key: "temp1".to_string(), name: Some("CPU".to_string()) };
    let text = edit_config_text("[chips.nct]\nfan1 = \"Rear\"\n", name).expect("edited");
    let d = doc(&text);
    assert_eq!(d["chips"]["nct"]["temp1"].as_str(), Some("CPU"));
    assert_eq!(d["chips"]["nct"]["fan1"].as_str(), Some("Rear"));
    let unname = ConfigEdit::ChipName { chip: "nct".to_string(), key: "fan1".to_string(), name: None };
    let d = doc(&edit_config_text(&text, unname).expect("edited"));
    assert!(d["chips"]["nct"].get("fan1").is_none());
    assert_eq!(d["chips"]["nct"]["temp1"].as_str(), Some("CPU"));

    let fan_curve = ConfigEdit::FanCurve { chip: "nct".to_string(), key: "fan2".to_string(), curve: "quiet".to_string() };
    let d = doc(&edit_config_text("", fan_curve).expect("edited"));
    assert_eq!(d["fan_curve"]["nct"]["fan2"].as_str(), Some("quiet"));
}

#[test]
fn pinning_twice_keeps_one_pin_and_others_in_order() {
    let text = "[[dashboard.item]]\nkind = \"curve\"\nid = \"cpu\"\n";
    let fan = || DashboardItem::fan("nct", "fan1");
    let text = edit_config_text(text, ConfigEdit::Pin { item: fan(), pinned: true }).expect("edited");
    let text = edit_config_text(&text, ConfigEdit::Pin { item: fan(), pinned: true }).expect("edited");
    let d = doc(&text);
    let kinds: Vec<Option<String>> = d["dashboard"]["item"]
        .as_array_of_tables()
        .expect("pins")
        .iter()
        .map(|t| t.get("kind").and_then(|v| v.as_str()).map(str::to_string))
        .collect();
    assert_eq!(kinds, vec![Some("curve".to_string()), Some("fan".to_string())]);
}

#[test]
fn unpinning_keeps_other_dashboard_keys() {
    let text = "[dashboard]\ntitle = \"Main\"\n\n[[dashboard.item]]\nkind = \"curve\"\nid = \"cpu\"\n";
    let edit = ConfigEdit::Pin { item: DashboardItem::curve("cpu"), pinned: false };
    let d = doc(&edit_config_text(text, edit).expect("edited"));
    assert_eq!(d["dashboard"]["title"].as_str(), Some("Main"));
    assert!(d["dashboard"].get("item").is_none());
}

#[test]
fn pinning_into_inline_dashboard_makes_it_a_table() {
    let text = "dashboard = { title = \"Main\" }\n";
    let edit = ConfigEdit::Pin { item: DashboardItem::sensor("nct", "temp1"), pinned: true };
    let text = edit_config_text(text, edit).expect("edited");
    assert!(text.contains("[[dashboard.item]]"));
    let d = doc(&text);
    assert!(!d["dashboard"].is_inline_table());
    assert_eq!(d["dashboard"]["title"].as_str(), Some("Main"));
}

#[test]
fn document_level_edits_match_their_names() {
    let mut d = doc("[hidden]\ngpu = [\"fans\"]\n");
    assert!(zugluft::config_file::set_device_hidden(&mut d, "nct", true));
    assert!(zugluft::config_file::set_category_hidden(
        &mut d,
        "gpu",
        zugluft::config::HiddenCategory::Fans,
        false
    ));
    assert_eq!(strs(&d, "hidden", "nct"), Some(vec!["device".to_string()]));
    assert!(d["hidden"].get("gpu").is_none());

    let mut d = doc("[[curve]]\nid = \"a\"\n\n[[curve]]\nid = \"b\"\n");
    assert!(zugluft::config_file::delete_curve(&mut d, "a"));
    assert_eq!(ids(&d, "curve", "id"), vec![Some("b".to_string())]);
    assert!(zugluft::config_file::delete_custom(&mut d, "b"));
    assert_eq!(ids(&d, "curve", "id").len(), 1);
}

#[test]
fn saved_entry_reads_as_the_table() {
    let mut table = toml_edit::Table::new();
    table["id"] = toml_edit::value("a");
    table["kind"] = toml_edit::value("max");
    let expected = table.to_string();
    let edit = ConfigEdit::SaveEntry { kind: EntryKind::Custom, id: "a".to_string(), table };
    let d = doc(&edit_config_text(sensors(), edit).expect("edited"));
    let entries = d["custom"].as_array_of_tables().expect("entries");
    assert_eq!(entries.get(0).expect("first").to_string(), expected);
    assert_eq!(entries.len(), 3);
}
