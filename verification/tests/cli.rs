use zugluft::cli::{
    auto_fans, chip_suffix, command, format_baseline_line, parse_baseline_line, parse_chip, split_words, temp_key,
    BaselineLine, BaselineMode, CalibrationWatch, CliCommand, WatchEvent, WatchStep,
};
use zugluft::hw::ChipInfo;

fn args(items: &[&str]) -> Vec<String> {
    items.iter().map(|s| s.to_string()).collect()
}

fn chip(controls: usize) -> ChipInfo {
    ChipInfo {
        name: "nct".to_string(),
        address: 0,
        version: 0,
        slot: 0,
        fan_count: controls,
        control_count: controls,
        temp_count: 0,
        temp_labels: Vec::new(),
        power_labels: Vec::new(),
    }
}

#[test]
fn commands_from_arguments() {
    assert_eq!(command(&args(&[])), CliCommand::Usage);
    assert_eq!(command(&args(&["status"])), CliCommand::Status);
    assert_eq!(command(&args(&["calibrate"])), CliCommand::Calibrate);
    assert_eq!(command(&args(&["detect"])), CliCommand::Detect);
    assert_eq!(command(&args(&["watch"])), CliCommand::Watch { interval_ms: 1000 });
    assert_eq!(command(&args(&["watch", "250"])), CliCommand::Watch { interval_ms: 250 });
    assert_eq!(command(&args(&["watch", "+5"])), CliCommand::Watch { interval_ms: 5 });
    assert_eq!(command(&args(&["watch", "fast"])), CliCommand::Watch { interval_ms: 1000 });
    assert_eq!(command(&args(&["set", "0", "50"])), CliCommand::SetFan);
    assert_eq!(command(&args(&["auto", "all"])), CliCommand::Auto);
    assert_eq!(command(&args(&["report"])), CliCommand::Report);
    assert_eq!(command(&args(&["Status"])), CliCommand::Usage);
}

#[test]
fn chip_option() {
    assert_eq!(parse_chip(&args(&["1", "50"])), 0);
    assert_eq!(parse_chip(&args(&["1", "50", "--chip", "2"])), 2);
    assert_eq!(parse_chip(&args(&["--chip", "x", "--chip", "3"])), 0);
    assert_eq!(parse_chip(&args(&["1", "--chip"])), 0);
    assert_eq!(chip_suffix(0), "");
    assert_eq!(chip_suffix(2), " --chip 2");
}

#[test]
fn temperature_keys() {
    let labels = args(&["CPU", "GPU"]);
    assert_eq!(temp_key(&labels, 1), "GPU");
    assert_eq!(temp_key(&labels, 4), "t4");
    assert_eq!(temp_key(&[], 0), "t0");
}

#[test]
fn fans_released_by_auto() {
    let chips = vec![chip(3)];
    assert_eq!(auto_fans(&args(&["all"]), &chips, 0), Some(vec![0, 1, 2]));
    assert_eq!(auto_fans(&args(&["all"]), &chips, 5), Some(vec![]));
    assert_eq!(auto_fans(&args(&["7"]), &chips, 0), Some(vec![7]));
    assert_eq!(auto_fans(&args(&["x"]), &chips, 0), None);
    assert_eq!(auto_fans(&args(&[]), &chips, 0), None);
}

#[test]
fn words_split_on_whitespace() {
    let text: Vec<char> = "  c0f1\tmode=default  ".chars().collect();
    let words: Vec<String> = split_words(&text).iter().map(|w| w.iter().collect()).collect();
    assert_eq!(words, args(&["c0f1", "mode=default"]));
    assert!(split_words(&Vec::new()).is_empty());
}

fn mode_of(line: &str) -> Option<(usize, usize, String)> {
    parse_baseline_line(line).map(|l| {
        let mode = match l.mode {
            BaselineMode::Default => "default".to_string(),
            BaselineMode::Software { percent } => format!("software {percent}"),
            BaselineMode::Unknown => "unknown".to_string(),
        };
        (l.chip, l.fan, mode)
    })
}

#[test]
fn baseline_lines() {
    assert_eq!(mode_of("c0f1 mode=default"), Some((0, 1, "default".to_string())));
    assert_eq!(
        mode_of("c2f10 mode=software percent=42.000"),
        Some((2, 10, "software 42.000".to_string()))
    );
    assert_eq!(mode_of("c1f0 mode=unknown"), Some((1, 0, "unknown".to_string())));
    assert_eq!(mode_of("c0f0 ctrl=0x80"), Some((0, 0, "default".to_string())));
    assert_eq!(mode_of("c0f0 mode=software"), None);
    assert_eq!(mode_of("c0f0 mode=turbo"), None);
    assert_eq!(mode_of("c0f0 mode"), None);
    assert_eq!(mode_of("c0f0"), None);
    assert_eq!(mode_of("x0f0 mode=default"), None);
    assert_eq!(mode_of("c0g0 mode=default"), None);
    assert_eq!(mode_of(""), None);
    assert_eq!(mode_of("c0f1 extra=1 mode=default"), Some((0, 1, "default".to_string())));
}

fn step_text(step: WatchStep) -> String {
    match step {
        WatchStep::Wait => "wait".to_string(),
        WatchStep::Print(m) => format!("print {m}"),
        WatchStep::Finished => "finished".to_string(),
        WatchStep::Fail(m) => format!("fail {m}"),
    }
}

#[test]
fn calibration_progress_is_printed_once() {
    let mut watch = CalibrationWatch::new();
    let calibrating = |m: &str| WatchEvent::Calibrating { message: m.to_string() };
    assert_eq!(step_text(watch.step(WatchEvent::Ready { notes: vec![] })), "wait");
    assert_eq!(step_text(watch.step(calibrating("fan 1"))), "print fan 1");
    assert_eq!(step_text(watch.step(calibrating("fan 1"))), "wait");
    assert_eq!(step_text(watch.step(calibrating("fan 2"))), "print fan 2");
    assert_eq!(step_text(watch.step(WatchEvent::Detecting)), "wait");
    assert_eq!(
        step_text(watch.step(WatchEvent::Ready { notes: args(&["ok", "other"]) })),
        "finished"
    );
}

#[test]
fn calibration_note_fails_the_run() {
    let mut watch = CalibrationWatch::new();
    watch.step(WatchEvent::Calibrating { message: "x".to_string() });
    let notes = args(&["fan 0 ok", "calibration aborted: too hot", "calibration later"]);
    assert_eq!(
        step_text(watch.step(WatchEvent::Ready { notes })),
        "fail calibration aborted: too hot"
    );
}

#[test]
fn calibration_that_never_starts_gives_up() {
    let mut watch = CalibrationWatch::new();
    for _ in 0..8 {
        assert_eq!(step_text(watch.step(WatchEvent::Ready { notes: vec![] })), "wait");
    }
    assert_eq!(
        step_text(watch.step(WatchEvent::Ready { notes: vec![] })),
        "fail calibration did not start (no controllable fans?)"
    );
}

#[test]
fn hardware_failure_fails_the_watch() {
    let mut watch = CalibrationWatch::new();
    assert_eq!(
        step_text(watch.step(WatchEvent::Failed { error: "denied".to_string() })),
        "fail hardware unavailable: denied"
    );
}

#[test]
fn baseline_lines_read_back_what_was_written() {
    let lines = vec![
        BaselineLine { chip: 0, fan: 1, mode: BaselineMode::Default },
        BaselineLine { chip: 12, fan: 3, mode: BaselineMode::Software { percent: "42.500".to_string() } },
        BaselineLine { chip: 1, fan: 0, mode: BaselineMode::Unknown },
    ];
    let texts: Vec<String> = lines.iter().map(format_baseline_line).collect();
    assert_eq!(texts[0], "c0f1 mode=default");
    assert_eq!(texts[1], "c12f3 mode=software percent=42.500");
    assert_eq!(texts[2], "c1f0 mode=unknown");
    assert_eq!(mode_of(&texts[1]), Some((12, 3, "software 42.500".to_string())));
    assert_eq!(mode_of(&texts[2]), Some((1, 0, "unknown".to_string())));
}
