use zugluft::service::{
    calibration_ladder, calibration_settle_for, record_update, restart_probe, CalibrationEnd,
    CalibrationInbox, CommandBatch, WorkerCommand, CALIBRATION_GUARD_DUTY,
};
use zugluft::assoc::AssocMap;
use zugluft::hw::ChipInfo;
use zugluft::service::{
    calibration_notes, record_restarts, restore_plan, stop_duty, CalibrationRun, CalibrationStage, StepReport, CONFLICT_NOTE,
};

type Command = WorkerCommand<u32, u8, u16>;

#[test]
fn batch_keeps_the_last_target_per_fan() {
    let mut batch: CommandBatch<u32, u8, u16> = CommandBatch::new();
    assert!(!batch.take(Command::SetTarget { chip: 0, fan: 1, target: Some(10) }));
    assert!(!batch.take(Command::SetTarget { chip: 0, fan: 2, target: Some(20) }));
    assert!(!batch.take(Command::SetTarget { chip: 0, fan: 1, target: None }));
    assert_eq!(batch.pending.len(), 2);
    assert_eq!(batch.pending.get(&(0, 1)), Some(&None));
    assert_eq!(batch.pending.get(&(0, 2)), Some(&Some(20)));
    assert!(!batch.redetect && !batch.calibrate);
}

#[test]
fn batch_collects_flags_and_updates() {
    let mut batch: CommandBatch<u32, u8, u16> = CommandBatch::new();
    batch.take(Command::Redetect);
    batch.take(Command::Calibrate);
    batch.take(Command::SetCustomSensors(1));
    batch.take(Command::SetCustomSensors(2));
    batch.take(Command::SetCurves(7));
    batch.take(Command::SetFanSettings { chip: 0, fan: 0, settings: 5 });
    batch.take(Command::SetFanSettings { chip: 0, fan: 0, settings: 6 });
    batch.take(Command::SetFanCurve { chip: 1, fan: 0, curve: Some("q".to_string()) });
    assert!(batch.redetect);
    assert!(batch.calibrate);
    assert_eq!(batch.customs_update, Some(2));
    assert_eq!(batch.curves_update, Some(7));
    assert_eq!(batch.settings_updates, vec![(0, 0, 5), (0, 0, 6)]);
    assert_eq!(batch.assign_updates, vec![(1, 0, Some("q".to_string()))]);
    assert!(batch.take(Command::Shutdown));
    assert_eq!(batch.customs_update, Some(2));
}

#[test]
fn calibration_inbox_adjusts_only_calibrated_fans() {
    let mut restore = AssocMap::new();
    restore.insert((0, 0), Some(100u8));
    let mut inbox: CalibrationInbox<u32, u16> =
        CalibrationInbox { restore, customs_update: None, curves_update: None };
    assert_eq!(inbox.take::<u8>(Command::SetTarget { chip: 0, fan: 0, target: None }), None);
    assert_eq!(inbox.take::<u8>(Command::SetTarget { chip: 0, fan: 1, target: Some(5) }), None);
    assert_eq!(inbox.restore.get(&(0, 0)), Some(&None));
    assert_eq!(inbox.restore.get(&(0, 1)), None);
    assert_eq!(inbox.take::<u8>(Command::SetCurves(3)), None);
    assert_eq!(inbox.curves_update, Some(3));
    assert_eq!(inbox.take::<u8>(Command::Calibrate), None);
    assert_eq!(inbox.take::<u8>(Command::Redetect), Some(CalibrationEnd::Redetect));
    assert_eq!(inbox.take::<u8>(Command::Shutdown), Some(CalibrationEnd::Shutdown));
}

#[test]
fn settle_times_by_duty() {
    assert_eq!(calibration_settle_for(0), 30);
    assert_eq!(calibration_settle_for(13), 25);
    assert_eq!(calibration_settle_for(CALIBRATION_GUARD_DUTY), 25);
    assert_eq!(calibration_settle_for(52), 15);
    assert_eq!(calibration_settle_for(255), 15);
}

#[test]
fn duty_ladders() {
    assert_eq!(calibration_ladder(), vec![255, 204, 153, 102, 51, 38, 26, 13, 0]);
    assert_eq!(restart_probe(), vec![13, 26, 38, 51, 64, 77, 89, 102]);
}

#[test]
fn five_failed_reads_lose_the_session() {
    let mut failures = 0;
    for expected in 1..=4 {
        let (count, lost) = record_update(failures, false);
        assert_eq!((count, lost), (expected, false));
        failures = count;
    }
    assert_eq!(record_update(failures, false), (5, true));
    assert_eq!(record_update(4, true), (0, false));
    assert_eq!(record_update(u32::MAX, false), (u32::MAX, true));
}

fn chip(controls: usize) -> ChipInfo {
    ChipInfo {
        name: "nct".to_string(),
        address: 0,
        version: 0,
        slot: 0,
        fan_count: controls + 1,
        control_count: controls,
        temp_count: 0,
        temp_labels: Vec::new(),
        power_labels: Vec::new(),
    }
}

#[test]
fn restore_plan_prefers_overrides_then_requests_then_readback() {
    let chips = vec![chip(3), chip(1)];
    let mut requested = AssocMap::new();
    requested.insert((0, 1), 90u8);
    requested.insert((0, 2), 91u8);
    let readback = vec![vec![Some(10), Some(11), Some(12), Some(13)], vec![]];
    let mut overrides = AssocMap::new();
    overrides.insert((0, 2), None);
    overrides.insert((1, 0), Some(5u8));
    overrides.insert((7, 0), Some(6u8));
    let plan = restore_plan(&chips, &requested, &readback, &overrides);
    assert_eq!(plan.len(), 4);
    assert_eq!(plan.get(&(0, 0)), Some(&Some(10)));
    assert_eq!(plan.get(&(0, 1)), Some(&Some(90)));
    assert_eq!(plan.get(&(0, 2)), Some(&None));
    assert_eq!(plan.get(&(1, 0)), Some(&Some(5)));
    assert_eq!(plan.get(&(0, 3)), None);
    assert_eq!(plan.get(&(7, 0)), None);
    let empty = restore_plan(&[chip(0)], &requested, &readback, &overrides);
    assert!(empty.is_empty());
}

#[test]
fn conflict_note_is_added_once_and_cleared_after_a_clean_run() {
    let notes = vec!["a".to_string()];
    let after = calibration_notes(&notes, true);
    assert_eq!(after, vec!["a".to_string(), CONFLICT_NOTE.to_string()]);
    assert_eq!(calibration_notes(&after, true), after);
    assert_eq!(calibration_notes(&after, false), notes);
}

fn report(conflict: bool, hot: bool) -> StepReport {
    StepReport { conflict, hot }
}

#[test]
fn calibration_walks_the_ladder_then_probes_stopped_fans() {
    let mut run = CalibrationRun::start();
    let mut duties = Vec::new();
    while let Some(duty) = run.duty() {
        duties.push(duty);
        let probing = matches!(run.stage, CalibrationStage::Restart(_));
        run.advance(report(false, false), true, probing && duty == 51);
    }
    assert_eq!(duties, vec![255, 204, 153, 102, 51, 38, 26, 13, 0, 13, 26, 38, 51]);
    assert!(!run.conflict && !run.too_hot);
}

#[test]
fn calibration_guard_and_conflicts_end_the_run() {
    let mut run = CalibrationRun::start();
    run.advance(report(false, true), true, false);
    assert_eq!(run.stage, CalibrationStage::Ladder(1));
    for _ in 0..3 {
        run.advance(report(false, false), true, false);
    }
    assert_eq!(run.duty(), Some(51));
    run.advance(report(false, true), true, false);
    assert_eq!(run.stage, CalibrationStage::Finish);
    assert!(run.too_hot);
    let mut run = CalibrationRun::start();
    run.advance(report(true, false), false, false);
    assert_eq!((run.stage, run.conflict), (CalibrationStage::Finish, true));
    let mut run = CalibrationRun::start();
    for _ in 0..9 {
        run.advance(report(false, false), false, false);
    }
    assert_eq!(run.stage, CalibrationStage::Finish);
    assert_eq!(run.duty(), None);
}

#[test]
fn stop_duty_is_the_first_still_sample_of_a_spinning_fan() {
    let samples = vec![(255, true, false), (51, true, false), (38, false, true), (0, false, true)];
    assert_eq!(stop_duty(&samples), Some(38));
    assert_eq!(stop_duty(&vec![(255, true, false), (0, true, false)]), None);
    assert_eq!(stop_duty(&vec![(255, false, true), (0, false, true)]), None);
    assert_eq!(stop_duty(&vec![(255, true, true)]), Some(255));
    assert_eq!(stop_duty(&vec![]), None);
}

#[test]
fn restart_duties_are_recorded_once() {
    let stopped = vec![(0, 0), (0, 1)];
    let mut started = AssocMap::new();
    assert!(!record_restarts(&stopped, &mut started, &vec![(0, 1), (1, 0)], 13));
    assert_eq!(started.get(&(0, 1)), Some(&13));
    assert_eq!(started.get(&(1, 0)), None);
    assert!(record_restarts(&stopped, &mut started, &vec![(0, 0), (0, 1)], 26));
    assert_eq!(started.get(&(0, 0)), Some(&26));
    assert_eq!(started.get(&(0, 1)), Some(&13));
    assert!(record_restarts(&vec![], &mut AssocMap::new(), &vec![], 13));
}
