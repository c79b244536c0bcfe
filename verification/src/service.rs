//! The hardware worker's bookkeeping of client requests: requests that
//! arrive between two polls are coalesced into one batch (last write wins
//! per fan), and during a calibration run requests either adjust the run's
//! restore plan, are stored for later, or end the run. Also the settle
//! times of the calibration ladder.

use vstd::prelude::*;

use crate::assoc::{AssocMap, MapKey};
use crate::hw::ChipInfo;
use crate::stores;

verus! {

impl MapKey for (usize, usize) {
    fn key_eq(&self, other: &Self) -> (b: bool) {
        self.0 == other.0 && self.1 == other.1
    }

    fn key_clone(&self) -> (r: Self) {
        (self.0, self.1)
    }
}

/// A message to the worker. `C`, `S` and `D` are the payloads of derived
/// sensor definitions, fan settings and curve definitions.
pub enum WorkerCommand<C, S, D> {
    /// Pin a fan to an encoded target, or hand it back (`None`).
    SetTarget { chip: usize, fan: usize, target: Option<u8> },
    Calibrate,
    SetCustomSensors(C),
    SetFanSettings { chip: usize, fan: usize, settings: S },
    SetCurves(D),
    /// Drive a fan from a curve, or release it (`None`).
    SetFanCurve { chip: usize, fan: usize, curve: Option<String> },
    Redetect,
    Shutdown,
}

/// Everything that queued up between two polls.
pub struct CommandBatch<C, S, D> {
    /// Target per fan; the last request for a fan wins.
    pub pending: AssocMap<(usize, usize), Option<u8>>,
    pub redetect: bool,
    pub calibrate: bool,
    /// The last derived-sensor definitions sent.
    pub customs_update: Option<C>,
    /// Every settings change, in arrival order.
    pub settings_updates: Vec<(usize, usize, S)>,
    /// The last curve definitions sent.
    pub curves_update: Option<D>,
    /// Every curve assignment, in arrival order.
    pub assign_updates: Vec<(usize, usize, Option<String>)>,
}

impl<C, S, D> CommandBatch<C, S, D> {
    pub open spec fn wf(&self) -> bool {
        self.pending.wf()
    }

    pub fn new() -> (r: Self)
        ensures
            r.wf(),
            r.pending@ == Map::<(usize, usize), Option<u8>>::empty(),
            !r.redetect,
            !r.calibrate,
            r.customs_update is None,
            r.settings_updates@.len() == 0,
            r.curves_update is None,
            r.assign_updates@.len() == 0,
    {
        CommandBatch {
            pending: AssocMap::new(),
            redetect: false,
            calibrate: false,
            customs_update: None,
            settings_updates: Vec::new(),
            curves_update: None,
            assign_updates: Vec::new(),
        }
    }

    /// Adds one command to the batch; returns `true` for shutdown, which
    /// leaves the batch as it was.
    pub fn take(&mut self, command: WorkerCommand<C, S, D>) -> (shutdown: bool)
        requires
            old(self).wf(),
        ensures
            final(self).wf(),
            shutdown == (command is Shutdown),
            final(self).pending@ == match command {
                WorkerCommand::SetTarget { chip, fan, target } => old(self).pending@.insert(
                    (chip, fan),
                    target,
                ),
                _ => old(self).pending@,
            },
            final(self).redetect == (old(self).redetect || command is Redetect),
            final(self).calibrate == (old(self).calibrate || command is Calibrate),
            final(self).customs_update == match command {
                WorkerCommand::SetCustomSensors(defs) => Some(defs),
                _ => old(self).customs_update,
            },
            final(self).curves_update == match command {
                WorkerCommand::SetCurves(defs) => Some(defs),
                _ => old(self).curves_update,
            },
            final(self).settings_updates@ == match command {
                WorkerCommand::SetFanSettings { chip, fan, settings } => old(
                    self,
                ).settings_updates@.push((chip, fan, settings)),
                _ => old(self).settings_updates@,
            },
            final(self).assign_updates@ == match command {
                WorkerCommand::SetFanCurve { chip, fan, curve } => old(
                    self,
                ).assign_updates@.push((chip, fan, curve)),
                _ => old(self).assign_updates@,
            },
    {
        match command {
            WorkerCommand::Shutdown => true,
            WorkerCommand::SetTarget { chip, fan, target } => {
                self.pending.insert((chip, fan), target);
                false
            },
            WorkerCommand::Calibrate => {
                self.calibrate = true;
                false
            },
            WorkerCommand::SetCustomSensors(defs) => {
                self.customs_update = Some(defs);
                false
            },
            WorkerCommand::SetFanSettings { chip, fan, settings } => {
                self.settings_updates.push((chip, fan, settings));
                false
            },
            WorkerCommand::SetCurves(defs) => {
                self.curves_update = Some(defs);
                false
            },
            WorkerCommand::SetFanCurve { chip, fan, curve } => {
                self.assign_updates.push((chip, fan, curve));
                false
            },
            WorkerCommand::Redetect => {
                self.redetect = true;
                false
            },
        }
    }
}

/// Coalescing is last-write-wins per fan: of two targets for the same fan
/// in one batch only the later one stays, and a target for another fan
/// does not disturb it.
pub proof fn law_last_target_wins(
    pending: Map<(usize, usize), Option<u8>>,
    key: (usize, usize),
    first: Option<u8>,
    other: (usize, usize),
    other_target: Option<u8>,
    last: Option<u8>,
)
    requires
        other != key,
    ensures
        pending.insert(key, first).insert(other, other_target).insert(key, last)[key] == last,
        pending.insert(key, first).insert(key, last) == pending.insert(key, last),
        pending.insert(key, last).insert(other, other_target)[key] == last,
{
    assert(pending.insert(key, first).insert(key, last) =~= pending.insert(key, last));
}

/// How a calibration run ends early.
#[derive(Clone, Copy, Debug, PartialEq, Eq, Structural)]
pub enum CalibrationEnd {
    Shutdown,
    Redetect,
}

/// What the worker keeps of requests arriving during a calibration run:
/// the restore plan (target per calibrated fan) and the newest definition
/// updates, which apply once polling resumes.
pub struct CalibrationInbox<C, D> {
    pub restore: AssocMap<(usize, usize), Option<u8>>,
    pub customs_update: Option<C>,
    pub curves_update: Option<D>,
}

impl<C, D> CalibrationInbox<C, D> {
    pub open spec fn wf(&self) -> bool {
        self.restore.wf()
    }

    /// Handles one request mid-run. A target for a fan being calibrated
    /// replaces what it returns to afterwards (targets for other fans are
    /// dropped); definitions are kept; settings, curve assignments and
    /// another calibrate are ignored; shutdown and redetect end the run.
    pub fn take<S>(&mut self, command: WorkerCommand<C, S, D>) -> (end: Option<CalibrationEnd>)
        requires
            old(self).wf(),
        ensures
            final(self).wf(),
            end == match command {
                WorkerCommand::Shutdown => Some(CalibrationEnd::Shutdown),
                WorkerCommand::Redetect => Some(CalibrationEnd::Redetect),
                _ => None::<CalibrationEnd>,
            },
            final(self).restore@ == match command {
                WorkerCommand::SetTarget { chip, fan, target } => if old(
                    self,
                ).restore@.contains_key((chip, fan)) {
                    old(self).restore@.insert((chip, fan), target)
                } else {
                    old(self).restore@
                },
                _ => old(self).restore@,
            },
            final(self).customs_update == match command {
                WorkerCommand::SetCustomSensors(defs) => Some(defs),
                _ => old(self).customs_update,
            },
            final(self).curves_update == match command {
                WorkerCommand::SetCurves(defs) => Some(defs),
                _ => old(self).curves_update,
            },
    {
        match command {
            WorkerCommand::Shutdown => Some(CalibrationEnd::Shutdown),
            WorkerCommand::Redetect => Some(CalibrationEnd::Redetect),
            WorkerCommand::SetTarget { chip, fan, target } => {
                if self.restore.contains_key(&(chip, fan)) {
                    self.restore.insert((chip, fan), target);
                }
                None
            },
            WorkerCommand::SetCustomSensors(defs) => {
                self.customs_update = Some(defs);
                None
            },
            WorkerCommand::SetCurves(defs) => {
                self.curves_update = Some(defs);
                None
            },
            _ => None,
        }
    }
}

/// Consecutive failed hardware reads after which the session counts as
/// lost.
pub const MAX_UPDATE_FAILURES: u32 = 5;

/// The failure count after a hardware read, and whether the session is
/// now lost: a good read clears the count, a failed one adds to it.
pub fn record_update(failures: u32, ok: bool) -> (r: (u32, bool))
    ensures
        ok ==> r == (0u32, false),
        !ok ==> r.0 == (if failures < u32::MAX {
            (failures + 1) as u32
        } else {
            u32::MAX
        }) && r.1 == (r.0 >= MAX_UPDATE_FAILURES),
{
    if ok {
        (0, false)
    } else {
        let count = failures.saturating_add(1);
        (count, count >= MAX_UPDATE_FAILURES)
    }
}

/// The command a fan last read back, by chip and fan, if any.
pub open spec fn readback_at(readback: Seq<Vec<Option<u8>>>, ci: usize, fi: usize) -> Option<u8> {
    if ci < readback.len() && fi < readback[ci as int]@.len() {
        readback[ci as int]@[fi as int]
    } else {
        None
    }
}

/// What a fan returns to after calibration: a target requested before or
/// during the run wins, then the target the user last asked for, then the
/// command read back from the fan (`None`: automatic control).
pub open spec fn restore_target(
    requested: Map<(usize, usize), u8>,
    readback: Seq<Vec<Option<u8>>>,
    overrides: Map<(usize, usize), Option<u8>>,
    key: (usize, usize),
) -> Option<u8> {
    if overrides.contains_key(key) {
        overrides[key]
    } else if requested.contains_key(key) {
        Some(requested[key])
    } else {
        readback_at(readback, key.0, key.1)
    }
}

/// The restore plan of a calibration run: every controllable fan with the
/// target it returns to afterwards.
pub fn restore_plan(
    chips: &[ChipInfo],
    requested: &AssocMap<(usize, usize), u8>,
    readback: &Vec<Vec<Option<u8>>>,
    overrides: &AssocMap<(usize, usize), Option<u8>>,
) -> (r: AssocMap<(usize, usize), Option<u8>>)
    requires
        requested.wf(),
        overrides.wf(),
    ensures
        r.wf(),
        forall|k: (usize, usize)|
            #[trigger] r@.contains_key(k) <==> stores::controllable(chips@, k.0, k.1),
        forall|k: (usize, usize)|
            #[trigger] r@.contains_key(k) ==> r@[k] == restore_target(
                requested@,
                readback@,
                overrides@,
                k,
            ),
{
    let mut plan: AssocMap<(usize, usize), Option<u8>> = AssocMap::new();
    let mut ci: usize = 0;
    while ci < chips.len()
        invariant
            plan.wf(),
            requested.wf(),
            overrides.wf(),
            ci <= chips@.len(),
            forall|k: (usize, usize)|
                #[trigger] plan@.contains_key(k) <==> (stores::controllable(chips@, k.0, k.1) && k.0
                    < ci),
            forall|k: (usize, usize)|
                #[trigger] plan@.contains_key(k) ==> plan@[k] == restore_target(
                    requested@,
                    readback@,
                    overrides@,
                    k,
                ),
        decreases chips@.len() - ci,
    {
        let controls = chips[ci].control_count;
        let mut fi: usize = 0;
        while fi < controls
            invariant
                plan.wf(),
                requested.wf(),
                overrides.wf(),
                ci < chips@.len(),
                controls == chips@[ci as int].control_count,
                fi <= controls,
                forall|k: (usize, usize)|
                    #[trigger] plan@.contains_key(k) <==> (stores::controllable(chips@, k.0, k.1) && (
                    k.0 < ci || (k.0 == ci && k.1 < fi))),
                forall|k: (usize, usize)|
                    #[trigger] plan@.contains_key(k) ==> plan@[k] == restore_target(
                        requested@,
                        readback@,
                        overrides@,
                        k,
                    ),
            decreases controls - fi,
        {
            let key = (ci, fi);
            let target = match overrides.get(&key) {
                Some(t) => *t,
                None => match requested.get(&key) {
                    Some(raw) => Some(*raw),
                    None => {
                        if ci < readback.len() && fi < readback[ci].len() {
                            readback[ci][fi]
                        } else {
                            None
                        }
                    },
                },
            };
            plan.insert(key, target);
            fi += 1;
        }
        ci += 1;
    }
    plan
}

/// The service notes after a calibration run: after a conflict the note
/// about another tool overwriting duties is added unless it is already
/// there; after a clean run every copy of it is dropped. Other notes keep
/// their order.
pub open spec fn notes_after(notes: Seq<Seq<char>>, note: Seq<char>, conflict: bool) -> Seq<Seq<char>> {
    if conflict {
        if notes.contains(note) {
            notes
        } else {
            notes.push(note)
        }
    } else {
        notes.filter(|n: Seq<char>| n != note)
    }
}

/// The note shown after a calibration run found its duty writes being
/// overwritten.
pub const CONFLICT_NOTE: &'static str = "calibration aborted: another fan-control tool is adjusting fan duties — close it and recalibrate";

pub open spec fn note_views(v: Seq<String>) -> Seq<Seq<char>> {
    v.map_values(|n: String| n@)
}

pub fn calibration_notes(notes: &Vec<String>, conflict: bool) -> (r: Vec<String>)
    ensures
        note_views(r@) == notes_after(note_views(notes@), CONFLICT_NOTE@, conflict),
{
    let note = crate::chars::chars_of(CONFLICT_NOTE);
    let ghost ns = note_views(notes@);
    let mut out: Vec<String> = Vec::new();
    let mut found = false;
    let mut i: usize = 0;
    while i < notes.len()
        invariant
            i <= notes@.len(),
            ns == note_views(notes@),
            note@ == CONFLICT_NOTE@,
            found == ns.take(i as int).contains(CONFLICT_NOTE@),
            conflict ==> note_views(out@) =~= ns.take(i as int),
            !conflict ==> note_views(out@) =~= ns.take(i as int).filter(
                |n: Seq<char>| n != CONFLICT_NOTE@,
            ),
        decreases notes@.len() - i,
    {
        let n = crate::chars::chars_of(notes[i].as_str());
        let same = crate::chars::same_chars(&n, &note);
        proof {
            assert(ns.take(i + 1).drop_last() =~= ns.take(i as int));
            assert(ns.take(i + 1).last() == notes@[i as int]@);
            reveal_with_fuel(Seq::<_>::filter, 1);
            if !found && same {
                assert(ns.take(i + 1)[i as int] == CONFLICT_NOTE@);
            }
            if found {
                let w = choose|w: int| 0 <= w < i && ns.take(i as int)[w] == CONFLICT_NOTE@;
                assert(ns.take(i + 1)[w] == CONFLICT_NOTE@);
            }
            if !found && !same {
                assert forall|w: int| 0 <= w < i + 1 implies #[trigger] ns.take(i + 1)[w] != CONFLICT_NOTE@ by {
                    if w < i {
                        assert(ns.take(i + 1)[w] == ns.take(i as int)[w]);
                    }
                }
            }
        }
        if same {
            found = true;
        }
        if conflict || !same {
            out.push(notes[i].clone());
            proof {
                assert(note_views(out@) =~= note_views(out@).drop_last().push(notes@[i as int]@));
            }
        }
        i += 1;
    }
    assert(ns.take(i as int) =~= ns);
    if conflict && !found {
        out.push(CONFLICT_NOTE.to_owned());
        assert(note_views(out@) =~= note_views(out@).drop_last().push(CONFLICT_NOTE@));
    }
    out
}

/// Where a calibration run stands.
#[derive(Clone, Copy, Debug, PartialEq, Eq, Structural)]
pub enum CalibrationStage {
    /// Step `n` of the descending ladder.
    Ladder(usize),
    /// Step `n` of the restart probe for fans that stopped.
    Restart(usize),
    /// Sampling is over: restore the fans and store the results.
    Finish,
}

/// What the worker saw during one step: a fan read back a duty other
/// than the one written (another tool is driving it), and whether a
/// sensor reached the abort temperature.
#[derive(Clone, Copy, Debug, PartialEq, Eq, Structural)]
pub struct StepReport {
    pub conflict: bool,
    pub hot: bool,
}

/// The sequencing of a calibration run, step by step.
#[derive(Clone, Copy, Debug, PartialEq, Eq, Structural)]
pub struct CalibrationRun {
    pub stage: CalibrationStage,
    /// Another tool overwrote the duties: the readings are discarded.
    pub conflict: bool,
    /// The temperature guard ended the ladder early.
    pub too_hot: bool,
}

pub open spec fn ladder_duty(step: int) -> u8 {
    calibration_duties()[step]
}

/// The run after a step's report. `any_stopped` tells, after the last
/// ladder step, whether some fan stopped; `all_restarted` tells, during the
/// restart probe, whether every stopped fan has restarted.
pub open spec fn advanced(run: CalibrationRun, report: StepReport, any_stopped: bool, all_restarted: bool) -> CalibrationRun {
    match run.stage {
        CalibrationStage::Ladder(i) => if report.conflict {
            CalibrationRun { stage: CalibrationStage::Finish, conflict: true, ..run }
        } else if i < 9 && ladder_duty(i as int) <= CALIBRATION_GUARD_DUTY && report.hot {
            CalibrationRun { stage: CalibrationStage::Finish, too_hot: true, ..run }
        } else if i + 1 < 9 {
            CalibrationRun { stage: CalibrationStage::Ladder((i + 1) as usize), ..run }
        } else if any_stopped && !run.conflict && !run.too_hot {
            CalibrationRun { stage: CalibrationStage::Restart(0), ..run }
        } else {
            CalibrationRun { stage: CalibrationStage::Finish, ..run }
        },
        CalibrationStage::Restart(j) => if report.conflict {
            CalibrationRun { stage: CalibrationStage::Finish, conflict: true, ..run }
        } else if all_restarted || report.hot || j + 1 >= 8 {
            CalibrationRun { stage: CalibrationStage::Finish, ..run }
        } else {
            CalibrationRun { stage: CalibrationStage::Restart((j + 1) as usize), ..run }
        },
        CalibrationStage::Finish => run,
    }
}

impl CalibrationRun {
    /// A run at the top of the ladder.
    pub fn start() -> (r: CalibrationRun)
        ensures
            r == (CalibrationRun { stage: CalibrationStage::Ladder(0), conflict: false, too_hot: false }),
    {
        CalibrationRun { stage: CalibrationStage::Ladder(0), conflict: false, too_hot: false }
    }

    /// The duty every fan is set to for the current step; `None` once
    /// sampling is over.
    pub fn duty(&self) -> (r: Option<u8>)
        ensures
            r == match self.stage {
                CalibrationStage::Ladder(i) => if i < 9 {
                    Some(calibration_duties()[i as int])
                } else {
                    None::<u8>
                },
                CalibrationStage::Restart(j) => if j < 8 {
                    Some(calibration_start_duties()[j as int])
                } else {
                    None::<u8>
                },
                CalibrationStage::Finish => None::<u8>,
            },
    {
        match self.stage {
            CalibrationStage::Ladder(i) => {
                let ladder = calibration_ladder();
                if i < ladder.len() {
                    Some(ladder[i])
                } else {
                    None
                }
            },
            CalibrationStage::Restart(j) => {
                let probe = restart_probe();
                if j < probe.len() {
                    Some(probe[j])
                } else {
                    None
                }
            },
            CalibrationStage::Finish => None,
        }
    }

    /// Moves on after a step: a conflict ends the run at once; on the
    /// ladder, a hot reading at a guarded duty ends it; after the last
    /// ladder step the restart probe follows if some fan stopped; the probe
    /// ends when every stopped fan restarted, when it runs hot, or at its
    /// last step.
    pub fn advance(&mut self, report: StepReport, any_stopped: bool, all_restarted: bool)
        ensures
            *final(self) == advanced(*old(self), report, any_stopped, all_restarted),
    {
        match self.stage {
            CalibrationStage::Ladder(i) => {
                if report.conflict {
                    self.stage = CalibrationStage::Finish;
                    self.conflict = true;
                } else if i < 9 && ladder_duty_at(i) <= CALIBRATION_GUARD_DUTY && report.hot {
                    self.stage = CalibrationStage::Finish;
                    self.too_hot = true;
                } else if i < 8 {
                    self.stage = CalibrationStage::Ladder(i + 1);
                } else if any_stopped && !self.conflict && !self.too_hot {
                    self.stage = CalibrationStage::Restart(0);
                } else {
                    self.stage = CalibrationStage::Finish;
                }
            },
            CalibrationStage::Restart(j) => {
                if report.conflict {
                    self.stage = CalibrationStage::Finish;
                    self.conflict = true;
                } else if all_restarted || report.hot || j >= 7 {
                    self.stage = CalibrationStage::Finish;
                } else {
                    self.stage = CalibrationStage::Restart(j + 1);
                }
            },
            CalibrationStage::Finish => {},
        }
    }
}

fn ladder_duty_at(i: usize) -> (r: u8)
    requires
        i < 9,
    ensures
        r == ladder_duty(i as int),
{
    let ladder = calibration_ladder();
    ladder[i]
}

/// However the steps report, a run started at the top of the ladder
/// finishes within the nine ladder steps and eight probe steps, and never
/// probes after a conflict or a tripped guard.
pub proof fn law_calibration_ends(run: CalibrationRun, report: StepReport, any_stopped: bool, all_restarted: bool)
    requires
        match run.stage {
            CalibrationStage::Ladder(i) => i < 9 && !run.conflict && !run.too_hot,
            CalibrationStage::Restart(j) => j < 8 && !run.conflict && !run.too_hot,
            CalibrationStage::Finish => true,
        },
    ensures
        ({
            let next = advanced(run, report, any_stopped, all_restarted);
            &&& stage_rank(next.stage) < stage_rank(run.stage) || run.stage == CalibrationStage::Finish
            &&& next.stage !is Finish ==> !next.conflict && !next.too_hot
            &&& match next.stage {
                CalibrationStage::Ladder(i) => i < 9,
                CalibrationStage::Restart(j) => j < 8,
                CalibrationStage::Finish => true,
            }
        }),
{
}

/// Steps left before a run finishes, at most.
pub open spec fn stage_rank(stage: CalibrationStage) -> int {
    match stage {
        CalibrationStage::Ladder(i) => 17 - i,
        CalibrationStage::Restart(j) => 8 - j,
        CalibrationStage::Finish => 0,
    }
}

/// A fan's stop duty from its ladder samples `(duty, spinning, still)`:
/// spinning means above 0 rpm, still below 1 rpm.
pub open spec fn stop_duty_spec(samples: Seq<(u8, bool, bool)>) -> Option<u8> {
    if (exists|i: int| 0 <= i < samples.len() && (#[trigger] samples[i]).1) && (exists|i: int|
        0 <= i < samples.len() && (#[trigger] samples[i]).2) {
        Some(
            samples[choose|i: int|
                0 <= i < samples.len() && samples[i].2 && forall|j: int|
                    0 <= j < i ==> !(#[trigger] samples[j]).2].0,
        )
    } else {
        None
    }
}

/// The duty at which a fan stopped: the first ladder sample (highest duty
/// first) where it stood still, provided it spun at some step; a fan that
/// never spun has no tach and no stop duty.
pub fn stop_duty(samples: &Vec<(u8, bool, bool)>) -> (r: Option<u8>)
    ensures
        r == stop_duty_spec(samples@),
{
    let mut spun = false;
    let mut i: usize = 0;
    while i < samples.len()
        invariant
            i <= samples@.len(),
            spun == exists|j: int| 0 <= j < i && (#[trigger] samples@[j]).1,
        decreases samples@.len() - i,
    {
        if samples[i].1 {
            spun = true;
        }
        i += 1;
    }
    if !spun {
        return None;
    }
    let mut k: usize = 0;
    while k < samples.len()
        invariant
            k <= samples@.len(),
            exists|j: int| 0 <= j < samples@.len() && (#[trigger] samples@[j]).1,
            forall|j: int| 0 <= j < k ==> !(#[trigger] samples@[j]).2,
        decreases samples@.len() - k,
    {
        if samples[k].2 {
            proof {
                let w = k as int;
                let c = choose|c: int|
                    0 <= c < samples@.len() && samples@[c].2 && forall|j: int|
                        0 <= j < c ==> !(#[trigger] samples@[j]).2;
                assert(samples@[w].2);
                assert(c == w) by {
                    if c > w {
                        assert(!samples@[w].2);
                    }
                }
            }
            return Some(samples[k].0);
        }
        k += 1;
    }
    None
}

/// Records the restart duty of every stopped fan that spins at this probe
/// step and had not restarted yet. Returns whether every stopped fan has
/// now restarted.
pub fn record_restarts(
    stopped: &Vec<(usize, usize)>,
    started: &mut AssocMap<(usize, usize), u8>,
    spinning: &Vec<(usize, usize)>,
    duty: u8,
) -> (all: bool)
    requires
        old(started).wf(),
    ensures
        final(started).wf(),
        forall|k: (usize, usize)|
            #[trigger] final(started)@.contains_key(k) <==> (old(started)@.contains_key(k) || (
            stopped@.contains(k) && spinning@.contains(k))),
        forall|k: (usize, usize)|
            #[trigger] old(started)@.contains_key(k) ==> final(started)@[k] == old(started)@[k],
        forall|k: (usize, usize)|
            #[trigger] final(started)@.contains_key(k) && !old(started)@.contains_key(k)
                ==> final(started)@[k] == duty,
        all == forall|i: int| 0 <= i < stopped@.len() ==> final(started)@.contains_key(#[trigger] stopped@[i]),
{
    let ghost before = started@;
    let mut i: usize = 0;
    while i < stopped.len()
        invariant
            started.wf(),
            i <= stopped@.len(),
            forall|k: (usize, usize)|
                #[trigger] started@.contains_key(k) <==> (before.contains_key(k) || (exists|j: int|
                    0 <= j < i && stopped@[j] == k && spinning@.contains(k))),
            forall|k: (usize, usize)| #[trigger] before.contains_key(k) ==> started@[k] == before[k],
            forall|k: (usize, usize)|
                #[trigger] started@.contains_key(k) && !before.contains_key(k) ==> started@[k] == duty,
        decreases stopped@.len() - i,
    {
        let key = stopped[i];
        if !started.contains_key(&key) && contains_pair(spinning, key) {
            started.insert(key, duty);
        }
        proof {
            assert forall|k: (usize, usize)|
                #[trigger] started@.contains_key(k) <==> (before.contains_key(k) || (exists|j: int|
                    0 <= j < i + 1 && stopped@[j] == k && spinning@.contains(k))) by {
                if started@.contains_key(k) && !before.contains_key(k) && k == key {
                    assert(stopped@[i as int] == k);
                }
                if exists|j: int| 0 <= j < i + 1 && stopped@[j] == k && spinning@.contains(k) {
                    let j = choose|j: int| 0 <= j < i + 1 && stopped@[j] == k && spinning@.contains(k);
                    if j == i {
                        assert(k == key);
                    }
                }
            }
        }
        i += 1;
    }
    proof {
        assert forall|k: (usize, usize)|
            #[trigger] started@.contains_key(k) <==> (before.contains_key(k) || (stopped@.contains(k)
                && spinning@.contains(k))) by {
            if stopped@.contains(k) && spinning@.contains(k) {
                let j = choose|j: int| 0 <= j < stopped@.len() && stopped@[j] == k;
                assert(0 <= j < i && stopped@[j] == k && spinning@.contains(k));
            }
        }
    }
    let mut all = true;
    let mut n: usize = 0;
    while n < stopped.len()
        invariant
            started.wf(),
            n <= stopped@.len(),
            all == forall|j: int| 0 <= j < n ==> started@.contains_key(#[trigger] stopped@[j]),
        decreases stopped@.len() - n,
    {
        if !started.contains_key(&stopped[n]) {
            all = false;
        }
        n += 1;
    }
    all
}

fn contains_pair(v: &Vec<(usize, usize)>, key: (usize, usize)) -> (r: bool)
    ensures
        r == v@.contains(key),
{
    let mut i: usize = 0;
    while i < v.len()
        invariant
            i <= v@.len(),
            forall|j: int| 0 <= j < i ==> v@[j] != key,
        decreases v@.len() - i,
    {
        if v[i].0 == key.0 && v[i].1 == key.1 {
            assert(v@[i as int] == key);
            return true;
        }
        i += 1;
    }
    false
}

/// Steps at or below this duty watch the temperature guard.
pub const CALIBRATION_GUARD_DUTY: u8 = 51;

/// Seconds to wait before sampling a ladder step: longest for the stop
/// test, longer for low duties, where inertia and tach smoothing mislead.
pub fn calibration_settle_for(duty: u8) -> (r: u64)
    ensures
        r == if duty == 0 {
            30u64
        } else if duty <= CALIBRATION_GUARD_DUTY {
            25u64
        } else {
            15u64
        },
{
    if duty == 0 {
        30
    } else if duty <= CALIBRATION_GUARD_DUTY {
        25
    } else {
        15
    }
}

/// The descending command ladder, down to a full stop.
pub open spec fn calibration_duties() -> Seq<u8> {
    seq![255u8, 204, 153, 102, 51, 38, 26, 13, 0]
}

/// The ascending restart probe for stalled fans, capped at 40 %.
pub open spec fn calibration_start_duties() -> Seq<u8> {
    seq![13u8, 26, 38, 51, 64, 77, 89, 102]
}

pub fn calibration_ladder() -> (r: Vec<u8>)
    ensures
        r@ == calibration_duties(),
{
    let r = vec![255u8, 204, 153, 102, 51, 38, 26, 13, 0];
    assert(r@ =~= calibration_duties());
    r
}

pub fn restart_probe() -> (r: Vec<u8>)
    ensures
        r@ == calibration_start_duties(),
{
    let r = vec![13u8, 26, 38, 51, 64, 77, 89, 102];
    assert(r@ =~= calibration_start_duties());
    r
}


/// The temperature guard holds during the restart probe too: a hot step
/// report, or a conflict, ends a probing run whatever the fans did.
pub proof fn law_hot_probe_finishes(
    run: CalibrationRun,
    report: StepReport,
    any_stopped: bool,
    all_restarted: bool,
)
    requires
        run.stage is Restart,
        report.hot || report.conflict,
    ensures
        advanced(run, report, any_stopped, all_restarted).stage == CalibrationStage::Finish,
{
}

} // verus!
