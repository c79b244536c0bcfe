//! Per-fan tables keyed by chip identity: which curve drives a fan, the
//! manual target the user last asked for, and the generic table that the
//! calibration and tuning stores are built on. Chip identity is
//! [`chip_key`], so entries survive re-detection and chip reordering.

use vstd::prelude::*;

use crate::table::KeyedTable;
use crate::chars;
use crate::hw::ChipInfo;

verus! {

/// `"{name}@{address:04X}/{slot}"`.
pub open spec fn chip_key_spec(name: Seq<char>, address: u16, slot: u8) -> Seq<char> {
    name + "@"@ + chars::hex4_upper(address) + "/"@ + chars::decimal(slot as nat)
}

/// Identity that survives re-detection and chip reordering.
pub fn chip_key(info: &ChipInfo) -> (r: String)
    ensures
        r@ == chip_key_spec(info.name@, info.address, info.slot),
{
    let mut v = chars::chars_of(info.name.as_str());
    let mut at = chars::chars_of("@");
    v.append(&mut at);
    let mut hex = chars::hex4(info.address);
    v.append(&mut hex);
    let mut slash = chars::chars_of("/");
    v.append(&mut slash);
    let mut slot = chars::decimal_digits(info.slot as u64);
    v.append(&mut slot);
    chars::string_from_chars(v.as_slice())
}

/// Which curve drives which fan.
pub struct Assignments {
    chips: KeyedTable<usize, String>,
}

impl Assignments {
    pub closed spec fn wf(&self) -> bool {
        self.chips.wf()
    }

    /// The curve id assigned to a chip's fan.
    pub closed spec fn assigned(&self, chip: Seq<char>, fan: usize) -> Option<Seq<char>> {
        match self.chips.entry(chip, fan) {
            Some(id) => Some(id@),
            None => None,
        }
    }

    pub fn new() -> (r: Assignments)
        ensures
            r.wf(),
            forall|c: Seq<char>, f: usize| r.assigned(c, f) is None,
    {
        Assignments { chips: KeyedTable::new() }
    }

    /// The table underneath, for persistence.
    pub fn table(&self) -> (r: &KeyedTable<usize, String>)
        requires
            self.wf(),
        ensures
            r.wf(),
            forall|c: Seq<char>, f: usize|
                match #[trigger] r.entry(c, f) {
                    Some(id) => self.assigned(c, f) == Some(id@),
                    None => self.assigned(c, f) is None,
                },
    {
        &self.chips
    }

    pub fn get(&self, chip_key: &String, fan: usize) -> (r: Option<String>)
        requires
            self.wf(),
        ensures
            match r {
                Some(id) => self.assigned(chip_key@, fan) == Some(id@),
                None => self.assigned(chip_key@, fan) is None,
            },
    {
        match self.chips.get(chip_key, &fan) {
            Some(id) => Some(id.clone()),
            None => None,
        }
    }

    /// Assigns a curve (`Some(id)`) to a fan or releases it (`None`).
    pub fn set(&mut self, chip_key: &String, fan: usize, curve: Option<&str>)
        requires
            old(self).wf(),
        ensures
            final(self).wf(),
            final(self).assigned(chip_key@, fan) == match curve {
                Some(id) => Some(id@),
                None => None::<Seq<char>>,
            },
            forall|c: Seq<char>, f: usize|
                !(c == chip_key@ && f == fan) ==> #[trigger] final(self).assigned(c, f) == old(
                    self,
                ).assigned(c, f),
    {
        match curve {
            Some(id) => {
                let s = chars::string_from_chars(chars::chars_of(id).as_slice());
                self.chips.set(chip_key, fan, s);
            },
            None => {
                let _ = self.chips.remove(chip_key, &fan);
            },
        }
    }
}

/// The spec of one assignment slot, as the worker keeps them: per chip
/// index, per fan index.
pub open spec fn slot_assigned(assignments: Seq<Vec<Option<String>>>, chip: int, fan: int) -> bool {
    0 <= chip < assignments.len() && 0 <= fan < assignments[chip]@.len()
        && assignments[chip]@[fan] is Some
}

/// Persisted manual fan targets (encoded 0..=255).
pub struct ManualTargets {
    chips: KeyedTable<usize, u8>,
}

impl ManualTargets {
    /// Besides the table's own shape: no chip keeps an empty table.
    pub closed spec fn wf(&self) -> bool {
        &&& self.chips.wf()
        &&& forall|c: Seq<char>| !(#[trigger] self.chips.chip_empty(c))
    }

    pub closed spec fn target(&self, chip: Seq<char>, fan: usize) -> Option<u8> {
        self.chips.entry(chip, fan)
    }

    pub fn new() -> (r: ManualTargets)
        ensures
            r.wf(),
            forall|c: Seq<char>, f: usize| r.target(c, f) is None,
    {
        ManualTargets { chips: KeyedTable::new() }
    }

    pub fn table(&self) -> (r: &KeyedTable<usize, u8>)
        requires
            self.wf(),
        ensures
            r.wf(),
            forall|c: Seq<char>, f: usize| #[trigger] r.entry(c, f) == self.target(c, f),
    {
        &self.chips
    }

    pub fn get(&self, chip_key: &String, fan: usize) -> (r: Option<u8>)
        requires
            self.wf(),
        ensures
            r == self.target(chip_key@, fan),
    {
        match self.chips.get(chip_key, &fan) {
            Some(d) => Some(*d),
            None => None,
        }
    }

    /// Records a manual target (`Some`) or forgets it (`None`); a chip
    /// whose last target is forgotten is dropped.
    pub fn set(&mut self, chip_key: &String, fan: usize, duty: Option<u8>)
        requires
            old(self).wf(),
        ensures
            final(self).wf(),
            final(self).target(chip_key@, fan) == duty,
            forall|c: Seq<char>, f: usize|
                !(c == chip_key@ && f == fan) ==> #[trigger] final(self).target(c, f) == old(
                    self,
                ).target(c, f),
    {
        if duty.is_some() {
            let d = duty.unwrap();
            self.chips.set(chip_key, fan, d);
        } else {
            let _ = self.chips.remove(chip_key, &fan);
            if self.chips.is_chip_empty(chip_key) {
                self.chips.remove_chip(chip_key);
            }
        }
    }

    /// The saved targets to re-apply to detected chips: every controllable
    /// fan with a saved target that no curve drives, as
    /// `(chip index, fan index, target)` in chip and fan order.
    pub fn targets_for_chips(&self, chips: &[ChipInfo], assignments: &Vec<Vec<Option<String>>>) -> (r:
        Vec<(usize, usize, u8)>)
        requires
            self.wf(),
        ensures
            forall|k: int|
                0 <= k < r@.len() ==> {
                    let (ci, fi, d) = #[trigger] r@[k];
                    &&& ci < chips@.len()
                    &&& fi < chips@[ci as int].control_count
                    &&& !slot_assigned(assignments@, ci as int, fi as int)
                    &&& self.target(
                        chip_key_spec(
                            chips@[ci as int].name@,
                            chips@[ci as int].address,
                            chips@[ci as int].slot,
                        ),
                        fi,
                    ) == Some(d)
                },
            forall|ci: usize, fi: usize|
                ci < chips@.len() && fi < chips@[ci as int].control_count && !slot_assigned(
                    assignments@,
                    ci as int,
                    fi as int,
                ) && (#[trigger] self.target(
                    chip_key_spec(
                        chips@[ci as int].name@,
                        chips@[ci as int].address,
                        chips@[ci as int].slot,
                    ),
                    fi,
                )) is Some ==> exists|k: int|
                    0 <= k < r@.len() && r@[k].0 == ci && r@[k].1 == fi,
            forall|a: int, b: int|
                0 <= a < b < r@.len() ==> r@[a].0 < r@[b].0 || (r@[a].0 == r@[b].0 && r@[a].1
                    < r@[b].1),
    {
        let mut out: Vec<(usize, usize, u8)> = Vec::new();
        let mut ci: usize = 0;
        while ci < chips.len()
            invariant
                self.wf(),
                ci <= chips@.len(),
                forall|k: int|
                    0 <= k < out@.len() ==> {
                        let (c, f, d) = #[trigger] out@[k];
                        &&& c < ci
                        &&& f < chips@[c as int].control_count
                        &&& !slot_assigned(assignments@, c as int, f as int)
                        &&& self.target(
                            chip_key_spec(
                                chips@[c as int].name@,
                                chips@[c as int].address,
                                chips@[c as int].slot,
                            ),
                            f,
                        ) == Some(d)
                    },
                forall|c: usize, f: usize|
                    c < ci && f < chips@[c as int].control_count && !slot_assigned(
                        assignments@,
                        c as int,
                        f as int,
                    ) && (#[trigger] self.target(
                        chip_key_spec(
                            chips@[c as int].name@,
                            chips@[c as int].address,
                            chips@[c as int].slot,
                        ),
                        f,
                    )) is Some ==> exists|k: int|
                        0 <= k < out@.len() && out@[k].0 == c && out@[k].1 == f,
                forall|a: int, b: int|
                    0 <= a < b < out@.len() ==> (out@[a].0, out@[a].1) != (out@[b].0, out@[b].1),
                forall|a: int, b: int|
                    0 <= a < b < out@.len() ==> out@[a].0 < out@[b].0 || (out@[a].0 == out@[b].0
                        && out@[a].1 < out@[b].1),
            decreases chips@.len() - ci,
        {
            let info = &chips[ci];
            let key = chip_key(info);
            let ghost before = out@;
            let mut fi: usize = 0;
            while fi < info.control_count
                invariant
                    self.wf(),
                    ci < chips@.len(),
                    *info == chips@[ci as int],
                    key@ == chip_key_spec(info.name@, info.address, info.slot),
                    fi <= info.control_count,
                    out@.len() >= before.len(),
                    forall|k: int| 0 <= k < before.len() ==> out@[k] == before[k],
                    forall|k: int|
                        0 <= k < out@.len() ==> {
                            let (c, f, d) = #[trigger] out@[k];
                            &&& c <= ci
                            &&& c == ci ==> f < fi
                            &&& f < chips@[c as int].control_count
                            &&& !slot_assigned(assignments@, c as int, f as int)
                            &&& self.target(
                                chip_key_spec(
                                    chips@[c as int].name@,
                                    chips@[c as int].address,
                                    chips@[c as int].slot,
                                ),
                                f,
                            ) == Some(d)
                        },
                    forall|k: int| before.len() <= k < out@.len() ==> (#[trigger] out@[k]).0 == ci,
                    forall|f: usize|
                        f < fi && !slot_assigned(assignments@, ci as int, f as int) && (
                        #[trigger] self.target(key@, f)) is Some ==> exists|k: int|
                            0 <= k < out@.len() && out@[k].0 == ci && out@[k].1 == f,
                    forall|a: int, b: int|
                        0 <= a < b < out@.len() ==> out@[a].0 < out@[b].0 || (out@[a].0
                            == out@[b].0 && out@[a].1 < out@[b].1),
                decreases info.control_count - fi,
            {
                let ghost prev = out@;
                let assigned = if ci < assignments.len() && fi < assignments[ci].len() {
                    assignments[ci][fi].is_some()
                } else {
                    false
                };
                assert(assigned == slot_assigned(assignments@, ci as int, fi as int));
                let mut pushed = false;
                if !assigned {
                    match self.get(&key, fi) {
                        Some(d) => {
                            out.push((ci, fi, d));
                            pushed = true;
                        },
                        None => {},
                    }
                }
                proof {
                    assert forall|f: usize|
                        f < fi + 1 && !slot_assigned(assignments@, ci as int, f as int) && (
                        #[trigger] self.target(key@, f)) is Some implies exists|k: int|
                        0 <= k < out@.len() && out@[k].0 == ci && out@[k].1 == f by {
                        if f < fi {
                            let k = choose|k: int|
                                0 <= k < prev.len() && prev[k].0 == ci && prev[k].1 == f;
                            assert(out@[k] == prev[k]);
                        } else {
                            assert(pushed);
                            assert(out@[out@.len() - 1].0 == ci && out@[out@.len() - 1].1 == f);
                        }
                    }
                }
                fi += 1;
            }
            ci += 1;
        }
        out
    }
}

/// The curve assignment of every fan of the detected chips, per chip index
/// and fan index, from the persisted assignments.
pub fn assignments_for_chips(store: &Assignments, chips: &[ChipInfo]) -> (r: Vec<Vec<Option<String>>>)
    requires
        store.wf(),
    ensures
        r@.len() == chips@.len(),
        forall|ci: int|
            0 <= ci < chips@.len() ==> #[trigger] r@[ci]@.len() == chips@[ci].fan_count,
        forall|ci: int, fi: int|
            0 <= ci < chips@.len() && 0 <= fi < chips@[ci].fan_count ==> match #[trigger] r@[ci]@[fi] {
                Some(id) => store.assigned(
                    chip_key_spec(chips@[ci].name@, chips@[ci].address, chips@[ci].slot),
                    fi as usize,
                ) == Some(id@),
                None => store.assigned(
                    chip_key_spec(chips@[ci].name@, chips@[ci].address, chips@[ci].slot),
                    fi as usize,
                ) is None,
            },
{
    let mut out: Vec<Vec<Option<String>>> = Vec::new();
    let mut ci: usize = 0;
    while ci < chips.len()
        invariant
            store.wf(),
            ci <= chips@.len(),
            out@.len() == ci,
            forall|c: int| 0 <= c < ci ==> #[trigger] out@[c]@.len() == chips@[c].fan_count,
            forall|c: int, f: int|
                0 <= c < ci && 0 <= f < chips@[c].fan_count ==> match #[trigger] out@[c]@[f] {
                    Some(id) => store.assigned(
                        chip_key_spec(chips@[c].name@, chips@[c].address, chips@[c].slot),
                        f as usize,
                    ) == Some(id@),
                    None => store.assigned(
                        chip_key_spec(chips@[c].name@, chips@[c].address, chips@[c].slot),
                        f as usize,
                    ) is None,
                },
        decreases chips@.len() - ci,
    {
        let info = &chips[ci];
        let key = chip_key(info);
        let mut fans: Vec<Option<String>> = Vec::new();
        let mut fi: usize = 0;
        while fi < info.fan_count
            invariant
                store.wf(),
                *info == chips@[ci as int],
                key@ == chip_key_spec(info.name@, info.address, info.slot),
                fi <= info.fan_count,
                fans@.len() == fi,
                forall|f: int|
                    0 <= f < fi ==> match #[trigger] fans@[f] {
                        Some(id) => store.assigned(key@, f as usize) == Some(id@),
                        None => store.assigned(key@, f as usize) is None,
                    },
            decreases info.fan_count - fi,
        {
            fans.push(store.get(&key, fi));
            fi += 1;
        }
        out.push(fans);
        ci += 1;
    }
    out
}

/// The identity of detected chip `ci`.
pub open spec fn key_of(chips: Seq<ChipInfo>, ci: int) -> Seq<char> {
    chip_key_spec(chips[ci].name@, chips[ci].address, chips[ci].slot)
}

/// Whether `(chip, fan)` names a controllable fan of a detected chip.
pub open spec fn controllable(chips: Seq<ChipInfo>, chip: usize, fan: usize) -> bool {
    chip < chips.len() && fan < chips[chip as int].control_count
}

/// The slot of `(chip, fan)` in a per-chip, per-fan layout, if it has one.
pub open spec fn slot_of(layout: Seq<Vec<Option<String>>>, chip: usize, fan: usize) -> Option<Option<String>> {
    if chip < layout.len() && fan < layout[chip as int]@.len() {
        Some(layout[chip as int]@[fan as int])
    } else {
        None
    }
}

/// The layout with `(chip, fan)` set to `value`, where that slot exists.
pub open spec fn layout_with(layout: Seq<Vec<Option<String>>>, chip: usize, fan: usize, value: Option<String>) -> Seq<Seq<Option<String>>> {
    Seq::new(
        layout.len(),
        |c: int|
            if c == chip && fan < layout[c]@.len() {
                layout[c]@.update(fan as int, value)
            } else {
                layout[c]@
            },
    )
}

pub open spec fn rows(layout: Seq<Vec<Option<String>>>) -> Seq<Seq<Option<String>>> {
    layout.map_values(|row: Vec<Option<String>>| row@)
}

fn set_slot(layout: &mut Vec<Vec<Option<String>>>, chip: usize, fan: usize, value: Option<String>) -> (old_value: Option<Option<String>>)
    ensures
        old_value == slot_of(old(layout)@, chip, fan),
        rows(final(layout)@) == layout_with(old(layout)@, chip, fan, value),
{
    if chip < layout.len() && fan < layout[chip].len() {
        let mut previous = value;
        std::mem::swap(&mut layout[chip][fan], &mut previous);
        assert(rows(layout@) =~= layout_with(old(layout)@, chip, fan, value));
        Some(previous)
    } else {
        assert(rows(layout@) =~= layout_with(old(layout)@, chip, fan, value));
        None
    }
}

/// A manual target request (`Some`) or a hand-back to automatic control
/// (`None`) for a fan, in the stores: a controllable fan's target is
/// remembered, and a fan that a curve drove is taken off its curve, in the
/// layout and, for a detected chip, in the persisted assignments. Returns
/// whether a curve was released.
pub fn apply_target_request(
    manual: &mut ManualTargets,
    curves: &mut Assignments,
    layout: &mut Vec<Vec<Option<String>>>,
    chips: &[ChipInfo],
    chip: usize,
    fan: usize,
    target: Option<u8>,
) -> (released: bool)
    requires
        old(manual).wf(),
        old(curves).wf(),
    ensures
        final(manual).wf(),
        final(curves).wf(),
        controllable(chips@, chip, fan) ==> final(manual).target(key_of(chips@, chip as int), fan)
            == target,
        forall|c: Seq<char>, f: usize|
            !(controllable(chips@, chip, fan) && c == key_of(chips@, chip as int) && f == fan)
                ==> #[trigger] final(manual).target(c, f) == old(manual).target(c, f),
        released == (slot_of(old(layout)@, chip, fan) matches Some(Some(_))),
        rows(final(layout)@) == if released {
            layout_with(old(layout)@, chip, fan, None)
        } else {
            rows(old(layout)@)
        },
        released && chip < chips@.len() ==> final(curves).assigned(key_of(chips@, chip as int), fan)
            is None,
        forall|c: Seq<char>, f: usize|
            !(released && chip < chips@.len() && c == key_of(chips@, chip as int) && f == fan)
                ==> #[trigger] final(curves).assigned(c, f) == old(curves).assigned(c, f),
{
    if chip < chips.len() && fan < chips[chip].control_count {
        let key = chip_key(&chips[chip]);
        manual.set(&key, fan, target);
    }
    let released = if chip < layout.len() && fan < layout[chip].len() && layout[chip][fan].is_some() {
        let previous = set_slot(layout, chip, fan, None);
        assert(previous matches Some(Some(_)));
        true
    } else {
        assert(rows(layout@) =~= rows(old(layout)@));
        false
    };
    if released && chip < chips.len() {
        let key = chip_key(&chips[chip]);
        curves.set(&key, fan, None);
    }
    released
}

/// A curve assignment (`Some(id)`) or release (`None`) for a fan, in the
/// stores. Only controllable fans of detected chips take one: the
/// assignment is persisted, the fan's manual target is forgotten, and its
/// layout slot follows. Returns `None` when the fan was skipped, else
/// whether a curve was released (the fan then goes back to automatic
/// control).
pub fn apply_curve_assignment(
    manual: &mut ManualTargets,
    curves: &mut Assignments,
    layout: &mut Vec<Vec<Option<String>>>,
    chips: &[ChipInfo],
    chip: usize,
    fan: usize,
    curve: Option<String>,
) -> (r: Option<bool>)
    requires
        old(manual).wf(),
        old(curves).wf(),
    ensures
        final(manual).wf(),
        final(curves).wf(),
        r is Some <==> controllable(chips@, chip, fan),
        !controllable(chips@, chip, fan) ==> {
            &&& *final(manual) == *old(manual)
            &&& *final(curves) == *old(curves)
            &&& final(layout)@ == old(layout)@
        },
        controllable(chips@, chip, fan) ==> {
            let key = key_of(chips@, chip as int);
            &&& final(curves).assigned(key, fan) == match curve {
                Some(id) => Some(id@),
                None => None::<Seq<char>>,
            }
            &&& final(manual).target(key, fan) is None
            &&& forall|c: Seq<char>, f: usize|
                !(c == key && f == fan) ==> #[trigger] final(curves).assigned(c, f) == old(
                    curves,
                ).assigned(c, f)
            &&& forall|c: Seq<char>, f: usize|
                !(c == key && f == fan) ==> #[trigger] final(manual).target(c, f) == old(
                    manual,
                ).target(c, f)
            &&& rows(final(layout)@) == layout_with(old(layout)@, chip, fan, curve)
            &&& r == Some(curve is None && (slot_of(old(layout)@, chip, fan) matches Some(Some(_))))
        },
{
    if chip >= chips.len() || fan >= chips[chip].control_count {
        return None;
    }
    let key = chip_key(&chips[chip]);
    match &curve {
        Some(id) => curves.set(&key, fan, Some(id.as_str())),
        None => curves.set(&key, fan, None),
    }
    manual.set(&key, fan, None);
    let releasing = curve.is_none();
    let previous = set_slot(layout, chip, fan, curve);
    let released = match previous {
        Some(Some(_)) => releasing,
        _ => false,
    };
    Some(released)
}

} // verus!
