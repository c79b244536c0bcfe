//! The GUI's display configuration: units, per-channel display names,
//! hidden devices/categories/channels, graph overrides and dashboard pins,
//! plus the edits the app makes to `config.toml` — which entry an edit
//! targets and what a list becomes after it.

use vstd::prelude::*;
use vstd::set_lib::{lemma_int_range, lemma_len_subset, lemma_map_size_bound, set_int_range};

use crate::assoc::AssocMap;
use crate::chars;
use crate::table::KeyedTable;
use crate::ui;
use crate::hw::ChipInfo;

verus! {

/// The hidden-list value that hides a whole device.
pub const HIDDEN_DEVICE_KEY: &'static str = "device";

/// A sensor category that can be hidden on a chip as a whole.
#[derive(Clone, Copy, Debug, PartialEq, Eq, Structural)]
pub enum HiddenCategory {
    Fans,
    Temperatures,
    Power,
}

pub open spec fn category_key(c: HiddenCategory) -> Seq<char> {
    match c {
        HiddenCategory::Fans => "fans"@,
        HiddenCategory::Temperatures => "temperatures"@,
        HiddenCategory::Power => "power"@,
    }
}

/// Index of the first ASCII digit at or after `i`, or the length.
pub open spec fn first_digit_from(s: Seq<char>, i: int) -> int
    decreases s.len() - i,
{
    if i < 0 || i >= s.len() {
        s.len() as int
    } else if chars::is_ascii_digit(s[i]) {
        i
    } else {
        first_digit_from(s, i + 1)
    }
}

/// The category a channel key (`fanN`, `tempN`, `powerN`, N >= 1)
/// belongs to.
pub open spec fn category_of_key(key: Seq<char>) -> Option<HiddenCategory> {
    let i = first_digit_from(key, 0);
    let prefix = key.subrange(0, i);
    let number = key.subrange(i, key.len() as int);
    if i >= key.len() {
        None
    } else if chars::parse_usize_spec(number) is None || chars::parse_usize_spec(number) == Some(
        0usize,
    ) {
        None
    } else if prefix == "fan"@ {
        Some(HiddenCategory::Fans)
    } else if prefix == "temp"@ {
        Some(HiddenCategory::Temperatures)
    } else if prefix == "power"@ {
        Some(HiddenCategory::Power)
    } else {
        None
    }
}

proof fn lemma_first_digit_from(s: Seq<char>, i: int)
    requires
        0 <= i <= s.len(),
    ensures
        i <= first_digit_from(s, i) <= s.len(),
        forall|k: int| i <= k < first_digit_from(s, i) ==> !chars::is_ascii_digit(#[trigger] s[k]),
        first_digit_from(s, i) < s.len() ==> chars::is_ascii_digit(s[first_digit_from(s, i)]),
    decreases s.len() - i,
{
    if i < s.len() && !chars::is_ascii_digit(s[i]) {
        lemma_first_digit_from(s, i + 1);
    }
}

fn sub_chars(v: &Vec<char>, start: usize, end: usize) -> (r: Vec<char>)
    requires
        start <= end <= v@.len(),
    ensures
        r@ == v@.subrange(start as int, end as int),
{
    let mut r: Vec<char> = Vec::new();
    let mut i = start;
    while i < end
        invariant
            start <= i <= end <= v@.len(),
            r@ =~= v@.subrange(start as int, i as int),
        decreases end - i,
    {
        r.push(v[i]);
        i += 1;
    }
    r
}

impl HiddenCategory {
    /// The value that hides the category in the hidden list.
    pub fn key(self) -> (r: &'static str)
        ensures
            r@ == category_key(self),
    {
        match self {
            HiddenCategory::Fans => "fans",
            HiddenCategory::Temperatures => "temperatures",
            HiddenCategory::Power => "power",
        }
    }

    /// The category of a channel key; `None` for anything but
    /// `fanN`/`tempN`/`powerN` with N >= 1.
    pub fn from_channel_key(key: &str) -> (r: Option<HiddenCategory>)
        ensures
            r == category_of_key(key@),
    {
        let k = chars::chars_of(key);
        let mut i: usize = 0;
        while i < k.len() && !chars::is_ascii_digit_char(k[i])
            invariant
                i <= k@.len(),
                k@ == key@,
                first_digit_from(k@, 0) == first_digit_from(k@, i as int),
            decreases k@.len() - i,
        {
            i += 1;
        }
        if i >= k.len() {
            return None;
        }
        let prefix = sub_chars(&k, 0, i);
        let number = sub_chars(&k, i, k.len());
        match chars::parse_usize(&number) {
            None => {
                return None;
            },
            Some(n) => {
                if n == 0 {
                    return None;
                }
            },
        }
        let fan = chars::chars_of("fan");
        let temp = chars::chars_of("temp");
        let power = chars::chars_of("power");
        if chars::same_chars(&prefix, &fan) {
            Some(HiddenCategory::Fans)
        } else if chars::same_chars(&prefix, &temp) {
            Some(HiddenCategory::Temperatures)
        } else if chars::same_chars(&prefix, &power) {
            Some(HiddenCategory::Power)
        } else {
            None
        }
    }
}

/// Temperature display unit.
#[derive(Clone, Copy, Debug, PartialEq, Eq, Structural)]
pub enum TempUnit {
    Celsius,
    Fahrenheit,
}

impl Default for TempUnit {
    fn default() -> (r: TempUnit)
        ensures
            r == TempUnit::Celsius,
    {
        TempUnit::Celsius
    }
}

impl TempUnit {
    /// The config value.
    pub fn as_str(self) -> (r: &'static str)
        ensures
            r@ == (match self {
                TempUnit::Celsius => "celsius"@,
                TempUnit::Fahrenheit => "fahrenheit"@,
            }),
    {
        match self {
            TempUnit::Celsius => "celsius",
            TempUnit::Fahrenheit => "fahrenheit",
        }
    }
}

/// Fan speed display unit.
#[derive(Clone, Copy, Debug, PartialEq, Eq, Structural)]
pub enum FanUnit {
    Rpm,
    /// Percent of the fan's calibrated maximum RPM (until calibrated: of
    /// the highest RPM seen this session).
    Percent,
}

impl Default for FanUnit {
    fn default() -> (r: FanUnit)
        ensures
            r == FanUnit::Rpm,
    {
        FanUnit::Rpm
    }
}

impl FanUnit {
    /// The config value.
    pub fn as_str(self) -> (r: &'static str)
        ensures
            r@ == (match self {
                FanUnit::Rpm => "rpm"@,
                FanUnit::Percent => "percent"@,
            }),
    {
        match self {
            FanUnit::Rpm => "rpm",
            FanUnit::Percent => "percent",
        }
    }
}

/// `prefix` followed by the decimal of `n`.
pub open spec fn numbered(prefix: Seq<char>, n: nat) -> Seq<char> {
    prefix + chars::decimal(n)
}

fn numbered_string(prefix: &str, n: usize) -> (r: String)
    ensures
        r@ == numbered(prefix@, n as nat),
{
    let mut v = chars::chars_of(prefix);
    let mut d = chars::decimal_digits(n as u64);
    v.append(&mut d);
    chars::string_from_chars(v.as_slice())
}

/// The id of the `index`-th `[[custom]]` entry when it has none.
pub fn fallback_custom_id(index: usize) -> (r: String)
    requires
        index < usize::MAX,
    ensures
        r@ == numbered("custom"@, index as nat + 1),
{
    numbered_string("custom", index + 1)
}

/// The id of the `index`-th `[[curve]]` entry when it has none.
pub fn fallback_curve_id(index: usize) -> (r: String)
    requires
        index < usize::MAX,
    ensures
        r@ == numbered("curve"@, index as nat + 1),
{
    numbered_string("curve", index + 1)
}

/// A config array-of-tables whose entries are found by id.
#[derive(Clone, Copy, Debug, PartialEq, Eq, Structural)]
pub enum EntryKind {
    /// `[[custom]]` sensor definitions.
    Custom,
    /// `[[curve]]` definitions.
    Curve,
}

pub open spec fn entry_prefix(kind: EntryKind) -> Seq<char> {
    match kind {
        EntryKind::Custom => "custom"@,
        EntryKind::Curve => "curve"@,
    }
}

/// The id an entry goes by: its own, or the positional fallback.
pub open spec fn effective_id(kind: EntryKind, id: Option<String>, index: nat) -> Seq<char> {
    match id {
        Some(s) => s@,
        None => numbered(entry_prefix(kind), index + 1),
    }
}

/// The first entry going by `id`.
pub open spec fn entry_position_spec(kind: EntryKind, ids: Seq<Option<String>>, id: Seq<char>) -> Option<
    usize,
> {
    if exists|i: int| 0 <= i < ids.len() && effective_id(kind, ids[i], i as nat) == id {
        Some(
            (choose|i: int|
                0 <= i < ids.len() && effective_id(kind, ids[i], i as nat) == id && forall|j: int|
                    0 <= j < i ==> effective_id(kind, ids[j], j as nat) != id) as usize,
        )
    } else {
        None
    }
}

/// Finds the entry an edit by id applies to, given each entry's own `id`
/// (if it has one), in file order.
pub fn entry_position(kind: EntryKind, ids: &[Option<String>], id: &str) -> (r: Option<usize>)
    requires
        ids@.len() < usize::MAX,
    ensures
        match r {
            Some(i) => i < ids@.len() && effective_id(kind, ids@[i as int], i as nat) == id@
                && forall|j: int| 0 <= j < i ==> effective_id(kind, ids@[j], j as nat) != id@,
            None => forall|i: int|
                0 <= i < ids@.len() ==> effective_id(kind, ids@[i], i as nat) != id@,
        },
        r == entry_position_spec(kind, ids@, id@),
{
    let target = chars::chars_of(id);
    let mut i: usize = 0;
    while i < ids.len()
        invariant
            i <= ids@.len() < usize::MAX,
            target@ == id@,
            forall|j: int| 0 <= j < i ==> effective_id(kind, ids@[j], j as nat) != id@,
        decreases ids@.len() - i,
    {
        let own = match &ids[i] {
            Some(s) => chars::chars_of(s.as_str()),
            None => {
                let prefix = match kind {
                    EntryKind::Custom => "custom",
                    EntryKind::Curve => "curve",
                };
                let mut v = chars::chars_of(prefix);
                let mut d = chars::decimal_digits((i + 1) as u64);
                v.append(&mut d);
                v
            },
        };
        assert(own@ == effective_id(kind, ids@[i as int], i as nat));
        if chars::same_chars(&own, &target) {
            proof {
                let w = i as int;
                assert(0 <= w < ids@.len() && effective_id(kind, ids@[w], w as nat) == id@);
                let c = choose|c: int|
                    0 <= c < ids@.len() && effective_id(kind, ids@[c], c as nat) == id@ && forall|j: int|
                        0 <= j < c ==> effective_id(kind, ids@[j], j as nat) != id@;
                assert(c == w) by {
                    if c < w {
                    } else if c > w {
                        assert(effective_id(kind, ids@[w], w as nat) != id@);
                    }
                }
            }
            return Some(i);
        }
        i += 1;
    }
    None
}

/// The display name prefix of a new entry.
pub open spec fn entry_label(kind: EntryKind) -> Seq<char> {
    match kind {
        EntryKind::Custom => "Sensor "@,
        EntryKind::Curve => "Curve "@,
    }
}

/// Counting up from `lo`, `hi - lo` taken numbers need at least as many
/// ids.
proof fn lemma_taken_bound(p: Seq<char>, ids: Seq<Seq<char>>, lo: int, hi: int)
    requires
        0 <= lo <= hi,
        forall|k: int| lo <= k < hi ==> ids.contains(#[trigger] numbered(p, k as nat)),
    ensures
        hi - lo <= ids.len(),
{
    let g = |i: int| chars::digits_value(ids[i].subrange(p.len() as int, ids[i].len() as int)) as int;
    let t = set_int_range(0, ids.len() as int);
    lemma_int_range(0, ids.len() as int);
    lemma_map_size_bound(t, t.map(g), g);
    let s = set_int_range(lo, hi);
    lemma_int_range(lo, hi);
    assert forall|k: int| s.contains(k) implies t.map(g).contains(k) by {
        assert(ids.contains(numbered(p, k as nat)));
        let i = choose|i: int| 0 <= i < ids.len() && ids[i] == numbered(p, k as nat);
        chars::lemma_decimal_digits(k as nat);
        assert(ids[i].subrange(p.len() as int, ids[i].len() as int) =~= chars::decimal(k as nat));
        assert(t.contains(i) && g(i) == k);
    }
    lemma_len_subset(s, t.map(g));
}

fn is_taken(ids: &[String], prefix: &str, n: usize) -> (b: bool)
    ensures
        b == views(ids@).contains(numbered(prefix@, n as nat)),
{
    let candidate = numbered_string(prefix, n);
    let wanted = chars::chars_of(candidate.as_str());
    let ghost vs = views(ids@);
    let mut i: usize = 0;
    while i < ids.len()
        invariant
            i <= ids@.len(),
            vs == views(ids@),
            wanted@ == numbered(prefix@, n as nat),
            forall|j: int| 0 <= j < i ==> vs[j] != wanted@,
        decreases ids@.len() - i,
    {
        let id = chars::chars_of(ids[i].as_str());
        if chars::same_chars(&id, &wanted) {
            assert(vs[i as int] == wanted@);
            return true;
        }
        i += 1;
    }
    false
}

/// The number, id and display name of a new `[[custom]]` or `[[curve]]`
/// entry: the first number after the entry count whose positional id is
/// not taken, e.g. `custom3` / `Sensor 3`.
pub fn new_entry(kind: EntryKind, ids: &[String]) -> (r: (usize, String, String))
    requires
        ids@.len() < usize::MAX / 2,
    ensures
        r.0 > ids@.len(),
        r.1@ == numbered(entry_prefix(kind), r.0 as nat),
        r.2@ == numbered(entry_label(kind), r.0 as nat),
        !views(ids@).contains(r.1@),
        forall|k: int|
            ids@.len() < k < r.0 ==> views(ids@).contains(#[trigger] numbered(entry_prefix(kind), k as nat)),
{
    let (prefix, label) = match kind {
        EntryKind::Custom => ("custom", "Sensor "),
        EntryKind::Curve => ("curve", "Curve "),
    };
    let ghost vs = views(ids@);
    let len = ids.len();
    let mut n = len + 1;
    while is_taken(ids, prefix, n)
        invariant
            vs == views(ids@),
            len == ids@.len() < usize::MAX / 2,
            prefix@ == entry_prefix(kind),
            len + 1 <= n <= 2 * len + 1,
            forall|k: int| len < k < n ==> vs.contains(#[trigger] numbered(entry_prefix(kind), k as nat)),
        decreases 2 * len + 1 - n,
    {
        proof {
            assert forall|k: int| len + 1 <= k < n + 1 implies vs.contains(
                #[trigger] numbered(entry_prefix(kind), k as nat),
            ) by {
                if k < n {
                    assert(len < k < n);
                }
            }
            lemma_taken_bound(entry_prefix(kind), vs, len + 1, n + 1);
        }
        n += 1;
    }
    (n, numbered_string(prefix, n), numbered_string(label, n))
}

/// The views of a list of strings.
pub open spec fn views(v: Seq<String>) -> Seq<Seq<char>> {
    v.map_values(|s: String| s@)
}

/// Keys other than `key`.
pub open spec fn other_than(key: Seq<char>) -> spec_fn(Seq<char>) -> bool {
    |k: Seq<char>| k != key
}

/// Keys equal to `key`.
pub open spec fn equal_to(key: Seq<char>) -> spec_fn(Seq<char>) -> bool {
    |k: Seq<char>| k == key
}

/// A hidden list after hiding (`hidden`) or showing `key`: every copy of
/// `key` is dropped, and when hiding it is appended once at the end.
pub open spec fn hidden_after(keys: Seq<Seq<char>>, key: Seq<char>, hidden: bool) -> Seq<Seq<char>> {
    let kept = keys.filter(other_than(key));
    if hidden {
        kept.push(key)
    } else {
        kept
    }
}

/// The chip's hidden list after hiding or showing `key`. An empty result
/// means the chip's entry is removed.
pub fn hidden_list_after(keys: &Vec<String>, key: &str, hidden: bool) -> (r: Vec<String>)
    ensures
        views(r@) == hidden_after(views(keys@), key@, hidden),
{
    let target = chars::chars_of(key);
    let mut out: Vec<String> = Vec::new();
    let mut i: usize = 0;
    let ghost ks = views(keys@);
    while i < keys.len()
        invariant
            i <= keys@.len(),
            target@ == key@,
            ks == views(keys@),
            views(out@) =~= ks.take(i as int).filter(other_than(key@)),
        decreases keys@.len() - i,
    {
        let k = chars::chars_of(keys[i].as_str());
        proof {
            assert(ks.take(i + 1).drop_last() =~= ks.take(i as int));
            reveal_with_fuel(Seq::<_>::filter, 1);
        }
        if !chars::same_chars(&k, &target) {
            out.push(keys[i].clone());
            assert(views(out@) =~= views(out@).drop_last().push(keys@[i as int]@));
        }
        i += 1;
    }
    assert(ks.take(i as int) =~= ks);
    if hidden {
        out.push(chars::string_from_chars(target.as_slice()));
        assert(views(out@) =~= views(out@).drop_last().push(key@));
    }
    out
}

/// Hiding puts the key in the list exactly once and showing takes every
/// copy out; hiding twice is hiding once.
pub proof fn law_hide_show(keys: Seq<Seq<char>>, key: Seq<char>)
    ensures
        hidden_after(keys, key, true).contains(key),
        hidden_after(keys, key, true).filter(equal_to(key)).len() == 1,
        !hidden_after(keys, key, false).contains(key),
        hidden_after(hidden_after(keys, key, true), key, true) == hidden_after(keys, key, true),
        hidden_after(hidden_after(keys, key, true), key, false) == hidden_after(keys, key, false),
{
    let pred = other_than(key);
    let kept = keys.filter(pred);
    assert(hidden_after(keys, key, true) == kept.push(key));
    assert(kept.push(key)[kept.len() as int] == key);
    assert forall|i: int| 0 <= i < kept.len() implies kept[i] != key by {
        keys.lemma_filter_pred(pred, i);
    }
    lemma_filter_none(kept, key);
    assert(!kept.contains(key));
    lemma_filter_push(kept, key);
    assert(kept.push(key).filter(pred) =~= kept);
}

proof fn lemma_filter_none(s: Seq<Seq<char>>, key: Seq<char>)
    requires
        forall|i: int| 0 <= i < s.len() ==> s[i] != key,
    ensures
        s.filter(other_than(key)) == s,
        s.filter(equal_to(key)).len() == 0,
    decreases s.len(),
{
    reveal_with_fuel(Seq::<_>::filter, 1);
    if s.len() > 0 {
        lemma_filter_none(s.drop_last(), key);
        assert(s.drop_last().push(s.last()) =~= s);
    } else {
        assert(s.filter(other_than(key)) =~= s);
    }
}

proof fn lemma_filter_push(s: Seq<Seq<char>>, key: Seq<char>)
    requires
        forall|i: int| 0 <= i < s.len() ==> s[i] != key,
    ensures
        s.push(key).filter(other_than(key)) == s,
        s.push(key).filter(equal_to(key)).len() == 1,
{
    reveal_with_fuel(Seq::<_>::filter, 1);
    lemma_filter_none(s, key);
    assert(s.push(key).drop_last() =~= s);
}

/// A hardware channel key (`tempN`, `fanN`, `powerN`, N >= 1, as the GUI
/// writes them) falls in the category of its sensor kind, so hiding the
/// category hides the channel.
pub proof fn law_channel_key_category(key: ui::SensorKey)
    requires
        key.kind != ui::SensorKind::Custom,
        key.index < usize::MAX,
    ensures
        category_of_key(ui::channel_key_spec(key)) == Some(
            match key.kind {
                ui::SensorKind::Temperature => HiddenCategory::Temperatures,
                ui::SensorKind::FanRpm => HiddenCategory::Fans,
                _ => HiddenCategory::Power,
            },
        ),
{
    let p = ui::kind_prefix(key.kind);
    let d = chars::decimal(key.index as nat + 1);
    let k = ui::channel_key_spec(key);
    chars::lemma_parse_decimal(key.index as nat + 1);
    reveal_strlit("temp");
    reveal_strlit("fan");
    reveal_strlit("power");
    assert(k == p + d);
    assert(forall|i: int| 0 <= i < p.len() ==> !chars::is_ascii_digit(#[trigger] p[i]));
    lemma_first_digit_from(k, 0);
    assert(chars::is_ascii_digit(k[p.len() as int]));
    assert(first_digit_from(k, 0) == p.len()) by {
        let f = first_digit_from(k, 0);
        if f < p.len() {
            assert(k[f] == p[f]);
        }
    }
    assert(k.subrange(0, p.len() as int) =~= p);
    assert(k.subrange(p.len() as int, k.len() as int) =~= d);
}

pub open spec fn opt_view(o: Option<String>) -> Option<Seq<char>> {
    match o {
        Some(s) => Some(s@),
        None => None,
    }
}

pub(crate) fn opt_clone(o: &Option<String>) -> (r: Option<String>)
    ensures
        opt_view(r) == opt_view(*o),
{
    match o {
        Some(s) => Some(s.clone()),
        None => None,
    }
}

fn opt_same(a: &Option<String>, b: &Option<String>) -> (r: bool)
    ensures
        r == (opt_view(*a) == opt_view(*b)),
{
    match (a, b) {
        (Some(x), Some(y)) => *x == *y,
        (None, None) => true,
        _ => false,
    }
}

/// What a dashboard pin shows.
#[derive(Clone, Copy, Debug, PartialEq, Eq, Structural)]
pub enum DashboardItemKind {
    Fan,
    Sensor,
    Curve,
}

pub open spec fn item_kind_str(kind: DashboardItemKind) -> Seq<char> {
    match kind {
        DashboardItemKind::Fan => "fan"@,
        DashboardItemKind::Sensor => "sensor"@,
        DashboardItemKind::Curve => "curve"@,
    }
}

impl DashboardItemKind {
    /// The `kind` value of a `[[dashboard.item]]` entry.
    pub fn as_str(self) -> (r: &'static str)
        ensures
            r@ == item_kind_str(self),
    {
        match self {
            DashboardItemKind::Fan => "fan",
            DashboardItemKind::Sensor => "sensor",
            DashboardItemKind::Curve => "curve",
        }
    }
}

/// A dashboard pin: a fan or sensor channel of a chip, or a curve.
pub struct DashboardItem {
    pub kind: DashboardItemKind,
    pub chip: Option<String>,
    pub channel: Option<String>,
    pub id: Option<String>,
}

impl DashboardItem {
    pub fn fan(chip: &str, channel: &str) -> (r: DashboardItem)
        ensures
            r.kind == DashboardItemKind::Fan,
            opt_view(r.chip) == Some(chip@),
            opt_view(r.channel) == Some(channel@),
            r.id is None,
    {
        DashboardItem {
            kind: DashboardItemKind::Fan,
            chip: Some(chip.to_owned()),
            channel: Some(channel.to_owned()),
            id: None,
        }
    }

    pub fn sensor(chip: &str, channel: &str) -> (r: DashboardItem)
        ensures
            r.kind == DashboardItemKind::Sensor,
            opt_view(r.chip) == Some(chip@),
            opt_view(r.channel) == Some(channel@),
            r.id is None,
    {
        DashboardItem {
            kind: DashboardItemKind::Sensor,
            chip: Some(chip.to_owned()),
            channel: Some(channel.to_owned()),
            id: None,
        }
    }

    pub fn curve(id: &str) -> (r: DashboardItem)
        ensures
            r.kind == DashboardItemKind::Curve,
            r.chip is None,
            r.channel is None,
            opt_view(r.id) == Some(id@),
    {
        DashboardItem { kind: DashboardItemKind::Curve, chip: None, channel: None, id: Some(id.to_owned()) }
    }
}

/// The fields of a `[[dashboard.item]]` table that pins are matched by.
pub struct DashboardEntry {
    pub kind: Option<String>,
    pub chip: Option<String>,
    pub channel: Option<String>,
    pub id: Option<String>,
}

/// Whether a stored entry is the pin for `item`.
pub open spec fn entry_matches(e: DashboardEntry, item: DashboardItem) -> bool {
    &&& opt_view(e.kind) == Some(item_kind_str(item.kind))
    &&& match item.kind {
        DashboardItemKind::Fan | DashboardItemKind::Sensor => opt_view(e.chip) == opt_view(item.chip)
            && opt_view(e.channel) == opt_view(item.channel),
        DashboardItemKind::Curve => opt_view(e.id) == opt_view(item.id),
    }
}

/// The fields written for a pin besides its kind: chip and channel for
/// fans and sensors, the id for curves.
pub open spec fn entry_for(item: DashboardItem) -> DashboardEntry {
    DashboardEntry {
        kind: None,
        chip: if item.kind == DashboardItemKind::Curve {
            None
        } else {
            item.chip
        },
        channel: if item.kind == DashboardItemKind::Curve {
            None
        } else {
            item.channel
        },
        id: if item.kind == DashboardItemKind::Curve {
            item.id
        } else {
            None
        },
    }
}

/// The table written for a pin.
pub fn dashboard_table(item: &DashboardItem) -> (r: DashboardEntry)
    ensures
        opt_view(r.kind) == Some(item_kind_str(item.kind)),
        opt_view(r.chip) == opt_view(entry_for(*item).chip),
        opt_view(r.channel) == opt_view(entry_for(*item).channel),
        opt_view(r.id) == opt_view(entry_for(*item).id),
        entry_matches(r, *item),
{
    let kind = Some(item.kind.as_str().to_owned());
    match item.kind {
        DashboardItemKind::Curve => DashboardEntry {
            kind,
            chip: None,
            channel: None,
            id: opt_clone(&item.id),
        },
        _ => DashboardEntry {
            kind,
            chip: opt_clone(&item.chip),
            channel: opt_clone(&item.channel),
            id: None,
        },
    }
}

/// Whether a stored entry (if any) is the pin for `item`.
pub fn dashboard_table_matches(entry: Option<&DashboardEntry>, item: &DashboardItem) -> (r: bool)
    ensures
        r == match entry {
            Some(e) => entry_matches(*e, *item),
            None => false,
        },
{
    let e = match entry {
        Some(e) => e,
        None => {
            return false;
        },
    };
    let kind = Some(item.kind.as_str().to_owned());
    if !opt_same(&e.kind, &kind) {
        return false;
    }
    match item.kind {
        DashboardItemKind::Curve => opt_same(&e.id, &item.id),
        _ => opt_same(&e.chip, &item.chip) && opt_same(&e.channel, &item.channel),
    }
}

/// The dashboard after pinning or unpinning `item`: every entry for it is
/// dropped, the others keep their order, and pinning appends it at the
/// end. An empty result means the dashboard table is removed.
pub fn pins_after_edit(entries: Vec<DashboardEntry>, item: &DashboardItem, pinned: bool) -> (r: Vec<
    DashboardEntry,
>)
    ensures
        pinned ==> r@.len() >= 1 && entry_matches(r@.last(), *item),
        pinned ==> {
            &&& opt_view(r@.last().kind) == Some(item_kind_str(item.kind))
            &&& opt_view(r@.last().chip) == opt_view(entry_for(*item).chip)
            &&& opt_view(r@.last().channel) == opt_view(entry_for(*item).channel)
            &&& opt_view(r@.last().id) == opt_view(entry_for(*item).id)
        },
        pinned ==> forall|k: int| 0 <= k < r@.len() - 1 ==> !entry_matches(#[trigger] r@[k], *item),
        !pinned ==> forall|k: int| 0 <= k < r@.len() ==> !entry_matches(#[trigger] r@[k], *item),
        ({
            let kept = if pinned {
                r@.drop_last()
            } else {
                r@
            };
            kept =~= entries@.filter(|e: DashboardEntry| !entry_matches(e, *item))
        }),
{
    let mut out: Vec<DashboardEntry> = Vec::new();
    let ghost src = entries@;
    assert(src.len() <= usize::MAX) by {
        assert(entries.len() <= usize::MAX);
    }
    let mut rest = entries;
    assert(rest@ =~= src.subrange(0, src.len() as int));
    let mut i: usize = 0;
    while rest.len() > 0
        invariant
            i + rest@.len() == src.len(),
            src.len() <= usize::MAX,
            rest@ =~= src.subrange(i as int, src.len() as int),
            out@ =~= src.take(i as int).filter(|e: DashboardEntry| !entry_matches(e, *item)),
        decreases rest@.len(),
    {
        let e = rest.remove(0);
        proof {
            assert(src[i as int] == e);
            assert(src.take(i + 1).drop_last() =~= src.take(i as int));
            reveal_with_fuel(Seq::<_>::filter, 1);
        }
        if !dashboard_table_matches(Some(&e), item) {
            out.push(e);
        }
        i += 1;
        assert(rest@ =~= src.subrange(i as int, src.len() as int));
    }
    assert(src.take(i as int) =~= src);
    proof {
        let pred = |e: DashboardEntry| !entry_matches(e, *item);
        assert forall|k: int| 0 <= k < out@.len() implies !entry_matches(#[trigger] out@[k], *item) by {
            src.lemma_filter_pred(pred, k);
        }
    }
    if pinned {
        out.push(dashboard_table(item));
    }
    out
}

/// The label of a numbered channel: the user's name for `{key}{n}`, then
/// the chip's default label, then `{fallback}{n}`.
pub open spec fn channel_label(
    user: Option<Seq<char>>,
    defaults: Seq<String>,
    index: nat,
    fallback: Seq<char>,
) -> Seq<char> {
    match user {
        Some(name) => name,
        None => if index < defaults.len() {
            defaults[index as int]@
        } else {
            numbered(fallback, index + 1)
        },
    }
}

/// A `#rrggbb` color override read as a number (the `#` is optional).
pub open spec fn color_value(raw: Seq<char>) -> Option<u32> {
    if raw.len() > 0 && raw[0] == '#' {
        chars::parse_hex_u32_spec(raw.drop_first())
    } else {
        chars::parse_hex_u32_spec(raw)
    }
}

/// Display names, units, visibility and graph overrides from `config.toml`.
pub struct NamesConfig {
    temperature: Option<TempUnit>,
    fan: Option<FanUnit>,
    chips: KeyedTable<String, String>,
    hidden: AssocMap<String, Vec<String>>,
    graph_color: KeyedTable<String, String>,
    graph_style: KeyedTable<String, String>,
    graph_shown: KeyedTable<String, bool>,
    dashboard: Vec<DashboardItem>,
}

impl NamesConfig {
    pub closed spec fn wf(&self) -> bool {
        &&& self.chips.wf()
        &&& self.hidden.wf()
        &&& self.graph_color.wf()
        &&& self.graph_style.wf()
        &&& self.graph_shown.wf()
    }

    pub closed spec fn temperature_setting(&self) -> Option<TempUnit> {
        self.temperature
    }

    pub closed spec fn fan_setting(&self) -> Option<FanUnit> {
        self.fan
    }

    /// The user's display name for a chip's key (`tempN`, `fanN`, `name`).
    pub closed spec fn name_of(&self, chip: Seq<char>, key: Seq<char>) -> Option<Seq<char>> {
        opt_view(self.chips.entry(chip, key))
    }

    /// The chip's hidden list (empty when the chip has none).
    pub closed spec fn hidden_keys(&self, chip: Seq<char>) -> Seq<Seq<char>> {
        if self.hidden@.contains_key(chip) {
            views(self.hidden@[chip]@)
        } else {
            Seq::empty()
        }
    }

    pub closed spec fn color_of(&self, chip: Seq<char>, key: Seq<char>) -> Option<Seq<char>> {
        opt_view(self.graph_color.entry(chip, key))
    }

    pub closed spec fn style_of(&self, chip: Seq<char>, key: Seq<char>) -> Option<Seq<char>> {
        opt_view(self.graph_style.entry(chip, key))
    }

    pub closed spec fn shown_of(&self, chip: Seq<char>, key: Seq<char>) -> Option<bool> {
        self.graph_shown.entry(chip, key)
    }

    /// The dashboard pins, in order.
    pub closed spec fn pins(&self) -> Seq<DashboardItem> {
        self.dashboard@
    }

    pub open spec fn same_units(&self, other: &NamesConfig) -> bool {
        self.temperature_setting() == other.temperature_setting() && self.fan_setting()
            == other.fan_setting()
    }

    pub open spec fn same_names(&self, other: &NamesConfig) -> bool {
        forall|c: Seq<char>, k: Seq<char>| #[trigger] self.name_of(c, k) == other.name_of(c, k)
    }

    pub open spec fn same_hidden(&self, other: &NamesConfig) -> bool {
        forall|c: Seq<char>| #[trigger] self.hidden_keys(c) == other.hidden_keys(c)
    }

    pub open spec fn same_graph(&self, other: &NamesConfig) -> bool {
        &&& forall|c: Seq<char>, k: Seq<char>| #[trigger] self.color_of(c, k) == other.color_of(c, k)
        &&& forall|c: Seq<char>, k: Seq<char>| #[trigger] self.style_of(c, k) == other.style_of(c, k)
        &&& forall|c: Seq<char>, k: Seq<char>| #[trigger] self.shown_of(c, k) == other.shown_of(c, k)
    }

    /// An empty configuration: default units, no names, nothing hidden.
    pub fn new() -> (r: NamesConfig)
        ensures
            r.wf(),
            r.temperature_setting() is None,
            r.fan_setting() is None,
            forall|c: Seq<char>, k: Seq<char>| #[trigger] r.name_of(c, k) is None,
            forall|c: Seq<char>| #[trigger] r.hidden_keys(c) == Seq::<Seq<char>>::empty(),
            forall|c: Seq<char>, k: Seq<char>| #[trigger] r.color_of(c, k) is None,
            forall|c: Seq<char>, k: Seq<char>| #[trigger] r.style_of(c, k) is None,
            forall|c: Seq<char>, k: Seq<char>| #[trigger] r.shown_of(c, k) is None,
            r.pins().len() == 0,
    {
        NamesConfig {
            temperature: None,
            fan: None,
            chips: KeyedTable::new(),
            hidden: AssocMap::new(),
            graph_color: KeyedTable::new(),
            graph_style: KeyedTable::new(),
            graph_shown: KeyedTable::new(),
            dashboard: Vec::new(),
        }
    }

    pub fn set_units(&mut self, temperature: Option<TempUnit>, fan: Option<FanUnit>)
        requires
            old(self).wf(),
        ensures
            final(self).wf(),
            final(self).temperature_setting() == temperature,
            final(self).fan_setting() == fan,
            forall|c: Seq<char>, k: Seq<char>| #[trigger] final(self).name_of(c, k) == old(self).name_of(c, k),
            forall|c: Seq<char>| #[trigger] final(self).hidden_keys(c) == old(self).hidden_keys(c),
            final(self).same_graph(&*old(self)),
            final(self).pins() == old(self).pins(),
    {
        self.temperature = temperature;
        self.fan = fan;
    }

    /// Records the user's display name for a chip's key.
    pub fn set_name(&mut self, chip: String, key: String, name: String)
        requires
            old(self).wf(),
        ensures
            final(self).wf(),
            final(self).name_of(chip@, key@) == Some(name@),
            forall|c: Seq<char>, k: Seq<char>|
                !(c == chip@ && k == key@) ==> #[trigger] final(self).name_of(c, k) == old(self).name_of(c, k),
            final(self).same_units(&*old(self)),
            final(self).same_hidden(&*old(self)),
            final(self).same_graph(&*old(self)),
            final(self).pins() == old(self).pins(),
    {
        self.chips.set(&chip, key, name);
    }

    /// Records a chip's hidden list.
    pub fn set_hidden_keys(&mut self, chip: String, keys: Vec<String>)
        requires
            old(self).wf(),
        ensures
            final(self).wf(),
            final(self).hidden_keys(chip@) == views(keys@),
            forall|c: Seq<char>| c != chip@ ==> #[trigger] final(self).hidden_keys(c) == old(self).hidden_keys(c),
            final(self).same_units(&*old(self)),
            final(self).same_names(&*old(self)),
            final(self).same_graph(&*old(self)),
            final(self).pins() == old(self).pins(),
    {
        self.hidden.insert(chip, keys);
    }

    pub fn set_graph_color(&mut self, chip: String, key: String, value: String)
        requires
            old(self).wf(),
        ensures
            final(self).wf(),
            final(self).color_of(chip@, key@) == Some(value@),
            forall|c: Seq<char>, k: Seq<char>|
                !(c == chip@ && k == key@) ==> #[trigger] final(self).color_of(c, k) == old(self).color_of(c, k),
            final(self).same_units(&*old(self)),
            final(self).same_names(&*old(self)),
            final(self).same_hidden(&*old(self)),
            final(self).pins() == old(self).pins(),
            forall|c: Seq<char>, k: Seq<char>| #[trigger] final(self).style_of(c, k) == old(self).style_of(c, k),
            forall|c: Seq<char>, k: Seq<char>| #[trigger] final(self).shown_of(c, k) == old(self).shown_of(c, k),
    {
        self.graph_color.set(&chip, key, value);
    }

    pub fn set_graph_style(&mut self, chip: String, key: String, value: String)
        requires
            old(self).wf(),
        ensures
            final(self).wf(),
            final(self).style_of(chip@, key@) == Some(value@),
            forall|c: Seq<char>, k: Seq<char>|
                !(c == chip@ && k == key@) ==> #[trigger] final(self).style_of(c, k) == old(self).style_of(c, k),
            final(self).same_units(&*old(self)),
            final(self).same_names(&*old(self)),
            final(self).same_hidden(&*old(self)),
            final(self).pins() == old(self).pins(),
            forall|c: Seq<char>, k: Seq<char>| #[trigger] final(self).color_of(c, k) == old(self).color_of(c, k),
            forall|c: Seq<char>, k: Seq<char>| #[trigger] final(self).shown_of(c, k) == old(self).shown_of(c, k),
    {
        self.graph_style.set(&chip, key, value);
    }

    pub fn set_graph_shown(&mut self, chip: String, key: String, value: bool)
        requires
            old(self).wf(),
        ensures
            final(self).wf(),
            final(self).shown_of(chip@, key@) == Some(value),
            forall|c: Seq<char>, k: Seq<char>|
                !(c == chip@ && k == key@) ==> #[trigger] final(self).shown_of(c, k) == old(self).shown_of(c, k),
            final(self).same_units(&*old(self)),
            final(self).same_names(&*old(self)),
            final(self).same_hidden(&*old(self)),
            final(self).pins() == old(self).pins(),
            forall|c: Seq<char>, k: Seq<char>| #[trigger] final(self).color_of(c, k) == old(self).color_of(c, k),
            forall|c: Seq<char>, k: Seq<char>| #[trigger] final(self).style_of(c, k) == old(self).style_of(c, k),
    {
        self.graph_shown.set(&chip, key, value);
    }

    /// Appends a dashboard pin.
    pub fn push_pin(&mut self, item: DashboardItem)
        requires
            old(self).wf(),
        ensures
            final(self).wf(),
            final(self).pins() == old(self).pins().push(item),
            final(self).same_units(&*old(self)),
            final(self).same_names(&*old(self)),
            final(self).same_hidden(&*old(self)),
            final(self).same_graph(&*old(self)),
    {
        self.dashboard.push(item);
    }

    pub fn temp_unit(&self) -> (r: TempUnit)
        ensures
            r == self.temperature_setting().unwrap_or(TempUnit::Celsius),
    {
        match self.temperature {
            Some(u) => u,
            None => TempUnit::Celsius,
        }
    }

    pub fn fan_unit(&self) -> (r: FanUnit)
        ensures
            r == self.fan_setting().unwrap_or(FanUnit::Rpm),
    {
        match self.fan {
            Some(u) => u,
            None => FanUnit::Rpm,
        }
    }

    fn lookup(&self, chip: &str, key: &str) -> (r: Option<String>)
        requires
            self.wf(),
        ensures
            opt_view(r) == self.name_of(chip@, key@),
    {
        let c = chip.to_owned();
        let k = key.to_owned();
        match self.chips.get(&c, &k) {
            Some(n) => Some(n.clone()),
            None => None,
        }
    }

    fn numbered_label(&self, chip: &str, key: &str, index: usize, defaults: &[String], fallback: &str) -> (r:
        String)
        requires
            self.wf(),
            index < usize::MAX,
        ensures
            r@ == channel_label(
                self.name_of(chip@, numbered(key@, index as nat + 1)),
                defaults@,
                index as nat,
                fallback@,
            ),
    {
        let k = numbered_string(key, index + 1);
        match self.lookup(chip, k.as_str()) {
            Some(name) => name,
            None => {
                if index < defaults.len() {
                    defaults[index].clone()
                } else {
                    numbered_string(fallback, index + 1)
                }
            },
        }
    }

    /// Display name of a temperature channel: the user's name, else the
    /// chip-provided label, else "Temp N".
    pub fn temp_label(&self, chip: &str, index: usize, defaults: &[String]) -> (r: String)
        requires
            self.wf(),
            index < usize::MAX,
        ensures
            r@ == channel_label(
                self.name_of(chip@, numbered("temp"@, index as nat + 1)),
                defaults@,
                index as nat,
                "Temp "@,
            ),
    {
        self.numbered_label(chip, "temp", index, defaults, "Temp ")
    }

    /// Display name of a power channel: the user's name, else the
    /// chip-provided label, else "Power N".
    pub fn power_label(&self, chip: &str, index: usize, defaults: &[String]) -> (r: String)
        requires
            self.wf(),
            index < usize::MAX,
        ensures
            r@ == channel_label(
                self.name_of(chip@, numbered("power"@, index as nat + 1)),
                defaults@,
                index as nat,
                "Power "@,
            ),
    {
        self.numbered_label(chip, "power", index, defaults, "Power ")
    }

    /// Display name of a fan: the user's name, else "Fan N".
    pub fn fan_label(&self, chip: &str, index: usize) -> (r: String)
        requires
            self.wf(),
            index < usize::MAX,
        ensures
            r@ == channel_label(
                self.name_of(chip@, numbered("fan"@, index as nat + 1)),
                Seq::empty(),
                index as nat,
                "Fan "@,
            ),
    {
        let none: Vec<String> = Vec::new();
        self.numbered_label(chip, "fan", index, none.as_slice(), "Fan ")
    }

    /// Display name of a device: the user's non-blank `name`, else the chip.
    pub fn device_label(&self, chip: &str) -> (r: String)
        requires
            self.wf(),
        ensures
            r@ == match self.name_of(chip@, "name"@) {
                Some(n) => if chars::trim(n).len() > 0 {
                    n
                } else {
                    chip@
                },
                None => chip@,
            },
    {
        match self.lookup(chip, "name") {
            Some(name) => {
                let t = chars::trimmed(&chars::chars_of(name.as_str()));
                if t.len() > 0 {
                    name
                } else {
                    chip.to_owned()
                }
            },
            None => chip.to_owned(),
        }
    }

    fn has_hidden_key(&self, chip: &str, key: &str) -> (r: bool)
        requires
            self.wf(),
        ensures
            r == self.hidden_keys(chip@).contains(key@),
    {
        let c = chip.to_owned();
        match self.hidden.get(&c) {
            Some(keys) => {
                let target = chars::chars_of(key);
                let ghost ks = views(keys@);
                let mut i: usize = 0;
                while i < keys.len()
                    invariant
                        i <= keys@.len(),
                        target@ == key@,
                        ks == views(keys@),
                        self.hidden@.contains_key(chip@),
                        self.hidden@[chip@] == *keys,
                        forall|j: int| 0 <= j < i ==> ks[j] != key@,
                    decreases keys@.len() - i,
                {
                    let k = chars::chars_of(keys[i].as_str());
                    if chars::same_chars(&k, &target) {
                        assert(ks[i as int] == key@);
                        assert(self.hidden_keys(chip@) == ks);
                        assert(self.hidden_keys(chip@).contains(key@));
                        return true;
                    }
                    i += 1;
                }
                false
            },
            None => false,
        }
    }

    /// Whether a whole device is hidden.
    pub fn is_device_hidden(&self, chip: &str) -> (r: bool)
        requires
            self.wf(),
        ensures
            r == self.hidden_keys(chip@).contains(HIDDEN_DEVICE_KEY@),
    {
        self.has_hidden_key(chip, HIDDEN_DEVICE_KEY)
    }

    /// Whether a sensor category on a chip is hidden.
    pub fn is_category_hidden(&self, chip: &str, category: HiddenCategory) -> (r: bool)
        requires
            self.wf(),
        ensures
            r == self.hidden_keys(chip@).contains(category_key(category)),
    {
        self.has_hidden_key(chip, category.key())
    }

    /// Whether a channel is hidden by its own toggle.
    pub fn is_channel_hidden(&self, chip: &str, key: &str) -> (r: bool)
        requires
            self.wf(),
        ensures
            r == self.hidden_keys(chip@).contains(key@),
    {
        self.has_hidden_key(chip, key)
    }

    /// A channel is hidden by its own toggle, its category or its whole
    /// device.
    pub open spec fn hidden_spec(&self, chip: Seq<char>, key: Seq<char>) -> bool {
        self.hidden_keys(chip).contains(HIDDEN_DEVICE_KEY@) || (match category_of_key(key) {
            Some(c) => self.hidden_keys(chip).contains(category_key(c)),
            None => false,
        }) || self.hidden_keys(chip).contains(key)
    }

    /// Whether a channel is hidden by its own toggle, its category or its
    /// whole device.
    pub fn is_hidden(&self, chip: &str, key: &str) -> (r: bool)
        requires
            self.wf(),
        ensures
            r == self.hidden_spec(chip@, key@),
    {
        if self.is_device_hidden(chip) {
            return true;
        }
        let by_category = match HiddenCategory::from_channel_key(key) {
            Some(category) => self.is_category_hidden(chip, category),
            None => false,
        };
        by_category || self.is_channel_hidden(chip, key)
    }

    /// The user's line color for a graph line, from `"#rrggbb"`.
    pub fn graph_color(&self, chip: &str, key: &str) -> (r: Option<u32>)
        requires
            self.wf(),
        ensures
            r == match self.color_of(chip@, key@) {
                Some(raw) => color_value(raw),
                None => None,
            },
    {
        let c = chip.to_owned();
        let k = key.to_owned();
        let raw = match self.graph_color.get(&c, &k) {
            Some(raw) => chars::chars_of(raw.as_str()),
            None => {
                return None;
            },
        };
        if raw.len() > 0 && raw[0] == '#' {
            let mut rest = raw;
            rest.remove(0);
            assert(rest@ =~= raw@.drop_first());
            chars::parse_hex_u32(&rest)
        } else {
            chars::parse_hex_u32(&raw)
        }
    }

    /// The user's line style name for a graph line.
    pub fn graph_style(&self, chip: &str, key: &str) -> (r: Option<String>)
        requires
            self.wf(),
        ensures
            opt_view(r) == self.style_of(chip@, key@),
    {
        let c = chip.to_owned();
        let k = key.to_owned();
        match self.graph_style.get(&c, &k) {
            Some(s) => Some(s.clone()),
            None => None,
        }
    }

    /// The user's visibility override for a graph line; `None` means the
    /// kind's default.
    pub fn graph_shown(&self, chip: &str, key: &str) -> (r: Option<bool>)
        requires
            self.wf(),
        ensures
            r == self.shown_of(chip@, key@),
    {
        let c = chip.to_owned();
        let k = key.to_owned();
        match self.graph_shown.get(&c, &k) {
            Some(b) => Some(*b),
            None => None,
        }
    }

    /// How a sensor's graph line is drawn: the palette color and solid
    /// style of its `slot`, each overridden by the user's setting for the
    /// sensor's channel (an unknown style name is ignored), and whether it
    /// is shown (the user's setting, else the kind's default).
    pub fn channel_appearance(&self, chip: &str, key: ui::SensorKey, slot: usize) -> (r: (
        u32,
        ui::LineStyle,
        bool,
    ))
        requires
            self.wf(),
            key.index < usize::MAX,
        ensures
            ({
                let channel = ui::channel_key_spec(key);
                &&& r.0 == match self.color_of(chip@, channel) {
                    Some(raw) => match color_value(raw) {
                        Some(c) => c,
                        None => ui::palette((slot % ui::PALETTE_SIZE) as nat),
                    },
                    None => ui::palette((slot % ui::PALETTE_SIZE) as nat),
                }
                &&& r.1 == match self.style_of(chip@, channel) {
                    Some(name) => match ui::parse_line_style_spec(name) {
                        Some(style) => style,
                        None => ui::LineStyle::Solid,
                    },
                    None => ui::LineStyle::Solid,
                }
                &&& r.2 == match self.shown_of(chip@, channel) {
                    Some(shown) => shown,
                    None => key.kind != ui::SensorKind::FanRpm,
                }
            }),
    {
        let channel = ui::channel_key(key);
        let (mut color, mut style) = ui::sensor_style(slot);
        if let Some(custom) = self.graph_color(chip, channel.as_str()) {
            color = custom;
        }
        if let Some(name) = self.graph_style(chip, channel.as_str()) {
            if let Some(custom) = ui::parse_line_style(name.as_str()) {
                style = custom;
            }
        }
        let shown = match self.graph_shown(chip, channel.as_str()) {
            Some(shown) => shown,
            None => ui::default_shown(key.kind),
        };
        (color, style, shown)
    }

    /// Whether `item` is pinned to the dashboard.
    pub fn is_dashboard_pinned(&self, item: &DashboardItem) -> (r: bool)
        ensures
            r == exists|i: int| 0 <= i < self.pins().len() && same_pin(#[trigger] self.pins()[i], *item),
    {
        let mut i: usize = 0;
        while i < self.dashboard.len()
            invariant
                i <= self.dashboard@.len(),
                forall|j: int| 0 <= j < i ==> !same_pin(#[trigger] self.dashboard@[j], *item),
            decreases self.dashboard@.len() - i,
        {
            let p = &self.dashboard[i];
            let same = p.kind == item.kind && match item.kind {
                DashboardItemKind::Curve => opt_same(&p.id, &item.id),
                _ => opt_same(&p.chip, &item.chip) && opt_same(&p.channel, &item.channel),
            };
            if same {
                assert(same_pin(self.pins()[i as int], *item));
                return true;
            }
            i += 1;
        }
        false
    }
}

/// Whether two pins are for the same thing, compared like stored entries.
pub open spec fn same_pin(p: DashboardItem, item: DashboardItem) -> bool {
    &&& p.kind == item.kind
    &&& match item.kind {
        DashboardItemKind::Fan | DashboardItemKind::Sensor => opt_view(p.chip) == opt_view(item.chip)
            && opt_view(p.channel) == opt_view(item.channel),
        DashboardItemKind::Curve => opt_view(p.id) == opt_view(item.id),
    }
}


/// Which readings a chip has: per temperature, fan and power channel,
/// whether it currently reads.
pub struct ChipPresence {
    pub temps: Vec<bool>,
    pub fans: Vec<bool>,
    pub powers: Vec<bool>,
}

/// The name a chip's settings are kept under: its detected name, or
/// `chip {ci}` when there is none.
pub open spec fn reading_chip_name(chip_names: Seq<String>, ci: int) -> Seq<char> {
    if 0 <= ci < chip_names.len() {
        chip_names[ci]@
    } else {
        "chip "@ + chars::decimal(ci as nat)
    }
}

/// The shown readings of one kind of channel on a chip, each with its
/// colour slot: the group's slots start at `start`, one per channel, shown
/// or not.
pub open spec fn channel_group(
    names: NamesConfig,
    chip: Seq<char>,
    kind: ui::SensorKind,
    ci: usize,
    present: Seq<bool>,
    start: int,
) -> Seq<(ui::SensorKey, usize)>
    decreases present.len(),
{
    if present.len() == 0 {
        Seq::empty()
    } else {
        let i = present.len() - 1;
        let rest = channel_group(names, chip, kind, ci, present.drop_last(), start);
        let key = ui::SensorKey { kind, chip: ci, index: i as usize };
        if present[i] && !names.hidden_spec(chip, ui::channel_key_spec(key)) {
            rest.push((key, (start + i) as usize))
        } else {
            rest
        }
    }
}

/// How many colour slots a chip's channels take.
pub open spec fn chip_slots(p: ChipPresence) -> int {
    (p.temps@.len() + p.fans@.len() + p.powers@.len()) as int
}

/// How many colour slots the chips' channels take together.
pub open spec fn total_slots(chips: Seq<ChipPresence>) -> int
    decreases chips.len(),
{
    if chips.len() == 0 {
        0
    } else {
        total_slots(chips.drop_last()) + chip_slots(chips.last())
    }
}

/// A chip's shown readings: temperatures, then fans, then powers.
pub open spec fn chip_group(names: NamesConfig, chip_names: Seq<String>, ci: int, p: ChipPresence, start: int) -> Seq<
    (ui::SensorKey, usize),
> {
    let chip = reading_chip_name(chip_names, ci);
    channel_group(names, chip, ui::SensorKind::Temperature, ci as usize, p.temps@, start) + channel_group(
        names,
        chip,
        ui::SensorKind::FanRpm,
        ci as usize,
        p.fans@,
        start + p.temps@.len(),
    ) + channel_group(
        names,
        chip,
        ui::SensorKind::Power,
        ci as usize,
        p.powers@,
        start + p.temps@.len() + p.fans@.len(),
    )
}

/// The shown hardware readings of the chips, chip by chip.
pub open spec fn hardware_readings(names: NamesConfig, chip_names: Seq<String>, chips: Seq<ChipPresence>) -> Seq<
    (ui::SensorKey, usize),
>
    decreases chips.len(),
{
    if chips.len() == 0 {
        Seq::empty()
    } else {
        hardware_readings(names, chip_names, chips.drop_last()) + chip_group(
            names,
            chip_names,
            chips.len() - 1,
            chips.last(),
            total_slots(chips.drop_last()),
        )
    }
}

/// The derived sensors that have a value, with their slots after `start`.
pub open spec fn custom_group(customs: Seq<bool>, start: int) -> Seq<(ui::SensorKey, usize)>
    decreases customs.len(),
{
    if customs.len() == 0 {
        Seq::empty()
    } else {
        let i = customs.len() - 1;
        let rest = custom_group(customs.drop_last(), start);
        if customs[i] {
            rest.push((ui::SensorKey { kind: ui::SensorKind::Custom, chip: 0, index: i as usize }, (start + i) as usize))
        } else {
            rest
        }
    }
}

/// The sensor list: every present, not hidden hardware reading chip by
/// chip (temperatures, fans, powers), then every derived sensor with a
/// value, each with its colour slot. Slots count every channel, shown or
/// not, so a reading that drops out or is hidden recolours nothing else.
pub open spec fn visible_readings_spec(
    names: NamesConfig,
    chip_names: Seq<String>,
    chips: Seq<ChipPresence>,
    customs: Seq<bool>,
) -> Seq<(ui::SensorKey, usize)> {
    hardware_readings(names, chip_names, chips) + custom_group(customs, total_slots(chips))
}

proof fn lemma_total_slots_prefix(chips: Seq<ChipPresence>, n: int)
    requires
        0 <= n <= chips.len(),
    ensures
        0 <= total_slots(chips.take(n)) <= total_slots(chips),
    decreases chips.len() - n,
{
    if n < chips.len() {
        lemma_total_slots_prefix(chips, n + 1);
        assert(chips.take(n + 1).drop_last() =~= chips.take(n));
    } else {
        assert(chips.take(n) =~= chips);
    }
    lemma_total_slots_nonneg(chips.take(n));
}

proof fn lemma_total_slots_nonneg(chips: Seq<ChipPresence>)
    ensures
        total_slots(chips) >= 0,
    decreases chips.len(),
{
    if chips.len() > 0 {
        lemma_total_slots_nonneg(chips.drop_last());
    }
}

fn reading_name(chip_names: &[String], ci: usize) -> (r: String)
    ensures
        r@ == reading_chip_name(chip_names@, ci as int),
{
    if ci < chip_names.len() {
        chip_names[ci].clone()
    } else {
        numbered_string("chip ", ci)
    }
}

fn push_group(
    out: &mut Vec<(ui::SensorKey, usize)>,
    names: &NamesConfig,
    chip: &str,
    kind: ui::SensorKind,
    ci: usize,
    present: &Vec<bool>,
    start: usize,
)
    requires
        names.wf(),
        start + present@.len() <= usize::MAX,
    ensures
        final(out)@ == old(out)@ + channel_group(*names, chip@, kind, ci, present@, start as int),
{
    let mut i: usize = 0;
    while i < present.len()
        invariant
            names.wf(),
            start + present@.len() <= usize::MAX,
            i <= present@.len(),
            out@ == old(out)@ + channel_group(*names, chip@, kind, ci, present@.take(i as int), start as int),
        decreases present@.len() - i,
    {
        proof {
            assert(present@.take(i + 1).drop_last() =~= present@.take(i as int));
        }
        let key = ui::SensorKey { kind, chip: ci, index: i };
        if present[i] {
            let channel = ui::channel_key(key);
            if !names.is_hidden(chip, channel.as_str()) {
                out.push((key, start + i));
            }
        }
        proof {
            assert(out@ =~= old(out)@ + channel_group(
                *names,
                chip@,
                kind,
                ci,
                present@.take(i + 1),
                start as int,
            ));
        }
        i += 1;
    }
    assert(present@.take(i as int) =~= present@);
}

/// The sensor list the GUI shows, as keys with colour slots; the caller
/// adds each reading's converted value, label and appearance.
pub fn visible_readings(
    names: &NamesConfig,
    chip_names: &[String],
    chips: &[ChipPresence],
    customs: &[bool],
) -> (r: Vec<(ui::SensorKey, usize)>)
    requires
        names.wf(),
        total_slots(chips@) + customs@.len() <= usize::MAX,
    ensures
        r@ == visible_readings_spec(*names, chip_names@, chips@, customs@),
{
    let mut out: Vec<(ui::SensorKey, usize)> = Vec::new();
    let mut slot: usize = 0;
    let mut ci: usize = 0;
    proof {
        lemma_total_slots_nonneg(chips@);
    }
    while ci < chips.len()
        invariant
            names.wf(),
            total_slots(chips@) + customs@.len() <= usize::MAX,
            ci <= chips@.len(),
            slot == total_slots(chips@.take(ci as int)),
            out@ == hardware_readings(*names, chip_names@, chips@.take(ci as int)),
        decreases chips@.len() - ci,
    {
        let ghost before = chips@.take(ci as int);
        proof {
            assert(chips@.take(ci + 1).drop_last() =~= before);
            assert(chips@.take(ci + 1).last() == chips@[ci as int]);
            lemma_total_slots_prefix(chips@, ci + 1);
        }
        let p = &chips[ci];
        let name = reading_name(chip_names, ci);
        let ghost base = out@;
        push_group(&mut out, names, name.as_str(), ui::SensorKind::Temperature, ci, &p.temps, slot);
        let after_temps = slot + p.temps.len();
        push_group(&mut out, names, name.as_str(), ui::SensorKind::FanRpm, ci, &p.fans, after_temps);
        let after_fans = after_temps + p.fans.len();
        push_group(&mut out, names, name.as_str(), ui::SensorKind::Power, ci, &p.powers, after_fans);
        proof {
            assert(out@ =~= base + chip_group(*names, chip_names@, ci as int, *p, slot as int));
        }
        slot = after_fans + p.powers.len();
        ci += 1;
    }
    assert(chips@.take(ci as int) =~= chips@);
    let mut i: usize = 0;
    let ghost hw = out@;
    while i < customs.len()
        invariant
            slot == total_slots(chips@),
            slot + customs@.len() <= usize::MAX,
            i <= customs@.len(),
            out@ == hw + custom_group(customs@.take(i as int), slot as int),
        decreases customs@.len() - i,
    {
        proof {
            assert(customs@.take(i + 1).drop_last() =~= customs@.take(i as int));
        }
        if customs[i] {
            out.push((ui::SensorKey { kind: ui::SensorKind::Custom, chip: 0, index: i }, slot + i));
        }
        proof {
            assert(out@ =~= hw + custom_group(customs@.take(i + 1), slot as int));
        }
        i += 1;
    }
    assert(customs@.take(i as int) =~= customs@);
    out
}

/// Where a channel's colour slot lies: after every channel of the chips
/// before it, then its chip's channels of the kinds listed before its own,
/// then its index; derived sensors follow all hardware channels.
pub open spec fn reading_slot(chips: Seq<ChipPresence>, key: ui::SensorKey) -> int {
    match key.kind {
        ui::SensorKind::Custom => total_slots(chips) + key.index,
        _ => {
            let p = chips[key.chip as int];
            total_slots(chips.take(key.chip as int)) + match key.kind {
                ui::SensorKind::Temperature => 0int,
                ui::SensorKind::FanRpm => p.temps@.len() as int,
                _ => (p.temps@.len() + p.fans@.len()) as int,
            } + key.index
        }
    }
}

/// Whether `key` names a channel of `chips`, or one of `customs` derived
/// sensors.
pub open spec fn reading_key_in(chips: Seq<ChipPresence>, customs: nat, key: ui::SensorKey) -> bool {
    match key.kind {
        ui::SensorKind::Custom => key.index < customs,
        ui::SensorKind::Temperature => key.chip < chips.len() && key.index < chips[key.chip as int].temps@.len(),
        ui::SensorKind::FanRpm => key.chip < chips.len() && key.index < chips[key.chip as int].fans@.len(),
        ui::SensorKind::Power => key.chip < chips.len() && key.index < chips[key.chip as int].powers@.len(),
    }
}

/// How many temperature, fan and power channels a chip has.
pub open spec fn channel_counts(p: ChipPresence) -> (nat, nat, nat) {
    (p.temps@.len(), p.fans@.len(), p.powers@.len())
}

/// Whether two chip lists have the same channels, whatever reads.
pub open spec fn same_channels(a: Seq<ChipPresence>, b: Seq<ChipPresence>) -> bool {
    &&& a.len() == b.len()
    &&& forall|c: int| 0 <= c < a.len() ==> #[trigger] channel_counts(a[c]) == channel_counts(b[c])
}

proof fn lemma_channel_group_entries(
    names: NamesConfig,
    chip: Seq<char>,
    kind: ui::SensorKind,
    ci: usize,
    present: Seq<bool>,
    start: int,
)
    requires
        0 <= start,
        start + present.len() <= usize::MAX,
    ensures
        forall|j: int|
            0 <= j < channel_group(names, chip, kind, ci, present, start).len() ==> {
                let e = #[trigger] channel_group(names, chip, kind, ci, present, start)[j];
                &&& e.0.kind == kind
                &&& e.0.chip == ci
                &&& e.0.index < present.len()
                &&& e.1 == start + e.0.index
            },
    decreases present.len(),
{
    if present.len() > 0 {
        lemma_channel_group_entries(names, chip, kind, ci, present.drop_last(), start);
    }
}

proof fn lemma_custom_group_entries(customs: Seq<bool>, start: int)
    requires
        0 <= start,
        start + customs.len() <= usize::MAX,
    ensures
        forall|j: int|
            0 <= j < custom_group(customs, start).len() ==> {
                let e = #[trigger] custom_group(customs, start)[j];
                &&& e.0.kind == ui::SensorKind::Custom
                &&& e.0.index < customs.len()
                &&& e.1 == start + e.0.index
            },
    decreases customs.len(),
{
    if customs.len() > 0 {
        lemma_custom_group_entries(customs.drop_last(), start);
    }
}

proof fn lemma_hardware_entries(names: NamesConfig, chip_names: Seq<String>, chips: Seq<ChipPresence>)
    requires
        chips.len() <= usize::MAX,
        total_slots(chips) <= usize::MAX,
    ensures
        forall|j: int|
            0 <= j < hardware_readings(names, chip_names, chips).len() ==> {
                let e = #[trigger] hardware_readings(names, chip_names, chips)[j];
                &&& e.0.kind != ui::SensorKind::Custom
                &&& reading_key_in(chips, 0, e.0)
                &&& e.1 == reading_slot(chips, e.0)
            },
    decreases chips.len(),
{
    if chips.len() > 0 {
        let prev = chips.drop_last();
        let ci = chips.len() - 1;
        let p = chips.last();
        let start = total_slots(prev);
        lemma_total_slots_nonneg(prev);
        lemma_hardware_entries(names, chip_names, prev);
        let chip = reading_chip_name(chip_names, ci);
        let t = channel_group(names, chip, ui::SensorKind::Temperature, ci as usize, p.temps@, start);
        let f = channel_group(names, chip, ui::SensorKind::FanRpm, ci as usize, p.fans@, start + p.temps@.len());
        let w = channel_group(
            names,
            chip,
            ui::SensorKind::Power,
            ci as usize,
            p.powers@,
            start + p.temps@.len() + p.fans@.len(),
        );
        lemma_channel_group_entries(names, chip, ui::SensorKind::Temperature, ci as usize, p.temps@, start);
        lemma_channel_group_entries(
            names,
            chip,
            ui::SensorKind::FanRpm,
            ci as usize,
            p.fans@,
            start + p.temps@.len(),
        );
        lemma_channel_group_entries(
            names,
            chip,
            ui::SensorKind::Power,
            ci as usize,
            p.powers@,
            start + p.temps@.len() + p.fans@.len(),
        );
        assert(chips.take(ci) =~= prev);
        let before = hardware_readings(names, chip_names, prev);
        let r = hardware_readings(names, chip_names, chips);
        assert(r =~= before + (t + f + w));
        assert forall|j: int| 0 <= j < r.len() implies {
            let e = #[trigger] r[j];
            &&& e.0.kind != ui::SensorKind::Custom
            &&& reading_key_in(chips, 0, e.0)
            &&& e.1 == reading_slot(chips, e.0)
        } by {
            if j < before.len() {
                let e = before[j];
                assert(r[j] == e);
                let c = e.0.chip as int;
                assert(chips.take(c) =~= prev.take(c));
                assert(chips[c] == prev[c]);
            } else if j < before.len() + t.len() {
                assert(r[j] == t[j - before.len()]);
            } else if j < before.len() + t.len() + f.len() {
                assert(r[j] == f[j - before.len() - t.len()]);
            } else {
                assert(r[j] == w[j - before.len() - t.len() - f.len()]);
            }
        }
    }
}

/// Colour slots are positional: every reading in the sensor list names a
/// channel that exists, and its slot is where that channel sits among
/// all channels, whichever other readings are present or hidden.
pub proof fn lemma_reading_slots_positional(
    names: NamesConfig,
    chip_names: Seq<String>,
    chips: Seq<ChipPresence>,
    customs: Seq<bool>,
)
    requires
        chips.len() <= usize::MAX,
        total_slots(chips) + customs.len() <= usize::MAX,
    ensures
        forall|j: int|
            0 <= j < visible_readings_spec(names, chip_names, chips, customs).len() ==> {
                let e = #[trigger] visible_readings_spec(names, chip_names, chips, customs)[j];
                &&& reading_key_in(chips, customs.len(), e.0)
                &&& e.1 == reading_slot(chips, e.0)
            },
{
    lemma_total_slots_nonneg(chips);
    lemma_hardware_entries(names, chip_names, chips);
    lemma_custom_group_entries(customs, total_slots(chips));
    let h = hardware_readings(names, chip_names, chips);
    let c = custom_group(customs, total_slots(chips));
    let r = visible_readings_spec(names, chip_names, chips, customs);
    assert forall|j: int| 0 <= j < r.len() implies {
        let e = #[trigger] r[j];
        &&& reading_key_in(chips, customs.len(), e.0)
        &&& e.1 == reading_slot(chips, e.0)
    } by {
        if j < h.len() {
            assert(r[j] == h[j]);
        } else {
            assert(r[j] == c[j - h.len()]);
        }
    }
}

proof fn lemma_total_slots_same_channels(a: Seq<ChipPresence>, b: Seq<ChipPresence>)
    requires
        same_channels(a, b),
    ensures
        total_slots(a) == total_slots(b),
    decreases a.len(),
{
    if a.len() > 0 {
        let n = a.len() - 1;
        assert(channel_counts(a[n]) == channel_counts(b[n]));
        assert forall|i: int| 0 <= i < n implies #[trigger] channel_counts(a.drop_last()[i]) == channel_counts(
            b.drop_last()[i],
        ) by {
            assert(channel_counts(a[i]) == channel_counts(b[i]));
        }
        lemma_total_slots_same_channels(a.drop_last(), b.drop_last());
    }
}

/// A reading that drops out or is hidden recolours nothing else: with the
/// same channels and derived sensors, a reading shown in two sensor lists
/// has the same slot in both, whatever reads and whatever is hidden.
pub proof fn lemma_reading_slots_stable(
    names_a: NamesConfig,
    names_b: NamesConfig,
    chip_names: Seq<String>,
    a: Seq<ChipPresence>,
    b: Seq<ChipPresence>,
    customs_a: Seq<bool>,
    customs_b: Seq<bool>,
    j: int,
    k: int,
)
    requires
        same_channels(a, b),
        customs_a.len() == customs_b.len(),
        a.len() <= usize::MAX,
        total_slots(a) + customs_a.len() <= usize::MAX,
        0 <= j < visible_readings_spec(names_a, chip_names, a, customs_a).len(),
        0 <= k < visible_readings_spec(names_b, chip_names, b, customs_b).len(),
        visible_readings_spec(names_a, chip_names, a, customs_a)[j].0 == visible_readings_spec(
            names_b,
            chip_names,
            b,
            customs_b,
        )[k].0,
    ensures
        visible_readings_spec(names_a, chip_names, a, customs_a)[j].1 == visible_readings_spec(
            names_b,
            chip_names,
            b,
            customs_b,
        )[k].1,
{
    lemma_total_slots_same_channels(a, b);
    lemma_reading_slots_positional(names_a, chip_names, a, customs_a);
    lemma_reading_slots_positional(names_b, chip_names, b, customs_b);
    let key = visible_readings_spec(names_a, chip_names, a, customs_a)[j].0;
    assert(reading_key_in(a, customs_a.len(), key));
    if key.kind != ui::SensorKind::Custom {
        let c = key.chip as int;
        assert(0 <= c < a.len());
        assert(a.take(c).len() == b.take(c).len());
        assert(channel_counts(a[c]) == channel_counts(b[c]));
        assert forall|i: int| 0 <= i < c implies #[trigger] channel_counts(a.take(c)[i]) == channel_counts(
            b.take(c)[i],
        ) by {
            assert(channel_counts(a[i]) == channel_counts(b[i]));
        }
        lemma_total_slots_same_channels(a.take(c), b.take(c));
    }
}


/// The starter config's opening: units, with how to rename channels.
pub const TEMPLATE_HEAD: &'static str = "# zugluft display names — uncomment a line and change its value to\n# rename a sensor or fan. The app picks up changes automatically.\n\n[units]\ntemperature = \"celsius\" # or \"fahrenheit\"\nfan = \"rpm\" # or \"percent\" (of the calibrated max RPM)\n";

/// The commented examples of derived sensors and fan curves, in pieces
/// around the example chip name.
pub const TEMPLATE_EXAMPLES: &'static str = "\n# Derived sensors for the graph and fan curves: the Sensors tab's\n# “Add sensor” button edits these; hand-editing works too.\n# [[custom]]\n# id = \"mix\"\n# name = \"CPU/System Mix\"\n# kind = \"average\" # average | min | max (\"average\" honors weights)\n# inputs = [\n#     { chip = \"";

pub const TEMPLATE_SECOND_INPUT: &'static str = "\", temp = 1, weight = 2.0 },\n#     { chip = \"";

pub const TEMPLATE_CURVES: &'static str = "\", temp = 2 },\n# ]\n\n# Fan curves: the Curves tab edits these; hand-editing works too.\n# `source` is a hardware channel or { custom = \"mix\" }. Graph\n# `points` are [°C, target fan %] pairs and clamp at the ends;\n# `linear` uses start/end pairs and clamps outside them; `trigger`\n# uses threshold, before, and after. Functions\n# fine-tune the base curve; standard hysteresis defaults to heat-up\n# now, cool-down after a 2 °C drop for 2 seconds.\n# [[curve]]\n# id = \"cpu\"\n# name = \"CPU Curve\"\n# kind = \"graph\"\n# source = { chip = \"";

pub const TEMPLATE_CURVE_TAIL: &'static str = "\", temp = 1 }\n# window = { temp_min = 25.0, temp_max = 90.0, duty_min = 15.0, duty_max = 100.0 }\n# functions = [{ kind = \"standard\", hysteresis = { degrees = 2.0, delay_ms = 2000, only_downward = true } }]\n# points = [[30.0, 20.0], [50.0, 40.0], [70.0, 100.0]]\n# kind = \"trigger\"\n# threshold = 60.0\n# before = 35.0\n# after = 85.0\n# kind = \"linear\"\n# start = [35.0, 25.0]\n# end = [75.0, 90.0]\n";

/// One commented-out name line, `# {key}{n} = "{label}"`.
pub open spec fn commented_line(key: Seq<char>, index: nat, label: Seq<char>) -> Seq<char> {
    "# "@ + key + chars::decimal(index + 1) + " = \""@ + label + "\"\n"@
}

/// The commented-out name lines of the channels that read, in order; a
/// channel's label is the chip's, else `{fallback}{n}`.
pub open spec fn template_lines(key: Seq<char>, labels: Seq<String>, present: Seq<bool>, fallback: Seq<char>) -> Seq<
    char,
>
    decreases present.len(),
{
    if present.len() == 0 {
        Seq::empty()
    } else {
        let i = (present.len() - 1) as nat;
        let rest = template_lines(key, labels, present.drop_last(), fallback);
        if present[i as int] {
            rest + commented_line(key, i, channel_label(None, labels, i, fallback))
        } else {
            rest
        }
    }
}

/// A chip's section of the starter config.
pub open spec fn template_section(info: ChipInfo, p: ChipPresence) -> Seq<char> {
    "\n[chips.\""@ + info.name@ + "\"]\n"@ + template_lines("temp"@, info.temp_labels@, p.temps@, "Temp "@)
        + template_lines("fan"@, Seq::empty(), p.fans@, "Fan "@) + template_lines(
        "power"@,
        info.power_labels@,
        p.powers@,
        "Power "@,
    )
}

/// The sections of the first `n` chips; a chip without readings has none.
pub open spec fn template_sections(chips: Seq<ChipInfo>, presence: Seq<ChipPresence>, n: int) -> Seq<char>
    decreases n,
{
    if n <= 0 {
        Seq::empty()
    } else {
        template_sections(chips, presence, n - 1) + if n - 1 < presence.len() {
            template_section(chips[n - 1], presence[n - 1])
        } else {
            Seq::empty()
        }
    }
}

/// The chip named in the examples: the first detected one.
pub open spec fn example_chip(chips: Seq<ChipInfo>) -> Seq<char> {
    if chips.len() > 0 {
        chips[0].name@
    } else {
        "ITE IT8688E"@
    }
}

/// The starter `config.toml`: units, a commented-out name line for every
/// channel that reads, per chip, then commented examples of a derived
/// sensor and a fan curve naming the first chip.
pub open spec fn template_text(chips: Seq<ChipInfo>, presence: Seq<ChipPresence>) -> Seq<char> {
    let example = example_chip(chips);
    TEMPLATE_HEAD@ + template_sections(chips, presence, chips.len() as int) + TEMPLATE_EXAMPLES@ + example
        + TEMPLATE_SECOND_INPUT@ + example + TEMPLATE_CURVES@ + example + TEMPLATE_CURVE_TAIL@
}

fn push_str(out: &mut Vec<char>, s: &str)
    ensures
        final(out)@ == old(out)@ + s@,
{
    let mut v = chars::chars_of(s);
    out.append(&mut v);
}

fn push_template_lines(
    out: &mut Vec<char>,
    key: &str,
    labels: &[String],
    present: &Vec<bool>,
    fallback: &str,
)
    ensures
        final(out)@ == old(out)@ + template_lines(key@, labels@, present@, fallback@),
{
    let mut i: usize = 0;
    while i < present.len()
        invariant
            i <= present@.len(),
            out@ == old(out)@ + template_lines(key@, labels@, present@.take(i as int), fallback@),
        decreases present@.len() - i,
    {
        proof {
            assert(present@.take(i + 1).drop_last() =~= present@.take(i as int));
        }
        if present[i] {
            let ghost before = out@;
            push_str(out, "# ");
            push_str(out, key);
            let mut d = chars::decimal_digits((i + 1) as u64);
            out.append(&mut d);
            push_str(out, " = \"");
            if i < labels.len() {
                push_str(out, labels[i].as_str());
            } else {
                push_str(out, fallback);
                let mut n = chars::decimal_digits((i + 1) as u64);
                out.append(&mut n);
            }
            push_str(out, "\"\n");
            proof {
                let label = channel_label(None, labels@, i as nat, fallback@);
                assert(out@ =~= before + commented_line(key@, i as nat, label));
            }
        }
        proof {
            assert(out@ =~= old(out)@ + template_lines(key@, labels@, present@.take(i + 1), fallback@));
        }
        i += 1;
    }
    assert(present@.take(i as int) =~= present@);
}

/// The text of the starter config written on first run, from the
/// detected chips and which of their channels read (`presence[ci]`, for
/// the chips that have a snapshot).
pub fn template_text_for(chips: &[ChipInfo], presence: &[ChipPresence]) -> (r: String)
    ensures
        r@ == template_text(chips@, presence@),
{
    let mut out: Vec<char> = Vec::new();
    push_str(&mut out, TEMPLATE_HEAD);
    let mut ci: usize = 0;
    while ci < chips.len()
        invariant
            ci <= chips@.len(),
            out@ == TEMPLATE_HEAD@ + template_sections(chips@, presence@, ci as int),
        decreases chips@.len() - ci,
    {
        let ghost before = out@;
        if ci < presence.len() {
            let info = &chips[ci];
            let p = &presence[ci];
            push_str(&mut out, "\n[chips.\"");
            push_str(&mut out, info.name.as_str());
            push_str(&mut out, "\"]\n");
            push_template_lines(&mut out, "temp", info.temp_labels.as_slice(), &p.temps, "Temp ");
            let none: Vec<String> = Vec::new();
            push_template_lines(&mut out, "fan", none.as_slice(), &p.fans, "Fan ");
            push_template_lines(&mut out, "power", info.power_labels.as_slice(), &p.powers, "Power ");
            proof {
                assert(none@ =~= Seq::<String>::empty());
                assert(out@ =~= before + template_section(chips@[ci as int], presence@[ci as int]));
            }
        }
        proof {
            assert(out@ =~= TEMPLATE_HEAD@ + template_sections(chips@, presence@, ci + 1));
        }
        ci += 1;
    }
    let example: &str = if chips.len() > 0 {
        chips[0].name.as_str()
    } else {
        "ITE IT8688E"
    };
    push_str(&mut out, TEMPLATE_EXAMPLES);
    push_str(&mut out, example);
    push_str(&mut out, TEMPLATE_SECOND_INPUT);
    push_str(&mut out, example);
    push_str(&mut out, TEMPLATE_CURVES);
    push_str(&mut out, example);
    push_str(&mut out, TEMPLATE_CURVE_TAIL);
    proof {
        assert(out@ =~= template_text(chips@, presence@));
    }
    chars::string_from_chars(out.as_slice())
}


/// The id and display name an entry goes by: its own id, else the
/// positional fallback; its own name, else its id.
pub fn entry_identity(kind: EntryKind, index: usize, id: &str, name: &str) -> (r: (String, String))
    requires
        index < usize::MAX,
    ensures
        r.0@ == if id@.len() == 0 {
            numbered(entry_prefix(kind), index as nat + 1)
        } else {
            id@
        },
        r.1@ == if name@.len() == 0 {
            r.0@
        } else {
            name@
        },
{
    let own = own_id(kind, index, id);
    let shown = if chars::chars_of(name).len() == 0 {
        own_id(kind, index, id)
    } else {
        name.to_owned()
    };
    (own, shown)
}

fn own_id(kind: EntryKind, index: usize, id: &str) -> (r: String)
    requires
        index < usize::MAX,
    ensures
        r@ == if id@.len() == 0 {
            numbered(entry_prefix(kind), index as nat + 1)
        } else {
            id@
        },
{
    if chars::chars_of(id).len() == 0 {
        match kind {
            EntryKind::Custom => fallback_custom_id(index),
            EntryKind::Curve => fallback_curve_id(index),
        }
    } else {
        id.to_owned()
    }
}


/// A fan or sensor pin is the pin for an item only when kind, chip and
/// channel all agree (a curve pin when kind and id agree): a pin on
/// another chip never counts.
pub proof fn law_pins_match_chip_and_channel(p: DashboardItem, item: DashboardItem)
    ensures
        same_pin(p, item) <==> (p.kind == item.kind && if item.kind == DashboardItemKind::Curve {
            opt_view(p.id) == opt_view(item.id)
        } else {
            opt_view(p.chip) == opt_view(item.chip) && opt_view(p.channel) == opt_view(item.channel)
        }),
        item.kind != DashboardItemKind::Curve && opt_view(p.chip) != opt_view(item.chip) ==> !same_pin(p, item),
{
}

} // verus!
