//! The GUI's plain data: sensor identities and their config keys, units and
//! line styles, views, tuning fields, the default graph palette, and the
//! bundled icon table.

use vstd::prelude::*;

use crate::chars;

verus! {

#[derive(Clone, Copy, Debug, PartialEq, Eq, Structural)]
pub enum SensorKind {
    Temperature,
    FanRpm,
    Power,
    /// User-defined derived sensor; `chip` is unused, `index` is the
    /// position in the service's published list.
    Custom,
}

#[derive(Clone, Copy, Debug, PartialEq, Eq, Structural)]
pub struct SensorKey {
    pub kind: SensorKind,
    pub chip: usize,
    pub index: usize,
}

#[derive(Clone, Copy, Debug, PartialEq, Eq, Structural)]
pub enum SensorUnit {
    Celsius,
    Fahrenheit,
    Rpm,
    Percent,
    Watts,
}

pub open spec fn unit_label(u: SensorUnit) -> Seq<char> {
    match u {
        SensorUnit::Celsius => "°C"@,
        SensorUnit::Fahrenheit => "°F"@,
        SensorUnit::Rpm => "U/min"@,
        SensorUnit::Percent => "%"@,
        SensorUnit::Watts => "W"@,
    }
}

impl SensorUnit {
    pub fn label(self) -> (r: &'static str)
        ensures
            r@ == unit_label(self),
    {
        match self {
            SensorUnit::Celsius => "°C",
            SensorUnit::Fahrenheit => "°F",
            SensorUnit::Rpm => "U/min",
            SensorUnit::Percent => "%",
            SensorUnit::Watts => "W",
        }
    }
}

#[derive(Clone, Copy, Debug, PartialEq, Eq, Structural)]
pub enum LineStyle {
    Solid,
    Dashed,
    Dotted,
    DashDot,
}

pub open spec fn style_name(s: LineStyle) -> Seq<char> {
    match s {
        LineStyle::Solid => "solid"@,
        LineStyle::Dashed => "dashed"@,
        LineStyle::Dotted => "dotted"@,
        LineStyle::DashDot => "dashdot"@,
    }
}

pub open spec fn style_label(s: LineStyle) -> Seq<char> {
    match s {
        LineStyle::Solid => "Solid"@,
        LineStyle::Dashed => "Dashed"@,
        LineStyle::Dotted => "Dotted"@,
        LineStyle::DashDot => "Dash-dot"@,
    }
}

impl LineStyle {
    /// Config token, also used to match the user's saved override.
    pub fn name(self) -> (r: &'static str)
        ensures
            r@ == style_name(self),
    {
        match self {
            LineStyle::Solid => "solid",
            LineStyle::Dashed => "dashed",
            LineStyle::Dotted => "dotted",
            LineStyle::DashDot => "dashdot",
        }
    }

    pub fn label(self) -> (r: &'static str)
        ensures
            r@ == style_label(self),
    {
        match self {
            LineStyle::Solid => "Solid",
            LineStyle::Dashed => "Dashed",
            LineStyle::Dotted => "Dotted",
            LineStyle::DashDot => "Dash-dot",
        }
    }
}

/// Line styles offered in the appearance editor, in display order.
pub open spec fn line_styles() -> Seq<LineStyle> {
    seq![LineStyle::Solid, LineStyle::Dashed, LineStyle::Dotted, LineStyle::DashDot]
}

/// The style whose config token is `name`, searched in display order.
pub open spec fn parse_line_style_spec(name: Seq<char>) -> Option<LineStyle> {
    if name == style_name(LineStyle::Solid) {
        Some(LineStyle::Solid)
    } else if name == style_name(LineStyle::Dashed) {
        Some(LineStyle::Dashed)
    } else if name == style_name(LineStyle::Dotted) {
        Some(LineStyle::Dotted)
    } else if name == style_name(LineStyle::DashDot) {
        Some(LineStyle::DashDot)
    } else {
        None
    }
}

pub fn line_styles_in_order() -> (r: Vec<LineStyle>)
    ensures
        r@ == line_styles(),
{
    let r = vec![LineStyle::Solid, LineStyle::Dashed, LineStyle::Dotted, LineStyle::DashDot];
    assert(r@ =~= line_styles());
    r
}

pub fn parse_line_style(name: &str) -> (r: Option<LineStyle>)
    ensures
        r == parse_line_style_spec(name@),
{
    let n = chars::chars_of(name);
    let styles = line_styles_in_order();
    let mut i: usize = 0;
    while i < styles.len()
        invariant
            i <= styles@.len(),
            styles@ == line_styles(),
            n@ == name@,
            forall|j: int| 0 <= j < i ==> style_name(#[trigger] line_styles()[j]) != name@,
        decreases styles@.len() - i,
    {
        let style = styles[i];
        let token = chars::chars_of(style.name());
        if chars::same_chars(&token, &n) {
            return Some(style);
        }
        i += 1;
    }
    None
}

/// The config channel key of a sensor: `tempN`, `fanN`, `powerN`
/// (1-based) or `custom`.
pub open spec fn channel_key_spec(key: SensorKey) -> Seq<char> {
    match key.kind {
        SensorKind::Temperature => "temp"@ + chars::decimal(key.index as nat + 1),
        SensorKind::FanRpm => "fan"@ + chars::decimal(key.index as nat + 1),
        SensorKind::Power => "power"@ + chars::decimal(key.index as nat + 1),
        SensorKind::Custom => "custom"@,
    }
}

pub fn channel_key(key: SensorKey) -> (r: String)
    requires
        key.index < usize::MAX,
    ensures
        r@ == channel_key_spec(key),
{
    let prefix = match key.kind {
        SensorKind::Temperature => "temp",
        SensorKind::FanRpm => "fan",
        SensorKind::Power => "power",
        SensorKind::Custom => {
            return "custom".to_owned();
        },
    };
    let mut v = chars::chars_of(prefix);
    let mut d = chars::decimal_digits((key.index + 1) as u64);
    v.append(&mut d);
    chars::string_from_chars(v.as_slice())
}

/// Whether a sensor's line is shown on the graph by default: everything
/// but fans.
pub fn default_shown(kind: SensorKind) -> (r: bool)
    ensures
        r == (kind != SensorKind::FanRpm),
{
    match kind {
        SensorKind::FanRpm => false,
        _ => true,
    }
}

/// A stable numeric id per sensor: kind, then chip, then index.
pub open spec fn sensor_id_spec(key: SensorKey) -> int {
    let kind_offset: int = match key.kind {
        SensorKind::Temperature => 0,
        SensorKind::FanRpm => 1,
        SensorKind::Power => 2,
        SensorKind::Custom => 3,
    };
    kind_offset * 1024 + key.chip * 64 + key.index
}

pub fn sensor_id(key: SensorKey) -> (r: usize)
    requires
        sensor_id_spec(key) <= usize::MAX,
    ensures
        r == sensor_id_spec(key),
{
    let kind_offset: usize = match key.kind {
        SensorKind::Temperature => 0,
        SensorKind::FanRpm => 1,
        SensorKind::Power => 2,
        SensorKind::Custom => 3,
    };
    kind_offset * 1024 + key.chip * 64 + key.index
}

/// The graph palette.
pub open spec fn palette(i: nat) -> u32 {
    if i == 0 {
        0x5aa0f2
    } else if i == 1 {
        0x7ec860
    } else if i == 2 {
        0xe6b85c
    } else if i == 3 {
        0xe06c75
    } else if i == 4 {
        0x4fb6c8
    } else if i == 5 {
        0xb98ae8
    } else if i == 6 {
        0xe88c5a
    } else if i == 7 {
        0xd96aa8
    } else if i == 8 {
        0x9fd84f
    } else {
        0xe0d24f
    }
}

pub const PALETTE_SIZE: usize = 10;

/// Default style of the n-th sensor in display order: the palette cycles,
/// lines are solid.
pub fn sensor_style(ordinal: usize) -> (r: (u32, LineStyle))
    ensures
        r.0 == palette((ordinal % PALETTE_SIZE) as nat),
        r.1 == LineStyle::Solid,
{
    let i = ordinal % PALETTE_SIZE;
    let color: u32 = if i == 0 {
        0x5aa0f2
    } else if i == 1 {
        0x7ec860
    } else if i == 2 {
        0xe6b85c
    } else if i == 3 {
        0xe06c75
    } else if i == 4 {
        0x4fb6c8
    } else if i == 5 {
        0xb98ae8
    } else if i == 6 {
        0xe88c5a
    } else if i == 7 {
        0xd96aa8
    } else if i == 8 {
        0x9fd84f
    } else {
        0xe0d24f
    };
    (color, LineStyle::Solid)
}

#[derive(Clone, Copy, Debug, PartialEq, Eq, Structural)]
pub enum AppView {
    Dashboard,
    Curves,
    Fans,
    Telemetry,
    /// Units and channel visibility.
    Settings,
}

impl AppView {
    pub fn id(self) -> (r: usize)
        ensures
            r == match self {
                AppView::Dashboard => 0usize,
                AppView::Curves => 1,
                AppView::Fans => 2,
                AppView::Telemetry => 3,
                AppView::Settings => 4,
            },
    {
        match self {
            AppView::Dashboard => 0,
            AppView::Curves => 1,
            AppView::Fans => 2,
            AppView::Telemetry => 3,
            AppView::Settings => 4,
        }
    }

    pub fn icon(self) -> (r: &'static str)
        ensures
            r@ == match self {
                AppView::Dashboard => "icons/wind.svg"@,
                AppView::Curves => "icons/spline.svg"@,
                AppView::Fans => "icons/fan.svg"@,
                AppView::Telemetry => "icons/thermometer.svg"@,
                AppView::Settings => "icons/settings.svg"@,
            },
    {
        match self {
            AppView::Dashboard => "icons/wind.svg",
            AppView::Curves => "icons/spline.svg",
            AppView::Fans => "icons/fan.svg",
            AppView::Telemetry => "icons/thermometer.svg",
            AppView::Settings => "icons/settings.svg",
        }
    }

    pub fn label(self) -> (r: &'static str)
        ensures
            r@ == match self {
                AppView::Dashboard => "Dashboard"@,
                AppView::Curves => "Curves"@,
                AppView::Fans => "Fans"@,
                AppView::Telemetry => "Telemetry"@,
                AppView::Settings => "Settings"@,
            },
    {
        match self {
            AppView::Dashboard => "Dashboard",
            AppView::Curves => "Curves",
            AppView::Fans => "Fans",
            AppView::Telemetry => "Telemetry",
            AppView::Settings => "Settings",
        }
    }
}

/// One editable number in a fan card's tuning section.
#[derive(Clone, Copy, Debug, PartialEq, Eq, Structural)]
pub enum SettingField {
    StepUp,
    StepDown,
    Start,
    Stop,
    Offset,
    Minimum,
}

impl SettingField {
    pub fn id(self) -> (r: usize)
        ensures
            r == match self {
                SettingField::StepUp => 0usize,
                SettingField::StepDown => 1,
                SettingField::Start => 2,
                SettingField::Stop => 3,
                SettingField::Offset => 4,
                SettingField::Minimum => 5,
            },
    {
        match self {
            SettingField::StepUp => 0,
            SettingField::StepDown => 1,
            SettingField::Start => 2,
            SettingField::Stop => 3,
            SettingField::Offset => 4,
            SettingField::Minimum => 5,
        }
    }
}

/// The zero-based channel index in a `{prefix}N` key (N >= 1).
pub open spec fn channel_index_spec(channel: Seq<char>, prefix: Seq<char>) -> Option<usize> {
    if chars::has_prefix(channel, prefix) {
        match chars::parse_usize_spec(channel.subrange(prefix.len() as int, channel.len() as int)) {
            Some(n) => if n >= 1 {
                Some((n - 1) as usize)
            } else {
                None
            },
            None => None,
        }
    } else {
        None
    }
}

pub fn channel_index(channel: &str, prefix: &str) -> (r: Option<usize>)
    ensures
        r == channel_index_spec(channel@, prefix@),
{
    let c = chars::chars_of(channel);
    let p = chars::chars_of(prefix);
    if !chars::starts_with_seq(&c, &p) {
        return None;
    }
    let mut rest: Vec<char> = Vec::new();
    let mut i = p.len();
    while i < c.len()
        invariant
            p@.len() <= i <= c@.len(),
            rest@ =~= c@.subrange(p@.len() as int, i as int),
        decreases c@.len() - i,
    {
        rest.push(c[i]);
        i += 1;
    }
    match chars::parse_usize(&rest) {
        Some(n) => if n >= 1 {
            Some(n - 1)
        } else {
            None
        },
        None => None,
    }
}

/// The key prefix of a hardware sensor kind.
pub open spec fn kind_prefix(kind: SensorKind) -> Seq<char> {
    match kind {
        SensorKind::Temperature => "temp"@,
        SensorKind::FanRpm => "fan"@,
        SensorKind::Power => "power"@,
        SensorKind::Custom => "custom"@,
    }
}

/// Reading a hardware sensor's channel key back with its prefix gives the
/// sensor's index: the dashboard finds the channels the settings saved.
pub proof fn law_channel_index_inverts_channel_key(key: SensorKey)
    requires
        key.kind != SensorKind::Custom,
        key.index < usize::MAX,
    ensures
        channel_index_spec(channel_key_spec(key), kind_prefix(key.kind)) == Some(key.index),
{
    let p = kind_prefix(key.kind);
    let d = chars::decimal(key.index as nat + 1);
    let k = channel_key_spec(key);
    assert(k == p + d);
    assert(k.subrange(0, p.len() as int) =~= p);
    assert(k.subrange(p.len() as int, k.len() as int) =~= d);
    chars::lemma_parse_decimal(key.index as nat + 1);
}

/// Every offered line style is found again by its config token.
pub proof fn law_line_style_round_trip(style: LineStyle)
    ensures
        parse_line_style_spec(style_name(style)) == Some(style),
{
    reveal_strlit("solid");
    reveal_strlit("dashed");
    reveal_strlit("dotted");
    reveal_strlit("dashdot");
    let (a, b, c, d) = ("solid"@, "dashed"@, "dotted"@, "dashdot"@);
    assert(a.len() != b.len() && a.len() != c.len() && a.len() != d.len() && b.len() != d.len()
        && c.len() != d.len());
    assert(b[1] != c[1]);
}

/// Names of the bundled icons, in table order.
pub open spec fn icon_names() -> Seq<Seq<char>> {
    seq![
        "icons/dashboard.svg"@,
        "icons/fan.svg"@,
        "icons/spline.svg"@,
        "icons/thermometer.svg"@,
        "icons/pencil.svg"@,
        "icons/pin.svg"@,
        "icons/trash.svg"@,
        "icons/eye.svg"@,
        "icons/eye-off.svg"@,
        "icons/settings.svg"@,
        "icons/search.svg"@,
        "icons/plus.svg"@,
        "icons/wind.svg"@,
    ]
}

/// The bundled asset table: icons looked up by path.
pub struct Assets;

impl Assets {
    /// The icon names, in table order.
    pub fn names() -> (r: Vec<&'static str>)
        ensures
            r@.len() == icon_names().len(),
            forall|i: int| 0 <= i < r@.len() ==> (#[trigger] r@[i])@ == icon_names()[i],
    {
        let r = vec![
            "icons/dashboard.svg",
            "icons/fan.svg",
            "icons/spline.svg",
            "icons/thermometer.svg",
            "icons/pencil.svg",
            "icons/pin.svg",
            "icons/trash.svg",
            "icons/eye.svg",
            "icons/eye-off.svg",
            "icons/settings.svg",
            "icons/search.svg",
            "icons/plus.svg",
            "icons/wind.svg",
        ];
        r
    }

    /// The table position of the icon at `path`.
    pub fn find(&self, path: &str) -> (r: Option<usize>)
        ensures
            match r {
                Some(i) => i < icon_names().len() && icon_names()[i as int] == path@,
                None => forall|i: int| 0 <= i < icon_names().len() ==> icon_names()[i] != path@,
            },
    {
        let names = Assets::names();
        let p = chars::chars_of(path);
        let mut i: usize = 0;
        while i < names.len()
            invariant
                i <= names@.len(),
                names@.len() == icon_names().len(),
                forall|k: int| 0 <= k < names@.len() ==> (#[trigger] names@[k])@ == icon_names()[k],
                p@ == path@,
                forall|k: int| 0 <= k < i ==> icon_names()[k] != path@,
            decreases names@.len() - i,
        {
            let n = chars::chars_of(names[i]);
            if chars::same_chars(&n, &p) {
                return Some(i);
            }
            i += 1;
        }
        None
    }

    /// The icon names under `path` (those starting with it), in table
    /// order.
    pub fn list(&self, path: &str) -> (r: Vec<String>)
        ensures
            r@.map_values(|s: String| s@) == icon_names().filter(
                |n: Seq<char>| chars::has_prefix(n, path@),
            ),
    {
        let names = Assets::names();
        let p = chars::chars_of(path);
        let mut out: Vec<String> = Vec::new();
        let mut i: usize = 0;
        while i < names.len()
            invariant
                i <= names@.len(),
                names@.len() == icon_names().len(),
                forall|k: int| 0 <= k < names@.len() ==> (#[trigger] names@[k])@ == icon_names()[k],
                p@ == path@,
                out@.map_values(|s: String| s@) =~= icon_names().take(i as int).filter(
                    |n: Seq<char>| chars::has_prefix(n, path@),
                ),
            decreases names@.len() - i,
        {
            let n = chars::chars_of(names[i]);
            proof {
                assert(icon_names().take(i + 1).drop_last() =~= icon_names().take(i as int));
                reveal_with_fuel(Seq::<_>::filter, 1);
            }
            if chars::starts_with_seq(&n, &p) {
                out.push(names[i].to_owned());
                assert(out@.map_values(|s: String| s@) =~= out@.drop_last().map_values(
                    |s: String| s@,
                ).push(icon_names()[i as int]));
            }
            i += 1;
        }
        assert(icon_names().take(i as int) =~= icon_names());
        out
    }
}


/// What the GUI's service connection shows, as far as keeping the
/// service's definitions in step goes.
#[derive(Clone, Copy, Debug, PartialEq, Eq, Structural)]
pub enum ServicePhase {
    /// Trying to reach the service pipe.
    Connecting,
    /// The service is not running.
    Unavailable,
    /// The service published ready state.
    Ready,
    /// Detecting, failed, or calibrating.
    Busy,
}

/// Whether the service holds the config's derived sensors and curves.
pub struct DefinitionSync {
    synced: bool,
}

impl DefinitionSync {
    pub closed spec fn is_synced(&self) -> bool {
        self.synced
    }

    pub fn new() -> (r: DefinitionSync)
        ensures
            !r.is_synced(),
    {
        DefinitionSync { synced: false }
    }

    /// The config file changed: the definitions must be sent again.
    pub fn config_reloaded(&mut self)
        ensures
            !final(self).is_synced(),
    {
        self.synced = false;
    }

    /// Takes the connection's state; returns whether to send the
    /// definitions now. They are sent once per ready service after a
    /// (re)connect or a config change; losing the connection means they
    /// are sent again.
    pub fn on_state(&mut self, phase: ServicePhase) -> (send: bool)
        ensures
            send == (phase == ServicePhase::Ready && !old(self).is_synced()),
            final(self).is_synced() == match phase {
                ServicePhase::Ready => true,
                ServicePhase::Connecting | ServicePhase::Unavailable => false,
                ServicePhase::Busy => old(self).is_synced(),
            },
    {
        match phase {
            ServicePhase::Ready => {
                let send = !self.synced;
                self.synced = true;
                send
            },
            ServicePhase::Connecting | ServicePhase::Unavailable => {
                self.synced = false;
                false
            },
            ServicePhase::Busy => false,
        }
    }
}

} // verus!
