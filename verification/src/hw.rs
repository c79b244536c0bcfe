//! Hardware-layer policy: which LibreHardwareMonitor sensors count as live
//! readings, how a hardware node becomes a [`ChipInfo`], the stable hash of
//! hardware identifiers, and the index checks in front of every fan write.

use std::path::PathBuf;

use vstd::prelude::*;

use crate::chars;

verus! {

/// std's `PathBuf`, carried opaquely in the errors that name a file; the
/// library never looks inside one.
#[verifier::external_type_specification]
#[verifier::external_body]
pub struct ExPathBuf(PathBuf);

pub const SENSOR_POWER: i32 = 2;
pub const SENSOR_TEMPERATURE: i32 = 4;
pub const SENSOR_FAN: i32 = 7;
pub const SENSOR_CONTROL: i32 = 9;

pub const HARDWARE_CPU: i32 = 2;
pub const HARDWARE_GPU_NVIDIA: i32 = 4;
pub const HARDWARE_GPU_AMD: i32 = 5;
pub const HARDWARE_GPU_INTEL: i32 = 6;
pub const HARDWARE_STORAGE: i32 = 7;
pub const HARDWARE_BATTERY: i32 = 11;

pub const SLOT_MOTHERBOARD: u8 = 0;
pub const SLOT_CPU: u8 = 2;
pub const SLOT_GPU: u8 = 3;
pub const SLOT_STORAGE: u8 = 4;
pub const SLOT_OTHER: u8 = 5;

/// Errors of the hardware layer.
pub enum HwError {
    /// The bridge DLL was found in none of the searched places.
    BridgeNotFound { searched: Vec<PathBuf> },
    /// Loading the bridge failed with a Win32 error code.
    BridgeLoad { path: PathBuf, code: u32 },
    /// The bridge lacks an export.
    MissingExport { path: PathBuf, symbol: &'static str },
    /// LibreHardwareMonitor reported an error.
    Lhm(String),
    /// Hardware access needs elevation.
    AccessDenied,
    /// No usable sensor or control was found.
    NoSupportedHardware,
    /// The fan index is not one of the chip's controllable fans.
    InvalidFan { chip: usize, fan: usize, controls: usize },
    /// The chip index is not one of the detected chips.
    InvalidChip { chip: usize, chips: usize },
    /// The backend has no raw register dumps.
    NoRawRegisters { chip: usize },
    /// A hardware mutex could not be taken in time.
    MutexTimeout { what: &'static str },
}

/// Static description of a detected hardware device.
pub struct ChipInfo {
    pub name: String,
    /// Stable 16-bit hash of the hardware identifier.
    pub address: u16,
    /// Hardware type value, truncated to a byte.
    pub version: u8,
    /// Pseudo slot: 0 = motherboard/controller, 2 = CPU, 3 = GPU,
    /// 4 = storage, 5 = other sensor hardware.
    pub slot: u8,
    pub fan_count: usize,
    /// How many of the fans have a software control channel; controls are
    /// the first `control_count` fans.
    pub control_count: usize,
    pub temp_count: usize,
    pub temp_labels: Vec<String>,
    pub power_labels: Vec<String>,
}

impl ChipInfo {
    pub fn copy(&self) -> (r: ChipInfo)
        ensures
            r.name@ == self.name@,
            r.address == self.address,
            r.version == self.version,
            r.slot == self.slot,
            r.fan_count == self.fan_count,
            r.control_count == self.control_count,
            r.temp_count == self.temp_count,
            r.temp_labels@ == self.temp_labels@,
            r.power_labels@ == self.power_labels@,
    {
        ChipInfo {
            name: self.name.clone(),
            address: self.address,
            version: self.version,
            slot: self.slot,
            fan_count: self.fan_count,
            control_count: self.control_count,
            temp_count: self.temp_count,
            temp_labels: self.temp_labels.clone(),
            power_labels: self.power_labels.clone(),
        }
    }
}

/// The slot a hardware type is presented in.
pub open spec fn slot_spec(hardware_type: i32) -> u8 {
    if hardware_type == HARDWARE_CPU {
        SLOT_CPU
    } else if hardware_type == HARDWARE_GPU_NVIDIA || hardware_type == HARDWARE_GPU_AMD
        || hardware_type == HARDWARE_GPU_INTEL {
        SLOT_GPU
    } else if hardware_type == HARDWARE_STORAGE {
        SLOT_STORAGE
    } else if hardware_type == HARDWARE_BATTERY {
        SLOT_OTHER
    } else {
        SLOT_MOTHERBOARD
    }
}

pub fn slot_for_hardware(hardware_type: i32) -> (slot: u8)
    ensures
        slot == slot_spec(hardware_type),
{
    if hardware_type == HARDWARE_CPU {
        SLOT_CPU
    } else if hardware_type == HARDWARE_GPU_NVIDIA || hardware_type == HARDWARE_GPU_AMD
        || hardware_type == HARDWARE_GPU_INTEL {
        SLOT_GPU
    } else if hardware_type == HARDWARE_STORAGE {
        SLOT_STORAGE
    } else if hardware_type == HARDWARE_BATTERY {
        SLOT_OTHER
    } else {
        SLOT_MOTHERBOARD
    }
}

/// Whether a temperature sensor name is a live reading. Names are compared
/// trimmed and ASCII-lower-cased; an empty name counts as live. Threshold
/// constants ("... Limit", "Warning/Critical Temperature") and metadata
/// ("... Resolution") are not.
pub open spec fn live_temperature_name(name: Seq<char>) -> bool {
    let n = chars::ascii_lower_seq(chars::trim(name));
    n.len() == 0 || !(chars::contains(n, "limit"@) || chars::contains(n, "resolution"@) || (chars::contains(
        n,
        "temperature"@,
    ) && (chars::contains(n, "warning"@) || chars::contains(n, "critical"@))))
}

pub fn is_live_temperature_name(name: &str) -> (b: bool)
    ensures
        b == live_temperature_name(name@),
{
    let raw = chars::chars_of(name);
    let t = chars::trimmed(&raw);
    let n = chars::ascii_lowercase(&t);
    if n.len() == 0 {
        return true;
    }
    let limit = chars::chars_of("limit");
    let resolution = chars::chars_of("resolution");
    let temperature = chars::chars_of("temperature");
    let warning = chars::chars_of("warning");
    let critical = chars::chars_of("critical");
    !(chars::contains_seq(&n, &limit) || chars::contains_seq(&n, &resolution) || (chars::contains_seq(
        &n,
        &temperature,
    ) && (chars::contains_seq(&n, &warning) || chars::contains_seq(&n, &critical))))
}

/// FNV-1a over bytes, 32-bit.
pub open spec fn fnv1a(bytes: Seq<u8>) -> u32
    decreases bytes.len(),
{
    if bytes.len() == 0 {
        0x811c_9dc5u32
    } else {
        vstd::wrapping::u32_specs::wrapping_mul(
            fnv1a(bytes.drop_last()) ^ (bytes.last() as u32),
            0x0100_0193u32,
        )
    }
}

/// The 16-bit identifier hash: FNV-1a of the UTF-8 bytes, high half folded
/// onto the low half.
pub open spec fn stable_u16_spec(value: Seq<char>) -> u16 {
    let h = fnv1a(vstd::utf8::encode_utf8(value));
    ((h >> 16u32) ^ h) as u16
}

pub fn stable_u16(value: &str) -> (r: u16)
    ensures
        r == stable_u16_spec(value@),
{
    let bytes = value.as_bytes();
    let mut hash: u32 = 0x811c_9dc5;
    let mut i: usize = 0;
    while i < bytes.len()
        invariant
            i <= bytes@.len(),
            bytes@ == vstd::utf8::encode_utf8(value@),
            hash == fnv1a(bytes@.take(i as int)),
        decreases bytes@.len() - i,
    {
        assert(bytes@.take(i + 1).drop_last() =~= bytes@.take(i as int));
        hash = hash ^ (bytes[i] as u32);
        hash = hash.wrapping_mul(0x0100_0193);
        i += 1;
    }
    assert(bytes@.take(i as int) =~= bytes@);
    ((hash >> 16) ^ hash) as u16
}

/// Where a sensor of a hardware node goes.
pub enum SensorRole {
    Temperature,
    Power,
    FanRpm,
    Control,
}

pub open spec fn sensor_role_spec(sensor_type: i32, live_temperature: bool, has_control: bool) -> Option<
    SensorRole,
> {
    if sensor_type == SENSOR_TEMPERATURE {
        if live_temperature {
            Some(SensorRole::Temperature)
        } else {
            None
        }
    } else if sensor_type == SENSOR_POWER {
        Some(SensorRole::Power)
    } else if sensor_type == SENSOR_FAN {
        Some(SensorRole::FanRpm)
    } else if sensor_type == SENSOR_CONTROL && has_control {
        Some(SensorRole::Control)
    } else {
        None
    }
}

/// The role a sensor takes, from its type, whether its name is a live
/// temperature, and whether it exposes a control; `None` drops it.
pub fn sensor_role(sensor_type: i32, live_temperature: bool, has_control: bool) -> (r: Option<
    SensorRole,
>)
    ensures
        r == sensor_role_spec(sensor_type, live_temperature, has_control),
{
    if sensor_type == SENSOR_TEMPERATURE {
        if live_temperature {
            Some(SensorRole::Temperature)
        } else {
            None
        }
    } else if sensor_type == SENSOR_POWER {
        Some(SensorRole::Power)
    } else if sensor_type == SENSOR_FAN {
        Some(SensorRole::FanRpm)
    } else if sensor_type == SENSOR_CONTROL && has_control {
        Some(SensorRole::Control)
    } else {
        None
    }
}

/// Builds the chip description of a hardware node from what was read off
/// it. Returns `None` when the node has no relevant sensor at all.
pub fn chip_info_for(
    name: String,
    identifier: &str,
    hardware_type: i32,
    temp_labels: Vec<String>,
    power_labels: Vec<String>,
    rpm_count: usize,
    control_count: usize,
) -> (r: Option<ChipInfo>)
    ensures
        temp_labels.len() == 0 && power_labels.len() == 0 && rpm_count == 0 && control_count == 0
            <==> r is None,
        r matches Some(info) ==> {
            &&& info.name@ == name@
            &&& info.address == stable_u16_spec(identifier@)
            &&& info.version == hardware_type as u8
            &&& info.slot == slot_spec(hardware_type)
            &&& info.fan_count == if rpm_count >= control_count {
                rpm_count
            } else {
                control_count
            }
            &&& info.control_count == control_count
            &&& info.temp_count == temp_labels.len()
            &&& info.temp_labels@ == temp_labels@
            &&& info.power_labels@ == power_labels@
        },
{
    if temp_labels.len() == 0 && power_labels.len() == 0 && rpm_count == 0 && control_count == 0 {
        return None;
    }
    let fan_count = if rpm_count >= control_count {
        rpm_count
    } else {
        control_count
    };
    let temp_count = temp_labels.len();
    Some(
        ChipInfo {
            name,
            address: stable_u16(identifier),
            version: hardware_type as u8,
            slot: slot_for_hardware(hardware_type),
            fan_count,
            control_count,
            temp_count,
            temp_labels,
            power_labels,
        },
    )
}

/// The note recorded when a node reports different numbers of RPM and
/// control sensors (they are then matched by order).
pub open spec fn count_note_spec(name: Seq<char>, rpm_count: nat, control_count: nat) -> Seq<char> {
    name + ": LHM reported "@ + chars::decimal(rpm_count) + " RPM fan sensor(s) and "@ + chars::decimal(
        control_count,
    ) + " control sensor(s); controls are matched by order"@
}

pub fn sensor_count_note(name: &str, rpm_count: usize, control_count: usize) -> (r: Option<String>)
    ensures
        rpm_count != 0 && control_count != 0 && rpm_count != control_count <==> r is Some,
        r matches Some(note) ==> note@ == count_note_spec(name@, rpm_count as nat, control_count as nat),
{
    if rpm_count == 0 || control_count == 0 || rpm_count == control_count {
        return None;
    }
    let mut v = chars::chars_of(name);
    let mut a = chars::chars_of(": LHM reported ");
    v.append(&mut a);
    let mut d = chars::decimal_digits(rpm_count as u64);
    v.append(&mut d);
    let mut b = chars::chars_of(" RPM fan sensor(s) and ");
    v.append(&mut b);
    let mut e = chars::decimal_digits(control_count as u64);
    v.append(&mut e);
    let mut c = chars::chars_of(" control sensor(s); controls are matched by order");
    v.append(&mut c);
    Some(chars::string_from_chars(v.as_slice()))
}

/// Whether `(chip, fan)` names a controllable fan; the error says which
/// index is out of range.
pub fn check_fan(chips: &[ChipInfo], chip: usize, fan: usize) -> (r: Result<(), HwError>)
    ensures
        chip >= chips@.len() ==> r == Err::<(), HwError>(
            HwError::InvalidChip { chip, chips: chips@.len() as usize },
        ),
        chip < chips@.len() && fan >= chips@[chip as int].control_count ==> r == Err::<
            (),
            HwError,
        >(HwError::InvalidFan { chip, fan, controls: chips@[chip as int].control_count }),
        r is Ok <==> chip < chips@.len() && fan < chips@[chip as int].control_count,
{
    if chip >= chips.len() {
        return Err(HwError::InvalidChip { chip, chips: chips.len() });
    }
    let controls = chips[chip].control_count;
    if fan >= controls {
        return Err(HwError::InvalidFan { chip, fan, controls });
    }
    Ok(())
}

/// Access errors are reported as such; every other message is passed on.
pub open spec fn access_denied_message(message: Seq<char>) -> bool {
    chars::contains(message, "Access is denied"@) || chars::contains(message, "UnauthorizedAccess"@)
}

pub fn classify_lhm_error(error: String) -> (r: HwError)
    ensures
        access_denied_message(error@) ==> r == HwError::AccessDenied,
        !access_denied_message(error@) ==> r == HwError::Lhm(error),
{
    let text = chars::chars_of(error.as_str());
    let denied = chars::chars_of("Access is denied");
    let unauthorized = chars::chars_of("UnauthorizedAccess");
    if chars::contains_seq(&text, &denied) || chars::contains_seq(&text, &unauthorized) {
        HwError::AccessDenied
    } else {
        HwError::Lhm(error)
    }
}

/// The items joined with `sep` between them.
pub open spec fn joined(items: Seq<Seq<char>>, sep: Seq<char>) -> Seq<char>
    decreases items.len(),
{
    if items.len() == 0 {
        Seq::empty()
    } else if items.len() == 1 {
        items[0]
    } else {
        joined(items.drop_last(), sep) + sep + items.last()
    }
}

/// The message tail naming the places searched for the bridge: nothing
/// when none was searched, else ` (searched: a; b)`.
pub open spec fn searched_suffix_spec(paths: Seq<Seq<char>>) -> Seq<char> {
    if paths.len() == 0 {
        Seq::empty()
    } else {
        " (searched: "@ + joined(paths, "; "@) + ")"@
    }
}

/// The searched places for the "bridge not found" message, each as it is
/// displayed.
pub fn searched_suffix(paths: &[String]) -> (r: String)
    ensures
        r@ == searched_suffix_spec(paths@.map_values(|p: String| p@)),
{
    let ghost ps = paths@.map_values(|p: String| p@);
    if paths.len() == 0 {
        return String::new();
    }
    let mut v = chars::chars_of(" (searched: ");
    let ghost head = v@;
    let mut body: Vec<char> = Vec::new();
    let mut i: usize = 0;
    while i < paths.len()
        invariant
            i <= paths@.len(),
            ps == paths@.map_values(|p: String| p@),
            body@ == joined(ps.take(i as int), "; "@),
        decreases paths@.len() - i,
    {
        if i > 0 {
            let mut sep = chars::chars_of("; ");
            body.append(&mut sep);
        }
        let mut item = chars::chars_of(paths[i].as_str());
        body.append(&mut item);
        proof {
            let t = ps.take(i + 1);
            assert(t.drop_last() =~= ps.take(i as int));
            assert(t.last() == paths@[i as int]@);
            if i == 0 {
                assert(ps.take(0) =~= Seq::<Seq<char>>::empty());
            }
        }
        i += 1;
    }
    assert(ps.take(i as int) =~= ps);
    v.append(&mut body);
    let mut close = chars::chars_of(")");
    v.append(&mut close);
    chars::string_from_chars(v.as_slice())
}

/// The register dump is not available from this backend.
pub fn ec_dump(chip: usize) -> (r: Result<Vec<Option<u8>>, HwError>)
    ensures
        r == Err::<Vec<Option<u8>>, HwError>(HwError::NoRawRegisters { chip }),
{
    Err(HwError::NoRawRegisters { chip })
}

} // verus!
