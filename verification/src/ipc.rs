//! Protocol-side logic shared by the service and its clients: where a curve
//! reads its input from, the pipe server's instance bookkeeping, and the
//! UTF-16 strings the Win32 calls take.

use vstd::prelude::*;

use crate::chars;
use crate::hw::ChipInfo;

verus! {

/// Service → client event pipe.
pub const EVENTS_PIPE: &'static str = "\\\\.\\pipe\\zugluft.events";

/// Client → service request pipe.
pub const CONTROL_PIPE: &'static str = "\\\\.\\pipe\\zugluft.control";

/// How a derived sensor combines its inputs.
#[derive(Clone, Copy, Debug, PartialEq, Eq, Structural)]
pub enum CustomKind {
    /// Weighted arithmetic mean.
    Average,
    Min,
    Max,
}

/// Where a curve reads its input temperature from.
pub enum CurveSource {
    /// Hardware temperature channel of a chip (1-based, like `temp1`).
    Temp { chip: String, temp: usize },
    /// A user-defined derived sensor, by id.
    Custom { custom: String },
}

/// Where a source's reading sits in published state.
#[derive(Clone, Copy, Debug, PartialEq, Eq, Structural)]
pub enum SourceSlot {
    /// `snapshots[chip].temps[temp]`.
    Temp { chip: usize, temp: usize },
    /// `customs[index]`.
    Custom { index: usize },
}

/// The first position whose name is `name`.
pub open spec fn first_named(names: Seq<Seq<char>>, name: Seq<char>) -> Option<usize> {
    if exists|i: int| 0 <= i < names.len() && names[i] == name {
        Some(
            (choose|i: int|
                0 <= i < names.len() && names[i] == name && forall|j: int|
                    0 <= j < i ==> names[j] != name) as usize,
        )
    } else {
        None
    }
}

pub open spec fn chip_names(chips: Seq<ChipInfo>) -> Seq<Seq<char>> {
    chips.map_values(|c: ChipInfo| c.name@)
}

pub open spec fn string_views(v: Seq<String>) -> Seq<Seq<char>> {
    v.map_values(|s: String| s@)
}

/// Where a hardware channel (`chip` name, 1-based `temp`) is read from.
pub open spec fn channel_slot(chips: Seq<ChipInfo>, chip: Seq<char>, temp: usize) -> Option<SourceSlot> {
    match first_named(chip_names(chips), chip) {
        Some(ci) => if temp >= 1 {
            Some(SourceSlot::Temp { chip: ci, temp: (temp - 1) as usize })
        } else {
            None
        },
        None => None,
    }
}

pub open spec fn source_slot(source: CurveSource, chips: Seq<ChipInfo>, custom_ids: Seq<String>) -> Option<
    SourceSlot,
> {
    match source {
        CurveSource::Temp { chip, temp } => channel_slot(chips, chip@, temp),
        CurveSource::Custom { custom } => match first_named(string_views(custom_ids), custom@) {
            Some(i) => Some(SourceSlot::Custom { index: i }),
            None => None,
        },
    }
}

fn find_named(names: &Vec<Vec<char>>, name: &Vec<char>) -> (r: Option<usize>)
    ensures
        r == first_named(names@.map_values(|v: Vec<char>| v@), name@),
{
    let ghost ns = names@.map_values(|v: Vec<char>| v@);
    let mut i: usize = 0;
    while i < names.len()
        invariant
            i <= names@.len(),
            ns == names@.map_values(|v: Vec<char>| v@),
            forall|j: int| 0 <= j < i ==> ns[j] != name@,
        decreases names@.len() - i,
    {
        if chars::same_chars(&names[i], name) {
            proof {
                let w = i as int;
                assert(ns[w] == name@);
                let c = choose|c: int|
                    0 <= c < ns.len() && ns[c] == name@ && forall|j: int| 0 <= j < c ==> ns[j] != name@;
                assert(c == w) by {
                    if c > w {
                        assert(ns[w] != name@);
                    }
                }
            }
            return Some(i);
        }
        i += 1;
    }
    None
}

/// Where the reading of hardware channel `temp` (1-based) of the chip
/// named `chip` sits: the first chip with that name, channel `temp - 1`.
pub fn channel_location(chips: &[ChipInfo], chip: &str, temp: usize) -> (r: Option<SourceSlot>)
    ensures
        r == channel_slot(chips@, chip@, temp),
{
    let mut names: Vec<Vec<char>> = Vec::new();
    let mut i: usize = 0;
    while i < chips.len()
        invariant
            i <= chips@.len(),
            names@.len() == i,
            forall|k: int| 0 <= k < i ==> (#[trigger] names@[k])@ == chips@[k].name@,
        decreases chips@.len() - i,
    {
        names.push(chars::chars_of(chips[i].name.as_str()));
        i += 1;
    }
    assert(names@.map_values(|v: Vec<char>| v@) =~= chip_names(chips@));
    let wanted = chars::chars_of(chip);
    match find_named(&names, &wanted) {
        Some(ci) => if temp >= 1 {
            Some(SourceSlot::Temp { chip: ci, temp: temp - 1 })
        } else {
            None
        },
        None => None,
    }
}

impl CurveSource {
    /// Where the source's current reading sits in published state, given
    /// the detected chips and the ids of the published derived sensors.
    /// Both the service and the GUI resolve through this.
    pub fn locate(&self, chips: &[ChipInfo], custom_ids: &[String]) -> (r: Option<SourceSlot>)
        ensures
            r == source_slot(*self, chips@, custom_ids@),
    {
        match self {
            CurveSource::Temp { chip, temp } => channel_location(chips, chip.as_str(), *temp),
            CurveSource::Custom { custom } => {
                let mut ids: Vec<Vec<char>> = Vec::new();
                let mut i: usize = 0;
                while i < custom_ids.len()
                    invariant
                        i <= custom_ids@.len(),
                        ids@.len() == i,
                        forall|k: int| 0 <= k < i ==> (#[trigger] ids@[k])@ == custom_ids@[k]@,
                    decreases custom_ids@.len() - i,
                {
                    ids.push(chars::chars_of(custom_ids[i].as_str()));
                    i += 1;
                }
                assert(ids@.map_values(|v: Vec<char>| v@) =~= string_views(custom_ids@));
                let wanted = chars::chars_of(custom.as_str());
                match find_named(&ids, &wanted) {
                    Some(index) => Some(SourceSlot::Custom { index }),
                    None => None,
                }
            },
        }
    }
}

/// Channel `ti` of chip `ci` can be read: the chip is detected and its
/// snapshot has a reading there.
pub open spec fn readable_at(chip_count: int, readable: Seq<Seq<bool>>, ci: int, ti: int) -> bool {
    0 <= ci < chip_count && ci < readable.len() && 0 <= ti < readable[ci].len() && readable[ci][ti]
}

/// The first readable channel in chip order, then channel order.
pub open spec fn first_readable(chip_count: int, readable: Seq<Seq<bool>>) -> Option<(int, int)> {
    if exists|ci: int, ti: int| readable_at(chip_count, readable, ci, ti) {
        Some(
            choose|ci: int, ti: int|
                readable_at(chip_count, readable, ci, ti) && forall|c: int, t: int|
                    readable_at(chip_count, readable, c, t) ==> ci < c || (ci == c && ti <= t),
        )
    } else {
        None
    }
}

pub open spec fn bool_rows(v: Seq<Vec<bool>>) -> Seq<Seq<bool>> {
    v.map_values(|row: Vec<bool>| row@)
}

/// What a new curve reads by default: the first hardware channel with a
/// reading (as a 1-based `temp`), else the first derived sensor, else
/// nothing. `readable[ci][ti]` tells whether chip `ci`'s channel `ti`
/// currently reads.
pub fn default_curve_source(chips: &[ChipInfo], readable: &Vec<Vec<bool>>, custom_ids: &[String]) -> (r:
    Option<CurveSource>)
    ensures
        match first_readable(chips@.len() as int, bool_rows(readable@)) {
            Some((ci, ti)) => r matches Some(CurveSource::Temp { chip, temp }) && chip@ == chips@[ci].name@
                && temp == ti + 1,
            None => if custom_ids@.len() > 0 {
                r matches Some(CurveSource::Custom { custom }) && custom@ == custom_ids@[0]@
            } else {
                r is None
            },
        },
{
    let ghost rows = bool_rows(readable@);
    let ghost n = chips@.len() as int;
    let mut ci: usize = 0;
    while ci < chips.len() && ci < readable.len()
        invariant
            rows == bool_rows(readable@),
            n == chips@.len(),
            ci <= chips@.len(),
            forall|c: int, t: int| readable_at(n, rows, c, t) ==> c >= ci,
        decreases chips@.len() - ci,
    {
        let row = &readable[ci];
        let mut ti: usize = 0;
        while ti < row.len()
            invariant
                rows == bool_rows(readable@),
                n == chips@.len(),
                ci < chips@.len(),
                ci < readable@.len(),
                *row == readable@[ci as int],
                ti <= row@.len(),
                forall|c: int, t: int| readable_at(n, rows, c, t) ==> c > ci || (c == ci && t >= ti),
            decreases row@.len() - ti,
        {
            if row[ti] {
                proof {
                    let (a, b) = (ci as int, ti as int);
                    assert(rows[a] == readable@[a]@);
                    assert(readable_at(n, rows, a, b));
                    let (x, y) = choose|x: int, y: int|
                        readable_at(n, rows, x, y) && forall|c: int, t: int|
                            readable_at(n, rows, c, t) ==> x < c || (x == c && y <= t);
                    assert(readable_at(n, rows, x, y));
                    assert(x == a && y == b);
                }
                return Some(CurveSource::Temp { chip: chips[ci].name.clone(), temp: ti + 1 });
            }
            ti += 1;
        }
        proof {
            assert forall|c: int, t: int| readable_at(n, rows, c, t) implies c >= ci + 1 by {
                if c == ci {
                    assert(rows[c] == readable@[c]@);
                }
            }
        }
        ci += 1;
    }
    proof {
        assert forall|c: int, t: int| !readable_at(n, rows, c, t) by {
            if readable_at(n, rows, c, t) {
                assert(c >= ci);
            }
        }
    }
    if custom_ids.len() > 0 {
        Some(CurveSource::Custom { custom: custom_ids[0].clone() })
    } else {
        None
    }
}

/// A message on a pipe: its JSON bytes, then a line feed.
pub fn frame_line(payload: Vec<u8>) -> (r: Vec<u8>)
    ensures
        r@ == payload@.push(10u8),
{
    let mut line = payload;
    line.push(10u8);
    line
}

/// How long a temperature drop must last before a curve follows it down,
/// when a curve's hysteresis leaves it out.
pub fn default_curve_hysteresis_delay_ms() -> (r: u64)
    ensures
        r == 2000,
{
    2_000
}

/// Whether a curve's hysteresis only holds drops, when the curve leaves it
/// out.
pub fn default_curve_hysteresis_only_downward() -> (r: bool)
    ensures
        r,
{
    true
}

pub const PIPE_ACCESS_DUPLEX: u32 = 0x0000_0003;

pub const FILE_FLAG_FIRST_PIPE_INSTANCE: u32 = 0x0008_0000;

/// Accepts client connections on one pipe name, one instance per client.
/// The first instance is created exclusively, so the service fails rather
/// than share its pipe name with another process.
pub struct PipeServer {
    pipe_name: &'static str,
    first_instance: bool,
}

impl PipeServer {
    pub closed spec fn name(&self) -> Seq<char> {
        self.pipe_name@
    }

    /// Whether no instance has been created yet.
    pub closed spec fn is_first(&self) -> bool {
        self.first_instance
    }

    pub fn new(pipe_name: &'static str) -> (r: PipeServer)
        ensures
            r.name() == pipe_name@,
            r.is_first(),
    {
        PipeServer { pipe_name, first_instance: true }
    }

    pub fn pipe_name(&self) -> (r: &'static str)
        ensures
            r@ == self.name(),
    {
        self.pipe_name
    }

    /// The open mode for the next pipe instance: duplex, and exclusive for
    /// the first one.
    pub fn open_mode(&self) -> (r: u32)
        ensures
            r == if self.is_first() {
                PIPE_ACCESS_DUPLEX | FILE_FLAG_FIRST_PIPE_INSTANCE
            } else {
                PIPE_ACCESS_DUPLEX
            },
    {
        let mut mode = PIPE_ACCESS_DUPLEX;
        if self.first_instance {
            mode = mode | FILE_FLAG_FIRST_PIPE_INSTANCE;
        }
        mode
    }

    /// Records that an instance was created.
    pub fn instance_created(&mut self)
        ensures
            final(self).name() == old(self).name(),
            !final(self).is_first(),
    {
        self.first_instance = false;
    }
}

/// UTF-16 code units of one character.
pub open spec fn utf16_of(c: char) -> Seq<u16> {
    let u = c as u32;
    if u < 0x10000 {
        seq![u as u16]
    } else {
        let v = (u - 0x10000) as int;
        seq![(0xD800 + v / 1024) as u16, (0xDC00 + v % 1024) as u16]
    }
}

/// `str::encode_utf16`.
pub open spec fn utf16(s: Seq<char>) -> Seq<u16>
    decreases s.len(),
{
    if s.len() == 0 {
        Seq::empty()
    } else {
        utf16(s.drop_last()) + utf16_of(s.last())
    }
}

fn push_utf16(out: &mut Vec<u16>, c: char)
    ensures
        final(out)@ == old(out)@ + utf16_of(c),
{
    let u = c as u32;
    proof {
        vstd::utf8::char_is_scalar(c);
    }
    if u < 0x10000 {
        out.push(u as u16);
        assert(out@ =~= old(out)@ + utf16_of(c));
    } else {
        let v = u - 0x10000;
        assert(v < 0x100000);
        out.push((0xD800 + v / 1024) as u16);
        out.push((0xDC00 + v % 1024) as u16);
        assert(out@ =~= old(out)@ + utf16_of(c));
    }
}

/// The text as UTF-16 with a terminating zero, as Win32 calls take it.
pub fn wide_null(text: &str) -> (r: Vec<u16>)
    ensures
        r@ == utf16(text@).push(0u16),
{
    let v = chars::chars_of(text);
    let mut out: Vec<u16> = Vec::new();
    let mut i: usize = 0;
    while i < v.len()
        invariant
            i <= v@.len(),
            v@ == text@,
            out@ =~= utf16(v@.take(i as int)),
        decreases v@.len() - i,
    {
        assert(v@.take(i + 1).drop_last() =~= v@.take(i as int));
        push_utf16(&mut out, v[i]);
        i += 1;
    }
    assert(v@.take(i as int) =~= v@);
    out.push(0);
    out
}

/// Copies the text as zero-terminated UTF-16 into a fixed buffer, as far
/// as it fits; the rest of the buffer is left as it was.
pub fn fill_wide<const N: usize>(target: &mut [u16; N], text: &str)
    ensures
        ({
            let w = utf16(text@).push(0u16);
            let n = if w.len() < N as int {
                w.len() as int
            } else {
                N as int
            };
            &&& final(target)@.len() == N
            &&& forall|i: int| 0 <= i < n ==> final(target)@[i] == w[i]
            &&& forall|i: int| n <= i < N ==> final(target)@[i] == old(target)@[i]
        }),
{
    let w = wide_null(text);
    let mut i: usize = 0;
    proof {
        vstd::array::array_len_matches_n(target);
    }
    while i < N && i < w.len()
        invariant
            i <= N,
            i <= w@.len(),
            w@ == utf16(text@).push(0u16),
            target@.len() == N,
            forall|k: int| 0 <= k < i ==> target@[k] == w@[k],
            forall|k: int| i <= k < N ==> target@[k] == old(target)@[k],
        decreases N - i,
    {
        target[i] = w[i];
        i += 1;
    }
}

} // verus!
