//! The command-line tool's decisions: which command the arguments ask for,
//! the `--chip` option, which fans `auto` releases, the fan-baseline file's
//! line format, and following a calibration run from the service's events.

use vstd::prelude::*;

use crate::chars;
use crate::hw::ChipInfo;
use crate::text_edit;

verus! {

/// A command of the tool.
#[derive(Clone, Copy, Debug, PartialEq, Eq, Structural)]
pub enum CliCommand {
    Status,
    Calibrate,
    Detect,
    Watch { interval_ms: u64 },
    SetFan,
    Auto,
    Report,
    /// Unknown or missing command: print the usage.
    Usage,
}

pub open spec fn arg_views(args: Seq<String>) -> Seq<Seq<char>> {
    args.map_values(|a: String| a@)
}

pub open spec fn command_spec(args: Seq<Seq<char>>) -> CliCommand {
    if args.len() == 0 {
        CliCommand::Usage
    } else if args[0] == "status"@ {
        CliCommand::Status
    } else if args[0] == "calibrate"@ {
        CliCommand::Calibrate
    } else if args[0] == "detect"@ {
        CliCommand::Detect
    } else if args[0] == "watch"@ {
        CliCommand::Watch {
            interval_ms: if args.len() > 1 {
                chars::parse_u64_spec(args[1]).unwrap_or(1000)
            } else {
                1000
            },
        }
    } else if args[0] == "set"@ {
        CliCommand::SetFan
    } else if args[0] == "auto"@ {
        CliCommand::Auto
    } else if args[0] == "report"@ {
        CliCommand::Report
    } else {
        CliCommand::Usage
    }
}

fn is_word(v: &Vec<char>, w: &str) -> (b: bool)
    ensures
        b == (v@ == w@),
{
    let c = chars::chars_of(w);
    chars::same_chars(v, &c)
}

/// The command the arguments (without the program name) ask for; `watch`
/// takes an optional interval in milliseconds, 1000 by default.
pub fn command(args: &[String]) -> (r: CliCommand)
    ensures
        r == command_spec(arg_views(args@)),
{
    if args.len() == 0 {
        return CliCommand::Usage;
    }
    let first = chars::chars_of(args[0].as_str());
    if is_word(&first, "status") {
        CliCommand::Status
    } else if is_word(&first, "calibrate") {
        CliCommand::Calibrate
    } else if is_word(&first, "detect") {
        CliCommand::Detect
    } else if is_word(&first, "watch") {
        let interval_ms = if args.len() > 1 {
            match chars::parse_u64(&chars::chars_of(args[1].as_str())) {
                Some(v) => v,
                None => 1000,
            }
        } else {
            1000
        };
        CliCommand::Watch { interval_ms }
    } else if is_word(&first, "set") {
        CliCommand::SetFan
    } else if is_word(&first, "auto") {
        CliCommand::Auto
    } else if is_word(&first, "report") {
        CliCommand::Report
    } else {
        CliCommand::Usage
    }
}

/// The `--chip <n>` option: the value after the first `--chip`, 0 when it
/// is missing or not a number.
pub open spec fn parse_chip_spec(args: Seq<Seq<char>>) -> usize {
    if exists|i: int| 0 <= i < args.len() - 1 && args[i] == "--chip"@ {
        let i = choose|i: int|
            0 <= i < args.len() - 1 && args[i] == "--chip"@ && forall|j: int|
                0 <= j < i ==> args[j] != "--chip"@;
        chars::parse_usize_spec(args[i + 1]).unwrap_or(0)
    } else {
        0
    }
}

pub fn parse_chip(args: &[String]) -> (r: usize)
    ensures
        r == parse_chip_spec(arg_views(args@)),
{
    let ghost a = arg_views(args@);
    if args.len() < 2 {
        return 0;
    }
    let mut i: usize = 0;
    while i < args.len() - 1
        invariant
            a == arg_views(args@),
            args@.len() >= 2,
            i + 1 <= args@.len(),
            forall|j: int| 0 <= j < i ==> a[j] != "--chip"@,
        decreases args@.len() - i,
    {
        let w = chars::chars_of(args[i].as_str());
        if is_word(&w, "--chip") {
            proof {
                let k = i as int;
                assert(a[k] == "--chip"@);
                let c = choose|c: int|
                    0 <= c < a.len() - 1 && a[c] == "--chip"@ && forall|j: int|
                        0 <= j < c ==> a[j] != "--chip"@;
                assert(c == k) by {
                    if c > k {
                        assert(a[k] != "--chip"@);
                    }
                }
            }
            let v = chars::chars_of(args[i + 1].as_str());
            return match chars::parse_usize(&v) {
                Some(n) => n,
                None => 0,
            };
        }
        i += 1;
    }
    0
}

/// The `--chip` suffix to print for a chip: nothing for chip 0.
pub fn chip_suffix(chip: usize) -> (r: String)
    ensures
        r@ == if chip == 0 {
            Seq::<char>::empty()
        } else {
            " --chip "@ + chars::decimal(chip as nat)
        },
{
    if chip == 0 {
        return String::new();
    }
    let mut v = chars::chars_of(" --chip ");
    let mut d = chars::decimal_digits(chip as u64);
    v.append(&mut d);
    chars::string_from_chars(v.as_slice())
}

/// A temperature channel's short name: the chip's label, or `tN`.
pub fn temp_key(labels: &[String], index: usize) -> (r: String)
    ensures
        r@ == if index < labels@.len() {
            labels@[index as int]@
        } else {
            "t"@ + chars::decimal(index as nat)
        },
{
    if index < labels.len() {
        labels[index].clone()
    } else {
        let mut v = chars::chars_of("t");
        let mut d = chars::decimal_digits(index as u64);
        v.append(&mut d);
        chars::string_from_chars(v.as_slice())
    }
}

/// The fans `auto <fan|all>` releases on a chip: every controllable fan
/// for `all`, the named fan for a number, `None` (print usage) otherwise.
pub open spec fn auto_fans_spec(args: Seq<Seq<char>>, chips: Seq<ChipInfo>, chip: usize) -> Option<
    Seq<usize>,
> {
    if args.len() == 0 {
        None
    } else if args[0] == "all"@ {
        let n = if chip < chips.len() {
            chips[chip as int].control_count
        } else {
            0
        };
        Some(Seq::new(n as nat, |i: int| i as usize))
    } else {
        match chars::parse_usize_spec(args[0]) {
            Some(fan) => Some(seq![fan]),
            None => None,
        }
    }
}

pub fn auto_fans(args: &[String], chips: &[ChipInfo], chip: usize) -> (r: Option<Vec<usize>>)
    ensures
        match r {
            Some(v) => auto_fans_spec(arg_views(args@), chips@, chip) == Some(v@),
            None => auto_fans_spec(arg_views(args@), chips@, chip) is None,
        },
{
    if args.len() == 0 {
        return None;
    }
    let first = chars::chars_of(args[0].as_str());
    if is_word(&first, "all") {
        let n = if chip < chips.len() {
            chips[chip].control_count
        } else {
            0
        };
        let mut v: Vec<usize> = Vec::new();
        let mut i: usize = 0;
        while i < n
            invariant
                i <= n,
                v@ =~= Seq::new(i as nat, |k: int| k as usize),
            decreases n - i,
        {
            v.push(i);
            i += 1;
        }
        Some(v)
    } else {
        match chars::parse_usize(&first) {
            Some(fan) => {
                let v = vec![fan];
                assert(v@ =~= seq![fan]);
                Some(v)
            },
            None => None,
        }
    }
}

/// The whitespace-separated words of `s` from position `i` on
/// (`str::split_whitespace`).
pub open spec fn words_from(s: Seq<char>, i: int) -> Seq<Seq<char>>
    decreases s.len() - i,
{
    if i < 0 || i >= s.len() {
        Seq::empty()
    } else {
        let j = text_edit::skip_ws_fwd(s, i);
        if j >= s.len() {
            Seq::empty()
        } else {
            let k = text_edit::skip_word_fwd(s, j);
            proof {
                text_edit::lemma_skip_ws_fwd(s, i);
                text_edit::lemma_skip_word_fwd(s, j);
            }
            seq![s.subrange(j, k)] + words_from(s, k)
        }
    }
}

pub open spec fn words(s: Seq<char>) -> Seq<Seq<char>> {
    words_from(s, 0)
}

fn slice_of(v: &Vec<char>, start: usize, end: usize) -> (r: Vec<char>)
    requires
        start <= end <= v@.len(),
    ensures
        r@ == v@.subrange(start as int, end as int),
{
    let mut r: Vec<char> = Vec::new();
    let mut i = start;
    while i < end
        invariant
            start <= i <= end <= v@.len(),
            r@ =~= v@.subrange(start as int, i as int),
        decreases end - i,
    {
        r.push(v[i]);
        i += 1;
    }
    r
}

/// `str::split_whitespace` over characters.
pub fn split_words(s: &Vec<char>) -> (r: Vec<Vec<char>>)
    ensures
        r@.map_values(|w: Vec<char>| w@) == words(s@),
{
    let mut out: Vec<Vec<char>> = Vec::new();
    let mut i: usize = 0;
    while i < s.len()
        invariant
            i <= s@.len(),
            words(s@) =~= out@.map_values(|w: Vec<char>| w@) + words_from(s@, i as int),
        ensures
            i >= s@.len(),
            words(s@) =~= out@.map_values(|w: Vec<char>| w@) + words_from(s@, i as int),
        decreases s@.len() - i,
    {
        let ghost i0 = i as int;
        while i < s.len() && chars::is_whitespace_char(s[i])
            invariant
                i0 <= i <= s@.len(),
                text_edit::skip_ws_fwd(s@, i0) == text_edit::skip_ws_fwd(s@, i as int),
            decreases s@.len() - i,
        {
            i += 1;
        }
        if i >= s.len() {
            assert(words_from(s@, i0) =~= Seq::<Seq<char>>::empty());
            assert(words_from(s@, i as int) =~= Seq::<Seq<char>>::empty());
            break;
        }
        let start = i;
        while i < s.len() && !chars::is_whitespace_char(s[i])
            invariant
                start <= i <= s@.len(),
                text_edit::skip_word_fwd(s@, start as int) == text_edit::skip_word_fwd(s@, i as int),
            decreases s@.len() - i,
        {
            i += 1;
        }
        let w = slice_of(s, start, i);
        let ghost before = out@.map_values(|w: Vec<char>| w@);
        out.push(w);
        assert(out@.map_values(|w: Vec<char>| w@) =~= before.push(s@.subrange(start as int, i as int)));
        assert(words_from(s@, i0) =~= seq![s@.subrange(start as int, i as int)] + words_from(
            s@,
            i as int,
        ));
    }
    assert(words_from(s@, i as int) =~= Seq::<Seq<char>>::empty());
    out
}

/// First position of `c` in `s` from `i` on, or the length.
pub open spec fn find_from(s: Seq<char>, c: char, i: int) -> int
    decreases s.len() - i,
{
    if i < 0 || i >= s.len() {
        s.len() as int
    } else if s[i] == c {
        i
    } else {
        find_from(s, c, i + 1)
    }
}

proof fn lemma_find_from(s: Seq<char>, c: char, i: int)
    requires
        0 <= i <= s.len(),
    ensures
        i <= find_from(s, c, i) <= s.len(),
        find_from(s, c, i) < s.len() ==> s[find_from(s, c, i)] == c,
    decreases s.len() - i,
{
    if i < s.len() && s[i] != c {
        lemma_find_from(s, c, i + 1);
    }
}

fn find_char(v: &Vec<char>, c: char) -> (r: usize)
    ensures
        r == find_from(v@, c, 0),
        r <= v@.len(),
{
    let mut i: usize = 0;
    while i < v.len() && v[i] != c
        invariant
            i <= v@.len(),
            find_from(v@, c, 0) == find_from(v@, c, i as int),
        decreases v@.len() - i,
    {
        i += 1;
    }
    i
}

/// How a saved fan was controlled before the tool first touched it.
pub enum BaselineMode {
    /// Default (firmware) control.
    Default,
    /// Software control; the percent as written in the file.
    Software { percent: String },
    Unknown,
}

/// One line of the fan-baseline file: `c{chip}f{fan} mode=... [percent=...]`.
pub struct BaselineLine {
    pub chip: usize,
    pub fan: usize,
    pub mode: BaselineMode,
}

/// The `mode` and `percent` values of a line's attributes, the last of
/// each winning; `ctrl=...` (older files) reads as default control. `None`
/// when an attribute has no `=`.
pub open spec fn scan_attrs(attrs: Seq<Seq<char>>, mode: Option<Seq<char>>, percent: Option<Seq<char>>) -> Option<
    (Option<Seq<char>>, Option<Seq<char>>),
>
    decreases attrs.len(),
{
    if attrs.len() == 0 {
        Some((mode, percent))
    } else {
        let a = attrs[0];
        let e = find_from(a, '=', 0);
        if e >= a.len() {
            None
        } else {
            let name = a.subrange(0, e);
            let value = a.subrange(e + 1, a.len() as int);
            if name == "mode"@ {
                scan_attrs(attrs.drop_first(), Some(value), percent)
            } else if name == "percent"@ {
                scan_attrs(attrs.drop_first(), mode, Some(value))
            } else if name == "ctrl"@ {
                scan_attrs(attrs.drop_first(), Some("default"@), percent)
            } else {
                scan_attrs(attrs.drop_first(), mode, percent)
            }
        }
    }
}

/// The key `c{chip}f{fan}`.
pub open spec fn parse_key(key: Seq<char>) -> Option<(usize, usize)> {
    if key.len() == 0 || key[0] != 'c' {
        None
    } else {
        let rest = key.drop_first();
        let f = find_from(rest, 'f', 0);
        if f >= rest.len() {
            None
        } else {
            match (
                chars::parse_usize_spec(rest.subrange(0, f)),
                chars::parse_usize_spec(rest.subrange(f + 1, rest.len() as int)),
            ) {
                (Some(chip), Some(fan)) => Some((chip, fan)),
                _ => None,
            }
        }
    }
}

/// What a baseline line says: key, then mode (`None` for a malformed
/// line, an unknown mode, or software control without a percent).
pub open spec fn baseline_line_spec(line: Seq<char>) -> Option<(usize, usize, BaselineModeView)> {
    let ws = words(line);
    if ws.len() == 0 {
        None
    } else {
        match parse_key(ws[0]) {
            None => None,
            Some((chip, fan)) => match scan_attrs(ws.drop_first(), None, None) {
                None => None,
                Some((mode, percent)) => match mode {
                    None => None,
                    Some(m) => if m == "default"@ {
                        Some((chip, fan, BaselineModeView::Default))
                    } else if m == "software"@ {
                        match percent {
                            Some(p) => Some((chip, fan, BaselineModeView::Software(p))),
                            None => None,
                        }
                    } else if m == "unknown"@ {
                        Some((chip, fan, BaselineModeView::Unknown))
                    } else {
                        None
                    },
                },
            },
        }
    }
}

pub enum BaselineModeView {
    Default,
    Software(Seq<char>),
    Unknown,
}

pub open spec fn mode_view(m: BaselineMode) -> BaselineModeView {
    match m {
        BaselineMode::Default => BaselineModeView::Default,
        BaselineMode::Software { percent } => BaselineModeView::Software(percent@),
        BaselineMode::Unknown => BaselineModeView::Unknown,
    }
}

fn parse_key_exec(key: &Vec<char>) -> (r: Option<(usize, usize)>)
    ensures
        r == parse_key(key@),
{
    if key.len() == 0 || key[0] != 'c' {
        return None;
    }
    let rest = slice_of(key, 1, key.len());
    assert(rest@ =~= key@.drop_first());
    let f = find_char(&rest, 'f');
    if f >= rest.len() {
        return None;
    }
    let chip = chars::parse_usize(&slice_of(&rest, 0, f));
    let fan = chars::parse_usize(&slice_of(&rest, f + 1, rest.len()));
    match (chip, fan) {
        (Some(c), Some(n)) => Some((c, n)),
        _ => None,
    }
}

/// Reads one line of the fan-baseline file.
pub fn parse_baseline_line(line: &str) -> (r: Option<BaselineLine>)
    ensures
        match r {
            Some(l) => baseline_line_spec(line@) == Some((l.chip, l.fan, mode_view(l.mode))),
            None => baseline_line_spec(line@) is None,
        },
{
    let v = chars::chars_of(line);
    let ws = split_words(&v);
    let ghost wv = ws@.map_values(|w: Vec<char>| w@);
    if ws.len() == 0 {
        return None;
    }
    let (chip, fan) = match parse_key_exec(&ws[0]) {
        Some(k) => k,
        None => {
            return None;
        },
    };
    let mut mode: Option<Vec<char>> = None;
    let mut percent: Option<Vec<char>> = None;
    let mut i: usize = 1;
    assert(wv.drop_first() =~= wv.subrange(1, wv.len() as int));
    while i < ws.len()
        invariant
            1 <= i <= ws@.len(),
            wv == ws@.map_values(|w: Vec<char>| w@),
            wv == words(line@),
            parse_key(wv[0]) == Some((chip, fan)),
            scan_attrs(wv.drop_first(), None, None) == scan_attrs(
                wv.subrange(i as int, wv.len() as int),
                match mode {
                    Some(m) => Some(m@),
                    None => None,
                },
                match percent {
                    Some(p) => Some(p@),
                    None => None,
                },
            ),
        decreases ws@.len() - i,
    {
        let a = &ws[i];
        let ghost rest = wv.subrange(i as int, wv.len() as int);
        assert(rest[0] == a@);
        assert(rest.drop_first() =~= wv.subrange(i + 1, wv.len() as int));
        let e = find_char(a, '=');
        if e >= a.len() {
            return None;
        }
        let name = slice_of(a, 0, e);
        let value = slice_of(a, e + 1, a.len());
        if is_word(&name, "mode") {
            mode = Some(value);
        } else if is_word(&name, "percent") {
            percent = Some(value);
        } else if is_word(&name, "ctrl") {
            mode = Some(chars::chars_of("default"));
        }
        i += 1;
    }
    assert(wv.subrange(i as int, wv.len() as int) =~= Seq::<Seq<char>>::empty());
    let m = match mode {
        Some(m) => m,
        None => {
            return None;
        },
    };
    if is_word(&m, "default") {
        Some(BaselineLine { chip, fan, mode: BaselineMode::Default })
    } else if is_word(&m, "software") {
        match percent {
            Some(p) => Some(
                BaselineLine {
                    chip,
                    fan,
                    mode: BaselineMode::Software { percent: chars::string_from_chars(p.as_slice()) },
                },
            ),
            None => None,
        }
    } else if is_word(&m, "unknown") {
        Some(BaselineLine { chip, fan, mode: BaselineMode::Unknown })
    } else {
        None
    }
}

/// The key `c{chip}f{fan}` of a baseline line.
pub open spec fn baseline_key(chip: usize, fan: usize) -> Seq<char> {
    "c"@ + chars::decimal(chip as nat) + "f"@ + chars::decimal(fan as nat)
}

/// The attributes written for a mode.
pub open spec fn mode_text(m: BaselineModeView) -> Seq<char> {
    match m {
        BaselineModeView::Default => " mode=default"@,
        BaselineModeView::Software(p) => " mode=software percent="@ + p,
        BaselineModeView::Unknown => " mode=unknown"@,
    }
}

/// The line the baseline file holds for a fan.
pub open spec fn baseline_text(chip: usize, fan: usize, m: BaselineModeView) -> Seq<char> {
    baseline_key(chip, fan) + mode_text(m)
}

/// Writes one line of the fan-baseline file (without the line break); a
/// software percent is written as given.
pub fn format_baseline_line(line: &BaselineLine) -> (r: String)
    ensures
        r@ == baseline_text(line.chip, line.fan, mode_view(line.mode)),
{
    let mut v = chars::chars_of("c");
    let mut chip = chars::decimal_digits(line.chip as u64);
    v.append(&mut chip);
    let mut f = chars::chars_of("f");
    v.append(&mut f);
    let mut fan = chars::decimal_digits(line.fan as u64);
    v.append(&mut fan);
    match &line.mode {
        BaselineMode::Default => {
            let mut m = chars::chars_of(" mode=default");
            v.append(&mut m);
        },
        BaselineMode::Software { percent } => {
            let mut m = chars::chars_of(" mode=software percent=");
            v.append(&mut m);
            let mut p = chars::chars_of(percent.as_str());
            v.append(&mut p);
        },
        BaselineMode::Unknown => {
            let mut m = chars::chars_of(" mode=unknown");
            v.append(&mut m);
        },
    }
    chars::string_from_chars(v.as_slice())
}

pub open spec fn no_whitespace(s: Seq<char>) -> bool {
    forall|i: int| 0 <= i < s.len() ==> !chars::is_whitespace(#[trigger] s[i])
}

proof fn lemma_skip_shift(p: Seq<char>, s: Seq<char>, i: int)
    requires
        0 <= i <= s.len(),
    ensures
        text_edit::skip_ws_fwd(p + s, p.len() + i) == p.len() + text_edit::skip_ws_fwd(s, i),
        text_edit::skip_word_fwd(p + s, p.len() + i) == p.len() + text_edit::skip_word_fwd(s, i),
    decreases s.len() - i,
{
    if i < s.len() {
        assert((p + s)[p.len() + i] == s[i]);
        lemma_skip_shift(p, s, i + 1);
    }
}

proof fn lemma_words_shift(p: Seq<char>, s: Seq<char>, i: int)
    requires
        0 <= i <= s.len(),
    ensures
        words_from(p + s, p.len() + i) == words_from(s, i),
    decreases s.len() - i,
{
    if i < s.len() {
        let t = p + s;
        lemma_skip_shift(p, s, i);
        text_edit::lemma_skip_ws_fwd(s, i);
        let j = text_edit::skip_ws_fwd(s, i);
        if j < s.len() {
            lemma_skip_shift(p, s, j);
            text_edit::lemma_skip_word_fwd(s, j);
            let k = text_edit::skip_word_fwd(s, j);
            assert(t.subrange(p.len() + j, p.len() + k) =~= s.subrange(j, k));
            lemma_words_shift(p, s, k);
        }
    }
}

proof fn lemma_skip_word_over(w: Seq<char>, r: Seq<char>, i: int)
    requires
        0 <= i <= w.len(),
        no_whitespace(w),
        r.len() == 0 || chars::is_whitespace(r[0]),
    ensures
        text_edit::skip_word_fwd(w + r, i) == w.len(),
    decreases w.len() - i,
{
    if i < w.len() {
        assert((w + r)[i] == w[i]);
        lemma_skip_word_over(w, r, i + 1);
    } else if r.len() > 0 {
        assert((w + r)[i] == r[0]);
    }
}

/// A word followed by whitespace (or nothing) is the first word.
proof fn lemma_words_lead(w: Seq<char>, r: Seq<char>)
    requires
        w.len() > 0,
        no_whitespace(w),
        r.len() == 0 || chars::is_whitespace(r[0]),
    ensures
        words(w + r) == seq![w] + words(r),
{
    let t = w + r;
    assert(t[0] == w[0]);
    assert(text_edit::skip_ws_fwd(t, 0) == 0);
    lemma_skip_word_over(w, r, 0);
    assert(t.subrange(0, w.len() as int) =~= w);
    lemma_words_shift(w, r, 0);
    assert(w.len() + 0 == w.len());
}

/// Leading whitespace does not count.
proof fn lemma_words_space(x: Seq<char>)
    ensures
        words(" "@ + x) == words(x),
{
    reveal_strlit(" ");
    let t = " "@ + x;
    assert(chars::is_whitespace(t[0]));
    assert(text_edit::skip_ws_fwd(t, 0) == text_edit::skip_ws_fwd(t, 1));
    assert(words_from(t, 0) == words_from(t, 1));
    lemma_words_shift(" "@, x, 0);
}

proof fn lemma_find_first(s: Seq<char>, c: char, i: int, k: int)
    requires
        0 <= i <= k < s.len(),
        s[k] == c,
        forall|j: int| i <= j < k ==> s[j] != c,
    ensures
        find_from(s, c, i) == k,
    decreases k - i,
{
    if i < k {
        lemma_find_first(s, c, i + 1, k);
    }
}

proof fn lemma_parse_key(chip: usize, fan: usize)
    ensures
        parse_key(baseline_key(chip, fan)) == Some((chip, fan)),
{
    reveal_strlit("c");
    reveal_strlit("f");
    let dc = chars::decimal(chip as nat);
    let df = chars::decimal(fan as nat);
    chars::lemma_parse_decimal(chip as nat);
    chars::lemma_parse_decimal(fan as nat);
    let key = baseline_key(chip, fan);
    let rest = key.drop_first();
    assert(rest =~= dc + "f"@ + df);
    assert forall|j: int| 0 <= j < dc.len() implies rest[j] != 'f' by {
        assert(rest[j] == dc[j]);
        assert(chars::is_ascii_digit(dc[j]));
    }
    lemma_find_first(rest, 'f', 0, dc.len() as int);
    assert(rest.subrange(0, dc.len() as int) =~= dc);
    assert(rest.subrange((dc.len() + 1) as int, rest.len() as int) =~= df);
}

proof fn lemma_scan_software(p: Seq<char>)
    ensures
        scan_attrs(seq!["mode=software"@, "percent="@ + p], None, None) == Some(
            (Some("software"@), Some(p)),
        ),
{
    reveal_strlit("mode=software");
    reveal_strlit("percent=");
    reveal_strlit("mode");
    reveal_strlit("percent");
    reveal_strlit("software");
    let a1 = "mode=software"@;
    let a2 = "percent="@ + p;
    let sw = "software"@;
    lemma_find_first(a1, '=', 0, 4);
    assert forall|j: int| 0 <= j < 7 implies a2[j] != '=' by {
        assert(a2[j] == "percent="@[j]);
    }
    lemma_find_first(a2, '=', 0, 7);
    assert(a1.subrange(0, 4) =~= "mode"@);
    assert(a1.subrange(5, a1.len() as int) =~= sw);
    assert(a2.subrange(0, 7) =~= "percent"@);
    assert(a2.subrange(8, a2.len() as int) =~= p);
    let attrs = seq![a1, a2];
    assert(attrs[0] == a1);
    assert(attrs.drop_first() =~= seq![a2]);
    assert(seq![a2].drop_first() =~= Seq::<Seq<char>>::empty());
    assert(scan_attrs(Seq::<Seq<char>>::empty(), Some(sw), Some(p)) == Some((Some(sw), Some(p))));
    assert(scan_attrs(seq![a2], Some(sw), None) == scan_attrs(
        Seq::<Seq<char>>::empty(),
        Some(sw),
        Some(p),
    ));
    assert(scan_attrs(attrs, None, None) == scan_attrs(seq![a2], Some(sw), None));
}

proof fn lemma_scan_mode(value: Seq<char>)
    requires
        value == "default"@ || value == "unknown"@,
    ensures
        scan_attrs(seq!["mode="@ + value], None, None) == Some((Some(value), None::<Seq<char>>)),
{
    reveal_strlit("mode=");
    reveal_strlit("mode");
    reveal_strlit("default");
    reveal_strlit("unknown");
    let a1 = "mode="@ + value;
    assert forall|j: int| 0 <= j < 4 implies a1[j] != '=' by {
        assert(a1[j] == "mode="@[j]);
    }
    lemma_find_first(a1, '=', 0, 4);
    assert(a1.subrange(0, 4) =~= "mode"@);
    assert(a1.subrange(5, a1.len() as int) =~= value);
    assert(seq![a1][0] == a1);
    assert(seq![a1].drop_first() =~= Seq::<Seq<char>>::empty());
    assert(scan_attrs(Seq::<Seq<char>>::empty(), Some(value), None) == Some(
        (Some(value), None::<Seq<char>>),
    ));
}

proof fn lemma_key_no_whitespace(chip: usize, fan: usize)
    ensures
        no_whitespace(baseline_key(chip, fan)),
        baseline_key(chip, fan).len() > 0,
{
    reveal_strlit("c");
    reveal_strlit("f");
    let key = baseline_key(chip, fan);
    let dc = chars::decimal(chip as nat);
    let df = chars::decimal(fan as nat);
    chars::lemma_parse_decimal(chip as nat);
    chars::lemma_parse_decimal(fan as nat);
    assert forall|i: int| 0 <= i < key.len() implies !chars::is_whitespace(#[trigger] key[i]) by {
        if 1 <= i < 1 + dc.len() {
            assert(key[i] == dc[i - 1]);
            assert(chars::is_ascii_digit(dc[i - 1]));
        } else if 2 + dc.len() <= i {
            assert(key[i] == df[i - 2 - dc.len()]);
            assert(chars::is_ascii_digit(df[i - 2 - dc.len()]));
        } else if i == 0 {
            assert(key[i] == 'c');
        } else {
            assert(key[i] == 'f');
        }
    }
}

/// The words of a line made of a key and one or two attributes.
proof fn lemma_line_words(key: Seq<char>, a1: Seq<char>, a2: Option<Seq<char>>)
    requires
        key.len() > 0,
        no_whitespace(key),
        a1.len() > 0,
        no_whitespace(a1),
        a2 matches Some(w) ==> w.len() > 0 && no_whitespace(w),
    ensures
        words(key + " "@ + a1 + match a2 {
            Some(w) => " "@ + w,
            None => Seq::<char>::empty(),
        }) == match a2 {
            Some(w) => seq![key, a1, w],
            None => seq![key, a1],
        },
{
    reveal_strlit(" ");
    let tail = match a2 {
        Some(w) => " "@ + w,
        None => Seq::<char>::empty(),
    };
    let rest = " "@ + (a1 + tail);
    assert(key + " "@ + a1 + tail =~= key + rest);
    lemma_words_lead(key, rest);
    lemma_words_space(a1 + tail);
    lemma_words_lead(a1, tail);
    assert(words(Seq::<char>::empty()) =~= Seq::<Seq<char>>::empty());
    match a2 {
        Some(w) => {
            lemma_words_space(w);
            lemma_words_lead(w, Seq::<char>::empty());
            assert(w + Seq::<char>::empty() =~= w);
            assert(seq![key] + (seq![a1] + (seq![w] + Seq::<Seq<char>>::empty())) =~= seq![
                key,
                a1,
                w,
            ]);
        },
        None => {
            assert(seq![key] + (seq![a1] + Seq::<Seq<char>>::empty()) =~= seq![key, a1]);
        },
    }
}

/// What a baseline line says is what was written: reading back a line
/// that [`format_baseline_line`] wrote gives its fan and mode, provided a
/// software percent has no whitespace in it (a formatted number never
/// has).
#[verifier::spinoff_prover]
pub proof fn law_baseline_line_round_trip(chip: usize, fan: usize, m: BaselineModeView)
    requires
        m matches BaselineModeView::Software(p) ==> no_whitespace(p),
    ensures
        baseline_line_spec(baseline_text(chip, fan, m)) == Some((chip, fan, m)),
{
    reveal_strlit(" ");
    reveal_strlit("default");
    reveal_strlit("software");
    reveal_strlit("unknown");
    reveal_strlit("mode=default");
    reveal_strlit("mode=software");
    reveal_strlit("mode=unknown");
    reveal_strlit("mode=");
    reveal_strlit("percent=");
    reveal_strlit(" mode=default");
    reveal_strlit(" mode=software percent=");
    reveal_strlit(" mode=unknown");
    let key = baseline_key(chip, fan);
    lemma_key_no_whitespace(chip, fan);
    lemma_parse_key(chip, fan);
    let text = baseline_text(chip, fan, m);
    match m {
        BaselineModeView::Software(p) => {
            let a1 = "mode=software"@;
            let a2 = "percent="@ + p;
            assert(no_whitespace(a2)) by {
                assert forall|i: int| 0 <= i < a2.len() implies !chars::is_whitespace(
                    #[trigger] a2[i],
                ) by {
                    if i >= 8 {
                        assert(a2[i] == p[i - 8]);
                    } else {
                        assert(a2[i] == "percent="@[i]);
                    }
                }
            }
            assert(no_whitespace(a1));
            assert(text =~= key + " "@ + a1 + (" "@ + a2));
            lemma_line_words(key, a1, Some(a2));
            let ws = words(text);
            assert(ws == seq![key, a1, a2]);
            assert(ws[0] == key);
            assert(ws.drop_first() =~= seq![a1, a2]);
            lemma_scan_software(p);
            assert("software"@[0] != "default"@[0]);
        },
        _ => {
            let value = if m is Default {
                "default"@
            } else {
                "unknown"@
            };
            let a1 = "mode="@ + value;
            assert(a1 =~= if m is Default {
                "mode=default"@
            } else {
                "mode=unknown"@
            });
            assert(no_whitespace(a1));
            assert(text =~= key + " "@ + a1 + Seq::<char>::empty());
            lemma_line_words(key, a1, None);
            let ws = words(text);
            assert(ws == seq![key, a1]);
            assert(ws[0] == key);
            assert(ws.drop_first() =~= seq![a1]);
            lemma_scan_mode(value);
            assert("unknown"@[0] != "default"@[0]);
            assert("unknown"@[0] != "software"@[0]);
        },
    }
}

/// What the service reports while a calibration is followed.
pub enum WatchEvent {
    Detecting,
    Failed { error: String },
    Calibrating { message: String },
    Ready { notes: Vec<String> },
}

/// What to do after an event.
pub enum WatchStep {
    /// Keep reading events.
    Wait,
    /// Print a progress message, then keep reading.
    Print(String),
    /// The run finished: print its results, exit successfully.
    Finished,
    /// Print the message as an error and exit with failure.
    Fail(String),
}

pub open spec fn first_calibration_note(notes: Seq<Seq<char>>) -> Option<Seq<char>> {
    if exists|i: int| 0 <= i < notes.len() && chars::has_prefix(notes[i], "calibration"@) {
        Some(
            notes[choose|i: int|
                0 <= i < notes.len() && chars::has_prefix(notes[i], "calibration"@) && forall|j: int|
                    0 <= j < i ==> !chars::has_prefix(notes[j], "calibration"@)],
        )
    } else {
        None
    }
}

fn calibration_note(notes: &Vec<String>) -> (r: Option<usize>)
    ensures
        match r {
            Some(k) => k < notes@.len() && first_calibration_note(notes@.map_values(|n: String| n@))
                == Some(notes@[k as int]@),
            None => first_calibration_note(notes@.map_values(|n: String| n@)) is None,
        },
{
    let ghost ns = notes@.map_values(|n: String| n@);
    let prefix = chars::chars_of("calibration");
    let mut i: usize = 0;
    while i < notes.len()
        invariant
            i <= notes@.len(),
            ns == notes@.map_values(|n: String| n@),
            prefix@ == "calibration"@,
            forall|j: int| 0 <= j < i ==> !chars::has_prefix(ns[j], "calibration"@),
        decreases notes@.len() - i,
    {
        let n = chars::chars_of(notes[i].as_str());
        if chars::starts_with_seq(&n, &prefix) {
            proof {
                let k = i as int;
                assert(ns[k] == notes@[k]@);
                assert(chars::has_prefix(ns[k], "calibration"@));
                let c = choose|c: int|
                    0 <= c < ns.len() && chars::has_prefix(ns[c], "calibration"@) && forall|j: int|
                        0 <= j < c ==> !chars::has_prefix(ns[j], "calibration"@);
                assert(c == k) by {
                    if c > k {
                        assert(!chars::has_prefix(ns[k], "calibration"@));
                    }
                }
            }
            return Some(i);
        }
        i += 1;
    }
    None
}

/// How many `Ready` states may arrive before the service starts the run.
pub const MAX_READY_BEFORE_START: u32 = 8;

/// Follows a calibration run from the service's state events.
pub struct CalibrationWatch {
    started: bool,
    ready_before_start: u32,
    last_message: String,
}

pub open spec fn step_view(s: WatchStep) -> (int, Seq<char>) {
    match s {
        WatchStep::Wait => (0, Seq::empty()),
        WatchStep::Print(m) => (1, m@),
        WatchStep::Finished => (2, Seq::empty()),
        WatchStep::Fail(m) => (3, m@),
    }
}

impl CalibrationWatch {
    pub closed spec fn is_started(&self) -> bool {
        self.started
    }

    pub closed spec fn early_ready(&self) -> u32 {
        self.ready_before_start
    }

    pub closed spec fn last(&self) -> Seq<char> {
        self.last_message@
    }

    pub fn new() -> (r: CalibrationWatch)
        ensures
            !r.is_started(),
            r.early_ready() == 0,
            r.last() == Seq::<char>::empty(),
    {
        CalibrationWatch { started: false, ready_before_start: 0, last_message: String::new() }
    }

    /// Takes one state event. A new progress message is printed once; a
    /// `Ready` before the run started is counted and more than eight of
    /// them give up; a `Ready` after it ends the run, failing on a
    /// calibration note; a hardware failure fails.
    pub fn step(&mut self, event: WatchEvent) -> (r: WatchStep)
        ensures
            match event {
                WatchEvent::Calibrating { message } => {
                    &&& final(self).is_started()
                    &&& final(self).early_ready() == old(self).early_ready()
                    &&& final(self).last() == message@
                    &&& step_view(r) == if message@ != old(self).last() {
                        (1int, message@)
                    } else {
                        (0int, Seq::<char>::empty())
                    }
                },
                WatchEvent::Ready { notes } => if !old(self).is_started() {
                    &&& !final(self).is_started()
                    &&& final(self).last() == old(self).last()
                    &&& final(self).early_ready() == if old(self).early_ready() < u32::MAX {
                        (old(self).early_ready() + 1) as u32
                    } else {
                        u32::MAX
                    }
                    &&& step_view(r) == if final(self).early_ready() > MAX_READY_BEFORE_START {
                        (3int, "calibration did not start (no controllable fans?)"@)
                    } else {
                        (0int, Seq::<char>::empty())
                    }
                } else {
                    &&& final(self).is_started()
                    &&& final(self).last() == old(self).last()
                    &&& final(self).early_ready() == old(self).early_ready()
                    &&& step_view(r) == match first_calibration_note(notes@.map_values(|n: String| n@)) {
                        Some(note) => (3int, note),
                        None => (2int, Seq::<char>::empty()),
                    }
                },
                WatchEvent::Failed { error } => {
                    &&& final(self).is_started() == old(self).is_started()
                    &&& final(self).last() == old(self).last()
                    &&& final(self).early_ready() == old(self).early_ready()
                    &&& step_view(r) == (3int, "hardware unavailable: "@ + error@)
                },
                WatchEvent::Detecting => {
                    &&& final(self).is_started() == old(self).is_started()
                    &&& final(self).last() == old(self).last()
                    &&& final(self).early_ready() == old(self).early_ready()
                    &&& step_view(r) == (0int, Seq::<char>::empty())
                },
            },
    {
        match event {
            WatchEvent::Calibrating { message } => {
                self.started = true;
                if message != self.last_message {
                    let shown = message.clone();
                    self.last_message = message;
                    WatchStep::Print(shown)
                } else {
                    self.last_message = message;
                    WatchStep::Wait
                }
            },
            WatchEvent::Ready { notes } => {
                if !self.started {
                    self.ready_before_start = self.ready_before_start.saturating_add(1);
                    if self.ready_before_start > MAX_READY_BEFORE_START {
                        WatchStep::Fail("calibration did not start (no controllable fans?)".to_owned())
                    } else {
                        WatchStep::Wait
                    }
                } else {
                    match calibration_note(&notes) {
                        Some(k) => WatchStep::Fail(notes[k].clone()),
                        None => WatchStep::Finished,
                    }
                }
            },
            WatchEvent::Failed { error } => {
                let mut v = chars::chars_of("hardware unavailable: ");
                let mut e = chars::chars_of(error.as_str());
                v.append(&mut e);
                WatchStep::Fail(chars::string_from_chars(v.as_slice()))
            },
            WatchEvent::Detecting => WatchStep::Wait,
        }
    }
}


/// How a fan is controlled, as the status listing names it.
pub enum FanMode {
    /// Driven by a curve, shown by this name.
    Curve(String),
    /// Pinned by the user.
    Manual,
    /// The chip's automatic control.
    Auto,
    /// The fan has no control channel.
    NoControl,
}

/// A fan's control duty as read back, without its value.
#[derive(Clone, Copy, Debug, PartialEq, Eq, Structural)]
pub enum DutyKind {
    Auto,
    Manual,
}

/// The name a curve is listed by: the name of the first curve with its
/// id, else the id.
pub open spec fn curve_display_name(ids: Seq<String>, names: Seq<String>, id: Seq<char>) -> Seq<char> {
    match crate::ipc::first_named(crate::ipc::string_views(ids), id) {
        Some(k) => if k < names.len() {
            names[k as int]@
        } else {
            id
        },
        None => id,
    }
}

pub open spec fn fan_mode_view(m: FanMode) -> (int, Seq<char>) {
    match m {
        FanMode::Curve(name) => (0, name@),
        FanMode::Manual => (1, Seq::empty()),
        FanMode::Auto => (2, Seq::empty()),
        FanMode::NoControl => (3, Seq::empty()),
    }
}

/// How the status listing names a fan's control: its curve (by the
/// published curves' names, `ids[k]` named `names[k]`), else by the duty
/// read back.
pub fn fan_mode(curve: Option<&str>, ids: &[String], names: &[String], duty: Option<DutyKind>) -> (r: FanMode)
    ensures
        fan_mode_view(r) == match curve {
            Some(id) => (0int, curve_display_name(ids@, names@, id@)),
            None => match duty {
                None => (3int, Seq::<char>::empty()),
                Some(DutyKind::Auto) => (2int, Seq::<char>::empty()),
                Some(DutyKind::Manual) => (1int, Seq::<char>::empty()),
            },
        },
{
    match curve {
        Some(id) => {
            let wanted = chars::chars_of(id);
            let ghost vs = crate::ipc::string_views(ids@);
            let mut i: usize = 0;
            while i < ids.len()
                invariant
                    curve == Some(id),
                    i <= ids@.len(),
                    vs == crate::ipc::string_views(ids@),
                    wanted@ == id@,
                    forall|j: int| 0 <= j < i ==> vs[j] != id@,
                decreases ids@.len() - i,
            {
                let candidate = chars::chars_of(ids[i].as_str());
                if chars::same_chars(&candidate, &wanted) {
                    proof {
                        let w = i as int;
                        assert(vs[w] == id@);
                        let c = choose|c: int|
                            0 <= c < vs.len() && vs[c] == id@ && forall|j: int| 0 <= j < c ==> vs[j] != id@;
                        assert(c == w) by {
                            if c > w {
                                assert(vs[w] != id@);
                            }
                        }
                        assert(crate::ipc::first_named(vs, id@) == Some(i));
                    }
                    if i < names.len() {
                        return FanMode::Curve(names[i].clone());
                    }
                    return FanMode::Curve(id.to_owned());
                }
                i += 1;
            }
            FanMode::Curve(id.to_owned())
        },
        None => match duty {
            None => FanMode::NoControl,
            Some(DutyKind::Auto) => FanMode::Auto,
            Some(DutyKind::Manual) => FanMode::Manual,
        },
    }
}


/// `auto all` releases exactly the chip's controllable fans: the fans
/// `0 .. control_count`, in order, and no fan without a control channel.
pub proof fn law_auto_all_is_controllable_fans(args: Seq<Seq<char>>, chips: Seq<ChipInfo>, chip: usize)
    requires
        args.len() > 0,
        args[0] == "all"@,
        chip < chips.len(),
    ensures
        auto_fans_spec(args, chips, chip) matches Some(v) && v.len() == chips[chip as int].control_count
            && forall|i: int| 0 <= i < v.len() ==> v[i] == i && #[trigger] v[i] < chips[chip as int].control_count,
{
}

} // verus!
