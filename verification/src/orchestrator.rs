//! Local weekday working-hours schedule for the GPU training orchestrator.
//!
//! Job choice is directed by [`BROAD_GOAL`]: prefer stream-shaped
//! microstructure checkpoints (closer to live/demo trading) over matrix-game
//! NES drills when those are the open gap. Scheduling stays weekday working
//! hours; the goal does not replace the window.
use vstd::prelude::*;
use crate::text::{
    ascii_lower, chars_of, decimal, decimal_string, eq_lit, is_digit, parse_u16_chars,
    parse_u64_chars, parse_u8_chars, parse_unsigned, parse_usize_chars, push_chars, push_str,
    split_chars, split_on, split_once, split_once_chars, starts_with, starts_with_chars,
    str_to_string, string_from_chars, to_lower, trim, trim_chars, trim_end, trim_start, words,
    words_of, path_join,
};

verus! {

/// ISO weekday: Monday = 1 … Sunday = 7.
pub type IsoWeekday = u8;

/// Minutes since local midnight.
pub type Minutes = u16;

/// Minutes in a day.
pub const DAY_MINUTES: u16 = 1440;

/// Durable north-star shared with the daily workplan orchestrator.
///
/// Close the loop from GPU-trained WoLF-PPO policies to demo/live Binance
/// trading: a checkpointed policy consumes trolly-stream observations, selects
/// actions through trolly-strategy, and places/reconciles orders via the exec
/// crates. Matrix-game NES validation is a regression gate, not the destination.
pub const BROAD_GOAL: &'static str = "Close the loop from GPU-trained WoLF-PPO policies to demo/live Binance trading via trolly-stream observations, trolly-strategy actions, and exec-crate order placement/reconcile.";

/// Sidecar written after each GPU training window (evidence of daily progress).
pub const PROGRESS_LOG_NAME: &'static str = "progress.json";

/// Checkpoint filename used by the train/game sessions.
pub const LATEST_CHECKPOINT_NAME: &'static str = "latest.safetensors";

/// Microstructure completion marker.
pub const COMPLETED_MARKER_NAME: &'static str = "completed.json";

/// Prompt fragment for “continue training locally” (daily orchestrator + `--continue`).
pub const CONTINUE_TRAINING_LOCALLY: &'static str = "When asked to continue training locally: (1) git fetch origin then rebase onto @{u} if the working tree is clean (fetch+warn and continue if rebase would destroy uncommitted work; never reset --hard, never rebase -i); (2) assess state vs BROAD_GOAL; (3) ensure ClickHouse is reachable and ingest sim ticks into trolly.ticks (bail if the DB is down; no in-memory tape); (4) train a time-boxed WoLF-PPO slice (gpu_train_orchestrator --continue, weekday window for --once); (5) write latest.safetensors plus latest.fingerprint.json (weights/data-window/config hashes); (6) leave evidence in progress.json — not a no-op health check.";

// ---------------------------------------------------------------------------
// Working hours
// ---------------------------------------------------------------------------

/// Local weekday working-hours window.
///
/// Defaults: Monday–Friday 09:00–17:00 local time. `weekdays` is indexed
/// 1..=7 (Monday = 1); index 0 is unused.
#[derive(Debug, Clone, PartialEq, Eq)]
pub struct WorkingHours {
    pub start_minutes: Minutes,
    pub end_minutes: Minutes,
    pub weekdays: [bool; 8],
}

/// `weekday + offset`, wrapped once past Sunday.
pub open spec fn spec_wrap_weekday(weekday: int, offset: int) -> int {
    if weekday + offset > 7 {
        weekday + offset - 7
    } else {
        weekday + offset
    }
}

/// What the next-window search yields: seconds, or an arithmetic overflow of
/// the original 16-bit minute sums.
pub enum WaitResult {
    Secs(nat),
    Overflow,
}

impl Default for WorkingHours {
    /// Monday–Friday 09:00–17:00.
    fn default() -> (r: Self)
        ensures
            r.start_minutes == 9 * 60,
            r.end_minutes == 17 * 60,
            forall|d: int| 0 <= d < 8 ==> r.weekdays@[d] == (1 <= d <= 5),
    {
        let mut weekdays = [false;8];
        for day in 1..6usize
            invariant
                forall|d: int| 0 <= d < 8 ==> weekdays@[d] == (1 <= d < day),
        {
            weekdays[day] = true;
        }
        WorkingHours { start_minutes: 9 * 60, end_minutes: 17 * 60, weekdays }
    }

}

impl WorkingHours {
    pub open spec fn enabled(&self, day: int) -> bool {
        0 <= day < 8 && self.weekdays@[day]
    }

    pub open spec fn in_window(&self, weekday: int, minutes: int) -> bool {
        1 <= weekday <= 7 && self.weekdays@[weekday] && self.start_minutes <= minutes
            && minutes < self.end_minutes
    }

    /// The search of `secs_until_next_window` from day offset `offset` on.
    pub open spec fn wait_from(&self, weekday: int, minutes: int, offset: nat) -> WaitResult
        decreases 8 - offset,
    {
        if offset >= 8 {
            WaitResult::Secs(24 * 3600)
        } else {
            let day = spec_wrap_weekday(weekday, offset as int);
            if !self.enabled(day) {
                self.wait_from(weekday, minutes, offset + 1)
            } else if offset == 0 {
                if minutes < self.start_minutes {
                    WaitResult::Secs(((self.start_minutes - minutes) * 60) as nat)
                } else {
                    self.wait_from(weekday, minutes, offset + 1)
                }
            } else {
                let total = (1440 - minutes) + (offset - 1) * 1440 + self.start_minutes;
                if minutes > 1440 || total > 0xffff {
                    WaitResult::Overflow
                } else {
                    WaitResult::Secs((total * 60) as nat)
                }
            }
        }
    }

    /// Inputs on which `secs_until_next_window` returns: every weekday index
    /// is in bounds and no 16-bit minute sum overflows.
    pub open spec fn wait_defined(&self, weekday: int, minutes: int) -> bool {
        weekday <= 7 && (self.in_window(weekday, minutes) || self.wait_from(
            weekday,
            minutes,
            0,
        ) is Secs)
    }

    pub open spec fn spec_secs_until_next_window(&self, weekday: int, minutes: int) -> nat {
        if self.in_window(weekday, minutes) {
            0
        } else {
            match self.wait_from(weekday, minutes, 0) {
                WaitResult::Secs(s) => s,
                WaitResult::Overflow => 0,
            }
        }
    }

    pub fn contains(&self, weekday: IsoWeekday, minutes: Minutes) -> (r: bool)
        ensures
            r == self.in_window(weekday as int, minutes as int),
    {
        1 <= weekday && weekday <= 7 && self.weekdays[weekday as usize] && minutes
            >= self.start_minutes && minutes < self.end_minutes
    }

    /// Remaining seconds in the current window, if we are inside it.
    pub fn remaining_secs(&self, weekday: IsoWeekday, minutes: Minutes) -> (r: Option<u64>)
        ensures
            self.in_window(weekday as int, minutes as int) ==> r == Some(
                ((self.end_minutes - minutes) * 60) as u64,
            ),
            !self.in_window(weekday as int, minutes as int) ==> r is None,
    {
        if !self.contains(weekday, minutes) {
            return None;
        }
        Some((self.end_minutes.saturating_sub(minutes) as u64) * 60)
    }

    /// Seconds until the next window opens. `0` if already inside.
    pub fn secs_until_next_window(&self, weekday: IsoWeekday, minutes: Minutes) -> (r: u64)
        requires
            self.wait_defined(weekday as int, minutes as int),
        ensures
            r == self.spec_secs_until_next_window(weekday as int, minutes as int),
    {
        if self.contains(weekday, minutes) {
            return 0;
        }
        let mut offset: u8 = 0;
        while offset < 8
            invariant
                weekday <= 7,
                offset <= 8,
                !self.in_window(weekday as int, minutes as int),
                self.wait_from(weekday as int, minutes as int, 0) == self.wait_from(
                    weekday as int,
                    minutes as int,
                    offset as nat,
                ),
                self.wait_from(weekday as int, minutes as int, 0) is Secs,
            decreases 8 - offset,
        {
            let day = wrap_weekday(weekday, offset);
            if !self.weekdays[day as usize] {
                offset = offset + 1;
                continue;
            }
            if offset == 0 {
                if minutes < self.start_minutes {
                    return ((self.start_minutes - minutes) as u64) * 60;
                }
                offset = offset + 1;
                continue;
            }
            let mins_left_today: u16 = 24 * 60 - minutes;
            let full_days: u16 = ((offset - 1) as u16) * 24 * 60;
            return ((mins_left_today + full_days + self.start_minutes) as u64) * 60;
        }
        24 * 3600
    }
}

pub fn wrap_weekday(weekday: IsoWeekday, offset: u8) -> (r: IsoWeekday)
    requires
        weekday <= 7,
        offset <= 7,
    ensures
        r == spec_wrap_weekday(weekday as int, offset as int),
{
    let raw = weekday + offset;
    if raw > 7 {
        raw - 7
    } else {
        raw
    }
}

} // verus!

verus! {

// ---------------------------------------------------------------------------
// Parsers for the schedule settings
// ---------------------------------------------------------------------------

pub open spec fn spec_parse_hhmm(raw: Seq<char>) -> Option<u16> {
    let t = trim(raw);
    match split_once(t, ':') {
        Some((h, m)) => match (parse_unsigned(h, 0xffff), parse_unsigned(m, 0xffff)) {
            (Some(hh), Some(mm)) => if hh < 24 && mm < 60 {
                Some((hh * 60 + mm) as u16)
            } else {
                None
            },
            _ => None,
        },
        None => if t.len() == 4 && crate::text::all_digits(t) {
            match (parse_unsigned(t.take(2), 0xffff), parse_unsigned(t.skip(2), 0xffff)) {
                (Some(hh), Some(mm)) => if hh < 24 && mm < 60 {
                    Some((hh * 60 + mm) as u16)
                } else {
                    None
                },
                _ => None,
            }
        } else {
            None
        },
    }
}

/// Parses `HH:MM` or `HHMM` into minutes since midnight.
pub fn parse_hhmm(raw: &str) -> (r: Option<Minutes>)
    ensures
        r == spec_parse_hhmm(raw@),
{
    let cs = chars_of(raw);
    let t = trim_chars(cs.as_slice());
    match split_once_chars(t.as_slice(), ':') {
        Some((h, m)) => {
            let hours = match parse_u16_chars(h.as_slice()) {
                Some(v) => v,
                None => {
                    return None;
                },
            };
            let mins = match parse_u16_chars(m.as_slice()) {
                Some(v) => v,
                None => {
                    return None;
                },
            };
            if hours < 24 && mins < 60 {
                return Some(hours * 60 + mins);
            }
            return None;
        },
        None => {},
    }
    if t.len() == 4 && all_digit_chars(t.as_slice()) {
        let head = take_chars(t.as_slice(), 2);
        let tail = skip_chars(t.as_slice(), 2);
        let hours = match parse_u16_chars(head.as_slice()) {
            Some(v) => v,
            None => {
                return None;
            },
        };
        let mins = match parse_u16_chars(tail.as_slice()) {
            Some(v) => v,
            None => {
                return None;
            },
        };
        if hours < 24 && mins < 60 {
            return Some(hours * 60 + mins);
        }
    }
    None
}

fn all_digit_chars(s: &[char]) -> (r: bool)
    ensures
        r == crate::text::all_digits(s@),
{
    for i in 0..s.len()
        invariant
            forall|j: int| 0 <= j < i ==> is_digit(#[trigger] s@[j]),
    {
        if !crate::text::is_digit_char(s[i]) {
            return false;
        }
    }
    true
}

fn take_chars(s: &[char], n: usize) -> (r: Vec<char>)
    requires
        n <= s@.len(),
    ensures
        r@ == s@.take(n as int),
{
    let mut out: Vec<char> = Vec::new();
    for i in 0..n
        invariant
            n <= s@.len(),
            out@ == s@.take(i as int),
    {
        out.push(s[i]);
        assert(s@.take(i + 1) =~= s@.take(i as int).push(s@[i as int]));
    }
    out
}

fn skip_chars(s: &[char], n: usize) -> (r: Vec<char>)
    requires
        n <= s@.len(),
    ensures
        r@ == s@.skip(n as int),
{
    let mut out: Vec<char> = Vec::new();
    let mut i = n;
    while i < s.len()
        invariant
            n <= i <= s@.len(),
            out@ == s@.subrange(n as int, i as int),
        decreases s@.len() - i,
    {
        out.push(s[i]);
        assert(s@.subrange(n as int, i + 1) =~= s@.subrange(n as int, i as int).push(
            s@[i as int],
        ));
        i = i + 1;
    }
    out
}

/// A comma list part names day `d` (after trimming).
pub open spec fn part_day(part: Seq<char>) -> Option<nat> {
    parse_unsigned(trim(part), 0xff)
}

pub open spec fn valid_day(d: Option<nat>) -> bool {
    d matches Some(n) && 1 <= n <= 7
}

pub open spec fn spec_parse_weekdays(raw: Seq<char>) -> Option<Seq<bool>> {
    let t = trim(raw);
    match split_once(t, '-') {
        Some((a, b)) => match (parse_unsigned(a, 0xff), parse_unsigned(b, 0xff)) {
            (Some(s), Some(e)) => if 1 <= s <= 7 && 1 <= e <= 7 && s <= e {
                Some(Seq::new(8, |d: int| s <= d <= e))
            } else {
                None
            },
            _ => None,
        },
        None => {
            let parts = split_on(t, ',');
            if forall|i: int| 0 <= i < parts.len() ==> valid_day(#[trigger] part_day(parts[i])) {
                Some(
                    Seq::new(
                        8,
                        |d: int| exists|i: int| 0 <= i < parts.len() && part_day(parts[i]) == Some(d as nat),
                    ),
                )
            } else {
                None
            }
        },
    }
}

/// Parses `1-5` or `1,2,3,4,5` (Monday = 1) into a weekday mask.
#[verifier::loop_isolation(false)]
pub fn parse_weekdays(raw: &str) -> (r: Option<[bool; 8]>)
    ensures
        match spec_parse_weekdays(raw@) {
            Some(days) => r matches Some(a) && a@ == days,
            None => r is None,
        },
{
    let mut weekdays = [false;8];
    let cs = chars_of(raw);
    let t = trim_chars(cs.as_slice());
    match split_once_chars(t.as_slice(), '-') {
        Some((a, b)) => {
            let start = match parse_u8_chars(a.as_slice()) {
                Some(v) => v,
                None => {
                    return None;
                },
            };
            let end = match parse_u8_chars(b.as_slice()) {
                Some(v) => v,
                None => {
                    return None;
                },
            };
            if !(1 <= start && start <= 7) || !(1 <= end && end <= 7) || start > end {
                return None;
            }
            let mut day = start;
            while day <= end
                invariant
                    1 <= start <= day,
                    end <= 7,
                    day <= end + 1,
                    forall|d: int| 0 <= d < 8 ==> weekdays@[d] == (start <= d < day),
                decreases end + 1 - day,
            {
                weekdays[day as usize] = true;
                day = day + 1;
            }
            assert(weekdays@ =~= Seq::new(8, |d: int| start <= d <= end));
            return Some(weekdays);
        },
        None => {},
    }
    let parts = split_chars(t.as_slice(), ',');
    let ghost ps = split_on(t@, ',');
    let mut any = false;
    for i in 0..parts.len()
        invariant
            parts@.len() == ps.len(),
            forall|k: int| 0 <= k < parts@.len() ==> #[trigger] parts@[k]@ == ps[k],
            forall|k: int| 0 <= k < i ==> valid_day(#[trigger] part_day(ps[k])),
            forall|d: int|
                0 <= d < 8 ==> weekdays@[d] == exists|k: int|
                    0 <= k < i && part_day(ps[k]) == Some(d as nat),
            any == (i > 0),
    {
        let p = trim_chars(parts[i].as_slice());
        let day = match parse_u8_chars(p.as_slice()) {
            Some(v) => v,
            None => {
                assert(!valid_day(part_day(ps[i as int])));
                return None;
            },
        };
        if !(1 <= day && day <= 7) {
            assert(!valid_day(part_day(ps[i as int])));
            return None;
        }
        let ghost before = weekdays@;
        weekdays[day as usize] = true;
        assert forall|d: int|
            0 <= d < 8 implies weekdays@[d] == exists|k: int|
                0 <= k < i + 1 && part_day(ps[k]) == Some(d as nat) by {
            if d == day as int {
                assert(part_day(ps[i as int]) == Some(d as nat));
            } else {
                if exists|k: int| 0 <= k < i + 1 && part_day(ps[k]) == Some(d as nat) {
                    let k = choose|k: int| 0 <= k < i + 1 && part_day(ps[k]) == Some(d as nat);
                    assert(k != i);
                }
            }
        }
        any = true;
    }
    proof {
        crate::text::lemma_split_on_nonempty(t@, ',');
    }
    if any {
        assert(weekdays@ =~= Seq::new(
            8,
            |d: int| exists|i: int| 0 <= i < ps.len() && part_day(ps[i]) == Some(d as nat),
        ));
        Some(weekdays)
    } else {
        None
    }
}

pub open spec fn spec_parse_date_fields(raw: Seq<char>) -> Option<(u8, u16)> {
    let w = words(raw);
    if w.len() < 3 {
        None
    } else {
        match (parse_unsigned(w[0], 0xff), parse_unsigned(w[1], 0xffff), parse_unsigned(w[2], 0xffff)) {
            (Some(wd), Some(h), Some(m)) => if 1 <= wd <= 7 && h <= 23 && m <= 59 {
                Some((wd as u8, (h * 60 + m) as u16))
            } else {
                None
            },
            _ => None,
        }
    }
}

/// Reads `date +%u %H %M` output: ISO weekday and minutes since midnight.
pub fn parse_date_fields(raw: &str) -> (r: Option<(IsoWeekday, Minutes)>)
    ensures
        r == spec_parse_date_fields(raw@),
{
    let cs = chars_of(raw);
    let w = words_of(cs.as_slice());
    if w.len() < 3 {
        return None;
    }
    let weekday = match parse_u8_chars(w[0].as_slice()) {
        Some(v) => v,
        None => {
            return None;
        },
    };
    let hour = match parse_u16_chars(w[1].as_slice()) {
        Some(v) => v,
        None => {
            return None;
        },
    };
    let minute = match parse_u16_chars(w[2].as_slice()) {
        Some(v) => v,
        None => {
            return None;
        },
    };
    if !(1 <= weekday && weekday <= 7) || hour > 23 || minute > 59 {
        return None;
    }
    Some((weekday, hour * 60 + minute))
}

} // verus!

verus! {

/// A minutes setting read from the environment: its `HH:MM` parse, or the
/// default when unset or unparsable.
pub open spec fn minutes_setting(raw: Option<&str>, default: u16) -> u16 {
    match raw {
        Some(s) => match spec_parse_hhmm(s@) {
            Some(m) => m,
            None => default,
        },
        None => default,
    }
}

/// The weekday mask setting read from the environment: its parse, or
/// Monday–Friday when unset or unparsable.
pub open spec fn weekday_setting(raw: Option<&str>, day: int) -> bool {
    match raw {
        Some(s) => match spec_parse_weekdays(s@) {
            Some(w) => w[day],
            None => 1 <= day <= 5,
        },
        None => 1 <= day <= 5,
    }
}

impl WorkingHours {
    /// Hours from the `TROLLY_WORK_START`, `TROLLY_WORK_END` (`HH:MM`) and
    /// `TROLLY_WORK_WEEKDAYS` values read from the environment (`None` when
    /// unset); each unset or unparsable value keeps its default.
    pub fn from_env(start: Option<&str>, end: Option<&str>, weekdays: Option<&str>) -> (r: Self)
        ensures
            r.start_minutes == minutes_setting(start, 540u16),
            r.end_minutes == minutes_setting(end, 1020u16),
            forall|d: int| 0 <= d < 8 ==> r.weekdays@[d] == weekday_setting(weekdays, d),
    {
        let mut hours = WorkingHours::default();
        if let Some(raw) = start {
            if let Some(minutes) = parse_hhmm(raw) {
                hours.start_minutes = minutes;
            }
        }
        if let Some(raw) = end {
            if let Some(minutes) = parse_hhmm(raw) {
                hours.end_minutes = minutes;
            }
        }
        if let Some(raw) = weekdays {
            if let Some(days) = parse_weekdays(raw) {
                hours.weekdays = days;
            }
        }
        hours
    }
}

} // verus!


verus! {

// ---------------------------------------------------------------------------
// Compute device and checkpoint cadence
// ---------------------------------------------------------------------------

/// Compute device requested by the orchestrator.
#[derive(Debug, Clone, Copy, PartialEq, Eq, Structural)]
pub enum DeviceSpec {
    /// Use GPU when libtorch reports one, otherwise CPU (examples/tests).
    Auto,
    Cpu,
    /// Libtorch CUDA index. ROCm/HIP builds expose HIP devices through this API.
    Cuda(usize),
}

pub open spec fn spec_parse_device(raw: Seq<char>) -> Option<DeviceSpec> {
    let s = ascii_lower(trim(raw));
    if s == ""@ || s == "auto"@ {
        Some(DeviceSpec::Auto)
    } else if s == "cpu"@ {
        Some(DeviceSpec::Cpu)
    } else if s == "cuda"@ || s == "gpu"@ || s == "rocm"@ || s == "hip"@ {
        Some(DeviceSpec::Cuda(0))
    } else if starts_with(s, "cuda:"@) {
        match parse_unsigned(s.skip(5), usize::MAX as nat) {
            Some(n) => Some(DeviceSpec::Cuda(n as usize)),
            None => None,
        }
    } else {
        None
    }
}

pub open spec fn device_text(d: DeviceSpec) -> Seq<char> {
    match d {
        DeviceSpec::Auto => "auto"@,
        DeviceSpec::Cpu => "cpu"@,
        DeviceSpec::Cuda(i) => "cuda:"@ + decimal(i as nat),
    }
}

impl DeviceSpec {
    /// Parses `TROLLY_TRAIN_DEVICE` (`auto`, `cpu`, `cuda`, `cuda:N`, `rocm`, `gpu`, `hip`).
    pub fn parse(raw: &str) -> (r: Option<DeviceSpec>)
        ensures
            r == spec_parse_device(raw@),
    {
        let cs = chars_of(raw);
        let t = trim_chars(cs.as_slice());
        let s = to_lower(t.as_slice());
        let sl = s.as_slice();
        if eq_lit(sl, "") || eq_lit(sl, "auto") {
            return Some(DeviceSpec::Auto);
        }
        if eq_lit(sl, "cpu") {
            return Some(DeviceSpec::Cpu);
        }
        if eq_lit(sl, "cuda") || eq_lit(sl, "gpu") || eq_lit(sl, "rocm") || eq_lit(sl, "hip") {
            return Some(DeviceSpec::Cuda(0));
        }
        let prefix = chars_of("cuda:");
        if starts_with_chars(sl, prefix.as_slice()) {
            proof {
                reveal_strlit("cuda:");
            }
            let rest = skip_chars(sl, 5);
            return match parse_usize_chars(rest.as_slice()) {
                Some(n) => Some(DeviceSpec::Cuda(n)),
                None => None,
            };
        }
        None
    }

    /// The `TROLLY_TRAIN_DEVICE` value read from the environment, if any:
    /// its parse, `Auto` when unset or unparsable.
    pub fn from_env(raw: Option<&str>) -> (r: DeviceSpec)
        ensures
            r == match raw {
                Some(s) => match spec_parse_device(s@) {
                    Some(d) => d,
                    None => DeviceSpec::Auto,
                },
                None => DeviceSpec::Auto,
            },
    {
        match raw {
            Some(s) => match DeviceSpec::parse(s) {
                Some(d) => d,
                None => DeviceSpec::Auto,
            },
            None => DeviceSpec::Auto,
        }
    }

    /// `auto`, `cpu` or `cuda:N`.
    pub fn to_string(&self) -> (r: String)
        ensures
            r@ == device_text(*self),
    {
        match self {
            DeviceSpec::Auto => str_to_string("auto"),
            DeviceSpec::Cpu => str_to_string("cpu"),
            DeviceSpec::Cuda(i) => {
                let mut s = str_to_string("cuda:");
                let d = decimal_string(*i as u64);
                push_str(&mut s, d.as_str());
                s
            },
        }
    }
}

/// Default gap between `latest.safetensors` writes on a long GPU slice.
pub const DEFAULT_CHECKPOINT_INTERVAL_SECS: u64 = 60;

/// `Duration::from_secs(secs)`, named for contracts.
pub uninterp spec fn secs_duration(secs: u64) -> std::time::Duration;

/// Total nanoseconds spanned by a `Duration`, named for contracts.
pub uninterp spec fn duration_nanos(d: std::time::Duration) -> nat;

/// `Duration::from_secs`. Trusted: the value is a function of `secs` alone,
/// and, as the standard library documents, it spans `secs` whole seconds.
#[verifier::external_body]
pub(crate) fn duration_from_secs(secs: u64) -> (d: std::time::Duration)
    ensures
        d == secs_duration(secs),
        duration_nanos(d) == secs * 1_000_000_000,
{
    std::time::Duration::from_secs(secs)
}

/// `Duration::as_nanos`. Trusted: the total number of whole nanoseconds the
/// duration spans, a function of the duration alone.
#[verifier::external_body]
fn duration_as_nanos(d: &std::time::Duration) -> (r: u128)
    ensures
        r == duration_nanos(*d),
{
    d.as_nanos()
}

/// The interval in seconds that a `TROLLY_CHECKPOINT_INTERVAL_SECS` value
/// selects: empty or absent → 60, unparsable → 60, else the number.
pub open spec fn spec_interval_secs(raw: Option<Seq<char>>) -> u64 {
    match raw {
        None => DEFAULT_CHECKPOINT_INTERVAL_SECS,
        Some(s) => if trim(s).len() == 0 {
            DEFAULT_CHECKPOINT_INTERVAL_SECS
        } else {
            match parse_unsigned(trim(s), u64::MAX as nat) {
                Some(n) => n as u64,
                None => DEFAULT_CHECKPOINT_INTERVAL_SECS,
            }
        },
    }
}

pub fn interval_secs(raw: Option<&str>) -> (r: u64)
    ensures
        r == spec_interval_secs(
            match raw {
                Some(s) => Some(s@),
                None => None,
            },
        ),
{
    match raw {
        None => DEFAULT_CHECKPOINT_INTERVAL_SECS,
        Some(s) => {
            let cs = chars_of(s);
            let t = trim_chars(cs.as_slice());
            if t.len() == 0 {
                DEFAULT_CHECKPOINT_INTERVAL_SECS
            } else {
                match parse_u64_chars(t.as_slice()) {
                    Some(n) => n,
                    None => DEFAULT_CHECKPOINT_INTERVAL_SECS,
                }
            }
        },
    }
}

/// Parses `TROLLY_CHECKPOINT_INTERVAL_SECS`. Empty/invalid → 60s. `0` means
/// persist after every update.
pub fn parse_checkpoint_interval_secs(raw: Option<&str>) -> (r: std::time::Duration)
    ensures
        r == secs_duration(
            spec_interval_secs(
                match raw {
                    Some(s) => Some(s@),
                    None => None,
                },
            ),
        ),
{
    duration_from_secs(interval_secs(raw))
}

#[verifier::external_type_specification]
#[verifier::external_body]
pub struct ExInstant(std::time::Instant);

/// `Instant::now()`. Trusted to return; nothing is stated of the reading.
#[verifier::external_body]
fn instant_now() -> std::time::Instant {
    std::time::Instant::now()
}

/// Time from `earlier` to `later` (zero when `earlier` is the later one),
/// named for contracts.
pub uninterp spec fn instant_gap(later: std::time::Instant, earlier: std::time::Instant) -> std::time::Duration;

/// `Instant::saturating_duration_since`. Trusted: the gap between two clock
/// readings is a function of the two readings alone.
#[verifier::external_body]
fn instant_gap_between(later: &std::time::Instant, earlier: &std::time::Instant) -> (d:
    std::time::Duration)
    ensures
        d == instant_gap(*later, *earlier),
{
    later.saturating_duration_since(*earlier)
}

/// Wall-clock gate for overwriting `latest.safetensors` during a train slice.
///
/// Starts counting when constructed. Interval `0` is always due.
#[derive(Debug)]
pub struct CheckpointClock {
    pub interval: std::time::Duration,
    started: std::time::Instant,
    last_save: Option<std::time::Instant>,
}

impl CheckpointClock {
    /// A save has been marked since construction.
    pub closed spec fn saved(&self) -> bool {
        self.last_save is Some
    }

    /// The configured interval.
    pub closed spec fn interval_value(&self) -> std::time::Duration {
        self.interval
    }

    /// The instant counting runs from: the last save, else construction.
    pub closed spec fn since_spec(&self) -> std::time::Instant {
        match self.last_save {
            Some(t) => t,
            None => self.started,
        }
    }

    /// A clock built now; counting starts at construction.
    pub fn new(interval: std::time::Duration) -> (r: Self)
        ensures
            r.interval_value() == interval,
            !r.saved(),
    {
        Self::new_at(interval, instant_now())
    }

    /// A clock built at `now`: counting starts there.
    pub fn new_at(interval: std::time::Duration, now: std::time::Instant) -> (r: Self)
        ensures
            r.interval_value() == interval,
            !r.saved(),
            r.since_spec() == now,
    {
        CheckpointClock { interval, started: now, last_save: None }
    }

    /// The instant counting runs from: the last save, else construction.
    pub fn since(&self) -> (r: &std::time::Instant)
        ensures
            *r == self.since_spec(),
    {
        match &self.last_save {
            Some(t) => t,
            None => &self.started,
        }
    }

    /// Verdict for an elapsed time since the last save (or construction):
    /// due when the interval spans no time or has fully passed.
    pub open spec fn due_after_spec(&self, elapsed: std::time::Duration) -> bool {
        duration_nanos(self.interval_value()) == 0 || duration_nanos(elapsed) >= duration_nanos(
            self.interval_value(),
        )
    }

    /// Due when the interval is zero, or when the interval has passed since
    /// the last save (or construction). The current instant is read from the
    /// monotonic clock; the verdict is the one [`Self::due_at`] gives for that
    /// reading.
    pub fn due(&self) -> (r: bool)
        ensures
            duration_nanos(self.interval_value()) == 0 ==> r,
            exists|now: std::time::Instant|
                r == self.due_after_spec(instant_gap(now, self.since_spec())),
    {
        self.due_at(instant_now())
    }

    /// Whether a save is due at instant `now`: the interval is zero, or the
    /// time from the last save (else construction) to `now` has reached it.
    pub fn due_at(&self, now: std::time::Instant) -> (r: bool)
        ensures
            r == self.due_after_spec(instant_gap(now, self.since_spec())),
    {
        let elapsed = instant_gap_between(&now, self.since());
        self.due_after(elapsed)
    }

    /// Whether a save is due once `elapsed` has passed since the last save
    /// (or construction).
    pub fn due_after(&self, elapsed: std::time::Duration) -> (r: bool)
        ensures
            r == self.due_after_spec(elapsed),
    {
        let interval = duration_as_nanos(&self.interval);
        if interval == 0 {
            return true;
        }
        duration_as_nanos(&elapsed) >= interval
    }

    /// Records a save now: counting restarts from this instant.
    pub fn mark(&mut self)
        ensures
            final(self).interval_value() == old(self).interval_value(),
            final(self).saved(),
    {
        self.mark_at(instant_now());
    }

    /// Records a save at `now`: counting restarts from `now`.
    pub fn mark_at(&mut self, now: std::time::Instant)
        ensures
            final(self).interval_value() == old(self).interval_value(),
            final(self).saved(),
            final(self).since_spec() == now,
    {
        self.last_save = Some(now);
    }
}

} // verus!

verus! {

impl CheckpointClock {
    /// Clock for a `TROLLY_CHECKPOINT_INTERVAL_SECS` value read from the
    /// environment (`None` when unset).
    pub fn from_env(raw: Option<&str>) -> (r: Self)
        ensures
            r.interval_value() == secs_duration(
                spec_interval_secs(
                    match raw {
                        Some(s) => Some(s@),
                        None => None,
                    },
                ),
            ),
            !r.saved(),
    {
        CheckpointClock::new(parse_checkpoint_interval_secs(raw))
    }
}

// ---------------------------------------------------------------------------
// Job selection
// ---------------------------------------------------------------------------

/// Jobs selected for this window and why they are the highest-leverage slice.
#[derive(Debug, Clone, PartialEq, Eq)]
pub struct TrainGap {
    pub jobs: Vec<String>,
    pub reason: String,
}

impl TrainGap {
    pub open spec fn job_texts(&self) -> Seq<Seq<char>> {
        self.jobs@.map_values(|j: String| j@)
    }
}

/// What exists under the checkpoint root.
#[derive(Debug, Clone, Copy, PartialEq, Eq, Default)]
pub struct CheckpointTree {
    /// Some `microstructure/{mlp,liquid}/latest.safetensors` exists.
    pub microstructure_started: bool,
    /// Both `microstructure/{mlp,liquid}/completed.json` exist.
    pub microstructure_complete: bool,
    /// Some `matrix/{mlp,liquid}/{game}/latest.safetensors` exists.
    pub matrix_started: bool,
}

pub open spec fn job_item(raw: Seq<char>) -> Seq<char> {
    ascii_lower(trim(raw))
}

/// Comma-separated job names, trimmed and lower-cased, empty ones dropped.
pub open spec fn spec_job_list(raw: Seq<char>) -> Seq<Seq<char>> {
    split_on(raw, ',').map_values(|p: Seq<char>| job_item(p)).filter(|j: Seq<char>| j.len() > 0)
}

pub open spec fn override_reason() -> Seq<char> {
    "TROLLY_TRAIN_JOBS override"@
}

pub open spec fn spec_select_jobs(override_jobs: Option<Seq<char>>, tree: CheckpointTree) -> (
    Seq<Seq<char>>,
    Seq<char>,
) {
    if override_jobs is Some && spec_job_list(override_jobs->0).len() > 0 {
        (spec_job_list(override_jobs->0), override_reason())
    } else if !tree.microstructure_complete {
        if !tree.microstructure_started {
            (
                seq!["microstructure"@, "matrix"@],
                "no stream-shaped checkpoints; train microstructure first (closest to live policy), then matrix NES gate"@,
            )
        } else {
            (
                seq!["microstructure"@],
                "microstructure policy not complete; highest-leverage gap toward stream-backed trading"@,
            )
        }
    } else if !tree.matrix_started {
        (seq!["matrix"@], "stream-shaped models complete; improve matrix NES regression gate"@)
    } else {
        (
            seq!["microstructure"@, "matrix"@],
            "both tracks exist; keep improving stream-shaped checkpoints toward a live/demo policy"@,
        )
    }
}

pub fn parse_job_list(raw: &str) -> (r: Vec<String>)
    ensures
        r@.map_values(|j: String| j@) == spec_job_list(raw@),
{
    let cs = chars_of(raw);
    let parts = split_chars(cs.as_slice(), ',');
    let ghost ps = split_on(raw@, ',');
    let ghost items = ps.map_values(|p: Seq<char>| job_item(p));
    let mut out: Vec<String> = Vec::new();
    for i in 0..parts.len()
        invariant
            cs@ == raw@,
            parts@.len() == ps.len(),
            items == ps.map_values(|p: Seq<char>| job_item(p)),
            forall|k: int| 0 <= k < parts@.len() ==> #[trigger] parts@[k]@ == ps[k],
            out@.map_values(|j: String| j@) == items.take(i as int).filter(
                |j: Seq<char>| j.len() > 0,
            ),
    {
        let t = trim_chars(parts[i].as_slice());
        let l = to_lower(t.as_slice());
        assert(l@ == items[i as int]);
        assert(items.take(i + 1).drop_last() =~= items.take(i as int));
        proof {
            reveal_with_fuel(Seq::<_>::filter, 1);
            assert(items.take(i + 1).last() == items[i as int]);
        }
        if l.len() > 0 {
            let s = string_from_chars(l.as_slice());
            let ghost before = out@;
            out.push(s);
            assert(out@.map_values(|j: String| j@) =~= before.map_values(|j: String| j@).push(s@));
        }
    }
    assert(items.take(parts@.len() as int) =~= items);
    out
}

fn strings_from(items: &[&str]) -> (r: Vec<String>)
    ensures
        r@.map_values(|j: String| j@) == items@.map_values(|s: &str| s@),
{
    let mut out: Vec<String> = Vec::new();
    for i in 0..items.len()
        invariant
            out@.map_values(|j: String| j@) == items@.map_values(|s: &str| s@).take(i as int),
    {
        let ghost before = out@;
        let item = str_to_string(items[i]);
        out.push(item);
        assert(out@.map_values(|j: String| j@) =~= before.map_values(|j: String| j@).push(item@));
        assert(items@.map_values(|s: &str| s@).take(i + 1) =~= items@.map_values(|s: &str| s@).take(
            i as int,
        ).push(items@[i as int]@));
    }
    assert(items@.map_values(|s: &str| s@).take(items@.len() as int) =~= items@.map_values(
        |s: &str| s@,
    ));
    out
}

/// Picks today's training jobs from the checkpoint tree and the
/// `TROLLY_TRAIN_JOBS` override. Always returns at least one job.
pub fn select_train_jobs(override_jobs: Option<&str>, tree: &CheckpointTree) -> (r: TrainGap)
    ensures
        r.job_texts() == spec_select_jobs(
            match override_jobs {
                Some(s) => Some(s@),
                None => None,
            },
            *tree,
        ).0,
        r.reason@ == spec_select_jobs(
            match override_jobs {
                Some(s) => Some(s@),
                None => None,
            },
            *tree,
        ).1,
{
    if let Some(raw) = override_jobs {
        let jobs = parse_job_list(raw);
        if jobs.len() > 0 {
            return TrainGap { jobs, reason: str_to_string("TROLLY_TRAIN_JOBS override") };
        }
    }
    if !tree.microstructure_complete {
        if !tree.microstructure_started {
            let names: [&str; 2] = ["microstructure", "matrix"];
            let jobs = strings_from(names.as_slice());
            assert(names@.map_values(|s: &str| s@) =~= seq!["microstructure"@, "matrix"@]);
            return TrainGap {
                jobs,
                reason: str_to_string(
                    "no stream-shaped checkpoints; train microstructure first (closest to live policy), then matrix NES gate",
                ),
            };
        }
        let names: [&str; 1] = ["microstructure"];
        let jobs = strings_from(names.as_slice());
        assert(names@.map_values(|s: &str| s@) =~= seq!["microstructure"@]);
        return TrainGap {
            jobs,
            reason: str_to_string(
                "microstructure policy not complete; highest-leverage gap toward stream-backed trading",
            ),
        };
    }
    if !tree.matrix_started {
        let names: [&str; 1] = ["matrix"];
        let jobs = strings_from(names.as_slice());
        assert(names@.map_values(|s: &str| s@) =~= seq!["matrix"@]);
        return TrainGap {
            jobs,
            reason: str_to_string("stream-shaped models complete; improve matrix NES regression gate"),
        };
    }
    let names: [&str; 2] = ["microstructure", "matrix"];
    let jobs = strings_from(names.as_slice());
    assert(names@.map_values(|s: &str| s@) =~= seq!["microstructure"@, "matrix"@]);
    TrainGap {
        jobs,
        reason: str_to_string(
            "both tracks exist; keep improving stream-shaped checkpoints toward a live/demo policy",
        ),
    }
}

/// Paths whose existence says that a microstructure checkpoint was started:
/// `microstructure/{mlp,liquid}/latest.safetensors` under `root`.
pub fn microstructure_checkpoint_paths(root: &str) -> (r: Vec<String>)
    ensures
        r@.map_values(|p: String| p@) == seq![
            path_join(path_join(path_join(root@, "microstructure"@), "mlp"@), LATEST_CHECKPOINT_NAME@),
            path_join(path_join(path_join(root@, "microstructure"@), "liquid"@), LATEST_CHECKPOINT_NAME@),
        ],
{
    marker_paths(root, LATEST_CHECKPOINT_NAME)
}

/// Paths whose existence says that microstructure training completed:
/// `microstructure/{mlp,liquid}/completed.json` under `root`.
pub fn microstructure_marker_paths(root: &str) -> (r: Vec<String>)
    ensures
        r@.map_values(|p: String| p@) == seq![
            path_join(path_join(path_join(root@, "microstructure"@), "mlp"@), COMPLETED_MARKER_NAME@),
            path_join(path_join(path_join(root@, "microstructure"@), "liquid"@), COMPLETED_MARKER_NAME@),
        ],
{
    marker_paths(root, COMPLETED_MARKER_NAME)
}

fn marker_paths(root: &str, name: &str) -> (r: Vec<String>)
    ensures
        r@.map_values(|p: String| p@) == seq![
            path_join(path_join(path_join(root@, "microstructure"@), "mlp"@), name@),
            path_join(path_join(path_join(root@, "microstructure"@), "liquid"@), name@),
        ],
{
    let micro = crate::text::path_join_str(root, "microstructure");
    let mlp = crate::text::path_join_str(micro.as_str(), "mlp");
    let liquid = crate::text::path_join_str(micro.as_str(), "liquid");
    let mut out: Vec<String> = Vec::new();
    out.push(crate::text::path_join_str(mlp.as_str(), name));
    out.push(crate::text::path_join_str(liquid.as_str(), name));
    assert(out@.map_values(|p: String| p@) =~= seq![
        path_join(path_join(path_join(root@, "microstructure"@), "mlp"@), name@),
        path_join(path_join(path_join(root@, "microstructure"@), "liquid"@), name@),
    ]);
    out
}

/// Paths whose existence says that matrix training was started:
/// `matrix/{mlp,liquid}/{matching_pennies_weighted,rps_weighted}/latest.safetensors`.
pub fn matrix_checkpoint_paths(root: &str) -> (r: Vec<String>)
    ensures
        r@.len() == 4,
        forall|a: int, g: int|
            0 <= a < 2 && 0 <= g < 2 ==> #[trigger] r@[2 * a + g]@ == path_join(
                path_join(
                    path_join(path_join(root@, "matrix"@), seq!["mlp"@, "liquid"@][a]),
                    seq!["matching_pennies_weighted"@, "rps_weighted"@][g],
                ),
                LATEST_CHECKPOINT_NAME@,
            ),
{
    let matrix = crate::text::path_join_str(root, "matrix");
    let archs: [&str; 2] = ["mlp", "liquid"];
    let games: [&str; 2] = ["matching_pennies_weighted", "rps_weighted"];
    let mut out: Vec<String> = Vec::new();
    for a in 0..2usize
        invariant
            matrix@ == path_join(root@, "matrix"@),
            archs@ == seq!["mlp", "liquid"],
            games@ == seq!["matching_pennies_weighted", "rps_weighted"],
            out@.len() == 2 * a,
            forall|x: int, g: int|
                0 <= x < a && 0 <= g < 2 ==> #[trigger] out@[2 * x + g]@ == path_join(
                    path_join(
                        path_join(path_join(root@, "matrix"@), seq!["mlp"@, "liquid"@][x]),
                        seq!["matching_pennies_weighted"@, "rps_weighted"@][g],
                    ),
                    LATEST_CHECKPOINT_NAME@,
                ),
    {
        let arch_dir = crate::text::path_join_str(matrix.as_str(), archs[a]);
        for g in 0..2usize
            invariant
                matrix@ == path_join(root@, "matrix"@),
                archs@ == seq!["mlp", "liquid"],
                games@ == seq!["matching_pennies_weighted", "rps_weighted"],
                a < 2,
                arch_dir@ == path_join(path_join(root@, "matrix"@), seq!["mlp"@, "liquid"@][a as int]),
                out@.len() == 2 * a + g,
                forall|x: int, h: int|
                    (0 <= x < a && 0 <= h < 2) || (x == a && 0 <= h < g) ==> #[trigger] out@[2 * x
                        + h]@ == path_join(
                        path_join(
                            path_join(path_join(root@, "matrix"@), seq!["mlp"@, "liquid"@][x]),
                            seq!["matching_pennies_weighted"@, "rps_weighted"@][h],
                        ),
                        LATEST_CHECKPOINT_NAME@,
                    ),
        {
            let game_dir = crate::text::path_join_str(arch_dir.as_str(), games[g]);
            out.push(crate::text::path_join_str(game_dir.as_str(), LATEST_CHECKPOINT_NAME));
        }
    }
    out
}

} // verus!

verus! {

// ---------------------------------------------------------------------------
// progress.json
// ---------------------------------------------------------------------------

pub open spec fn escape_char(c: char) -> Seq<char> {
    if c == '\\' {
        seq!['\\', '\\']
    } else if c == '"' {
        seq!['\\', '"']
    } else {
        seq![c]
    }
}

/// Backslashes doubled, then double quotes backslash-escaped.
pub open spec fn spec_escape_json(s: Seq<char>) -> Seq<char>
    decreases s.len(),
{
    if s.len() == 0 {
        Seq::<char>::empty()
    } else {
        spec_escape_json(s.drop_last()) + escape_char(s.last())
    }
}

pub fn escape_json(raw: &str) -> (r: String)
    ensures
        r@ == spec_escape_json(raw@),
{
    let cs = chars_of(raw);
    let mut out = String::new();
    for i in 0..cs.len()
        invariant
            cs@ == raw@,
            out@ == spec_escape_json(raw@.take(i as int)),
    {
        let c = cs[i];
        assert(raw@.take(i + 1).drop_last() =~= raw@.take(i as int));
        if c == '\\' {
            crate::text::push_char(&mut out, '\\');
            crate::text::push_char(&mut out, '\\');
        } else if c == '"' {
            crate::text::push_char(&mut out, '\\');
            crate::text::push_char(&mut out, '"');
        } else {
            crate::text::push_char(&mut out, c);
        }
        assert(out@ =~= spec_escape_json(raw@.take(i + 1)));
    }
    assert(raw@.take(raw@.len() as int) =~= raw@);
    out
}

pub open spec fn strip_sign(s: Seq<char>) -> Seq<char> {
    if s.len() > 0 && (s[0] == '+' || s[0] == '-') {
        s.drop_first()
    } else {
        s
    }
}

/// Mantissa of a decimal float literal: digits with at most one `.` and at
/// least one digit.
pub open spec fn mantissa_ok(m: Seq<char>) -> bool {
    match split_once(m, '.') {
        None => m.len() > 0 && crate::text::all_digits(m),
        Some((a, b)) => crate::text::all_digits(a) && crate::text::all_digits(b) && (a.len() > 0
            || b.len() > 0),
    }
}

pub open spec fn exponent_ok(x: Seq<char>) -> bool {
    let d = strip_sign(x);
    d.len() > 0 && crate::text::all_digits(d)
}

pub open spec fn number_ok(b: Seq<char>) -> bool {
    match split_once(b, 'e') {
        None => mantissa_ok(b),
        Some((m, x)) => mantissa_ok(m) && exponent_ok(x),
    }
}

/// Strings that `str::parse::<f64>` accepts, by the grammar in its
/// documentation read on the lower-cased text:
/// `Sign? ('inf' | 'infinity' | 'nan' | Number)`,
/// `Number ::= (Digit+ | Digit+ '.' Digit* | Digit* '.' Digit+) Exp?`,
/// `Exp ::= 'e' Sign? Digit+`.
pub open spec fn is_float_literal(s: Seq<char>) -> bool {
    let b = strip_sign(ascii_lower(s));
    b == "inf"@ || b == "infinity"@ || b == "nan"@ || number_ok(b)
}

fn strip_sign_chars(s: &[char]) -> (r: Vec<char>)
    ensures
        r@ == strip_sign(s@),
{
    if s.len() > 0 && (s[0] == '+' || s[0] == '-') {
        skip_chars(s, 1)
    } else {
        skip_chars(s, 0)
    }
}

fn mantissa_ok_exec(m: &[char]) -> (r: bool)
    ensures
        r == mantissa_ok(m@),
{
    match split_once_chars(m, '.') {
        None => m.len() > 0 && all_digit_chars(m),
        Some((a, b)) => all_digit_chars(a.as_slice()) && all_digit_chars(b.as_slice()) && (a.len()
            > 0 || b.len() > 0),
    }
}

/// Whether `str::parse::<f64>` accepts `s`.
pub fn parses_as_float(s: &[char]) -> (r: bool)
    ensures
        r == is_float_literal(s@),
{
    let l = to_lower(s);
    let b = strip_sign_chars(l.as_slice());
    let bs = b.as_slice();
    if eq_lit(bs, "inf") || eq_lit(bs, "infinity") || eq_lit(bs, "nan") {
        return true;
    }
    match split_once_chars(bs, 'e') {
        None => mantissa_ok_exec(bs),
        Some((m, x)) => {
            let d = strip_sign_chars(x.as_slice());
            mantissa_ok_exec(m.as_slice()) && d.len() > 0 && all_digit_chars(d.as_slice())
        },
    }
}

/// A progress value is written raw when it already reads as JSON (an object,
/// an array, a number or a boolean), else as an escaped string.
pub open spec fn spec_json_value(raw: Seq<char>) -> Seq<char> {
    let t = trim(raw);
    if starts_with(t, "{"@) || starts_with(t, "["@) || is_float_literal(t) || t == "true"@ || t
        == "false"@ {
        t
    } else {
        "\""@ + spec_escape_json(raw) + "\""@
    }
}

pub fn json_string_or_raw(raw: &str) -> (r: String)
    ensures
        r@ == spec_json_value(raw@),
{
    let cs = chars_of(raw);
    let t = trim_chars(cs.as_slice());
    let ts = t.as_slice();
    let brace = chars_of("{");
    let bracket = chars_of("[");
    if starts_with_chars(ts, brace.as_slice()) || starts_with_chars(ts, bracket.as_slice())
        || parses_as_float(ts) || eq_lit(ts, "true") || eq_lit(ts, "false") {
        return string_from_chars(ts);
    }
    let mut out = str_to_string("\"");
    let e = escape_json(raw);
    push_str(&mut out, e.as_str());
    push_str(&mut out, "\"");
    out
}

pub open spec fn quoted(s: Seq<char>) -> Seq<char> {
    "\""@ + s + "\""@
}

/// `"a", "b", …` — job names are quoted but not escaped.
pub open spec fn jobs_json(jobs: Seq<Seq<char>>) -> Seq<char>
    decreases jobs.len(),
{
    if jobs.len() == 0 {
        Seq::<char>::empty()
    } else if jobs.len() == 1 {
        quoted(jobs[0])
    } else {
        jobs_json(jobs.drop_last()) + ", "@ + quoted(jobs.last())
    }
}

/// One extra field of `progress.json` on a line of its own.
#[verifier::opaque]
pub open spec fn extra_field(key: Seq<char>, value: Seq<char>) -> Seq<char> {
    ",\n  \""@ + spec_escape_json(key) + "\": "@ + spec_json_value(value)
}

pub open spec fn extras_json(extras: Seq<(Seq<char>, Seq<char>)>) -> Seq<char>
    decreases extras.len(),
{
    if extras.len() == 0 {
        Seq::<char>::empty()
    } else {
        extras_json(extras.drop_last()) + extra_field(extras.last().0, extras.last().1)
    }
}

/// Body of `progress.json`: goal, date, jobs, reason and extra fields.
pub open spec fn spec_progress_body(
    date: Seq<char>,
    jobs: Seq<Seq<char>>,
    reason: Seq<char>,
    extras: Seq<(Seq<char>, Seq<char>)>,
) -> Seq<char> {
    "{\n  \"goal\": \""@ + spec_escape_json(BROAD_GOAL@) + "\",\n  \"date\": \""@ + spec_escape_json(
        date,
    ) + "\",\n  \"jobs\": ["@ + jobs_json(jobs) + "],\n  \"reason\": \""@ + spec_escape_json(reason)
        + "\""@ + extras_json(extras) + "\n}\n"@
}

pub open spec fn extras_view(extras: Seq<(&str, &str)>) -> Seq<(Seq<char>, Seq<char>)> {
    extras.map_values(|e: (&str, &str)| (e.0@, e.1@))
}


proof fn lemma_extras_json_step(ev: Seq<(Seq<char>, Seq<char>)>, i: int, k: Seq<char>, v: Seq<char>)
    requires
        0 <= i < ev.len(),
        ev[i] == (k, v),
    ensures
        extras_json(ev.take(i + 1)) == extras_json(ev.take(i)) + extra_field(k, v),
{
    let t = ev.take(i + 1);
    assert(t.drop_last() =~= ev.take(i));
    assert(t.last() == (k, v));
}

proof fn lemma_take_all<T>(s: Seq<T>)
    ensures
        s.take(s.len() as int) == s,
{
    assert(s.take(s.len() as int) =~= s);
}

/// One extra field of `progress.json` on a line of its own.
fn extra_field_text(key: &str, value: &str) -> (r: String)
    ensures
        r@ == extra_field(key@, value@),
{
    proof {
        reveal(extra_field);
    }
    let mut piece = str_to_string(",\n  \"");
    let ek = escape_json(key);
    push_str(&mut piece, ek.as_str());
    push_str(&mut piece, "\": ");
    let jv = json_string_or_raw(value);
    push_str(&mut piece, jv.as_str());
    piece
}

/// The extra fields of `progress.json`, each on a line of its own.
fn extras_text(extras: &[(&str, &str)]) -> (r: String)
    ensures
        r@ == extras_json(extras_view(extras@)),
{
    let ghost ev = extras_view(extras@);
    let mut extra = String::new();
    let mut i: usize = 0;
    while i < extras.len()
        invariant
            i <= extras@.len(),
            ev == extras_view(extras@),
            extra@ == extras_json(ev.take(i as int)),
        decreases extras@.len() - i,
    {
        let (k, v) = extras[i];
        let piece = extra_field_text(k, v);
        proof {
            lemma_extras_json_step(ev, i as int, k@, v@);
        }
        push_str(&mut extra, piece.as_str());
        i = i + 1;
    }
    proof {
        lemma_take_all(ev);
    }
    extra
}

/// Text written to `progress.json` for a training window.
pub fn progress_log_body(date: &str, gap: &TrainGap, extras: &[(&str, &str)]) -> (r: String)
    ensures
        r@ == spec_progress_body(date@, gap.job_texts(), gap.reason@, extras_view(extras@)),
{
    let mut jobs = String::new();
    for i in 0..gap.jobs.len()
        invariant
            jobs@ == jobs_json(gap.job_texts().take(i as int)),
    {
        let ghost js = gap.job_texts();
        assert(js.take(i + 1).drop_last() =~= js.take(i as int));
        if i > 0 {
            push_str(&mut jobs, ", ");
        }
        push_str(&mut jobs, "\"");
        push_str(&mut jobs, gap.jobs[i].as_str());
        push_str(&mut jobs, "\"");
        proof {
            if i == 0 {
                assert(js.take(1)[0] == js[0]);
                assert(jobs@ =~= quoted(js[0]));
            } else {
                assert(jobs@ =~= jobs_json(js.take(i as int)) + ", "@ + quoted(js[i as int]));
            }
        }
    }
    assert(gap.job_texts().take(gap.jobs@.len() as int) =~= gap.job_texts());
    let extra = extras_text(extras);
    let mut body = str_to_string("{\n  \"goal\": \"");
    let g = escape_json(BROAD_GOAL);
    push_str(&mut body, g.as_str());
    push_str(&mut body, "\",\n  \"date\": \"");
    let d = escape_json(date);
    push_str(&mut body, d.as_str());
    push_str(&mut body, "\",\n  \"jobs\": [");
    push_str(&mut body, jobs.as_str());
    push_str(&mut body, "],\n  \"reason\": \"");
    let rs = escape_json(gap.reason.as_str());
    push_str(&mut body, rs.as_str());
    push_str(&mut body, "\"");
    push_str(&mut body, extra.as_str());
    push_str(&mut body, "\n}\n");
    body
}

} // verus!

verus! {

// ---------------------------------------------------------------------------
// Syncing with the upstream branch before a local slice
// ---------------------------------------------------------------------------

/// One git command of the upstream sync.
#[derive(Debug, Clone, PartialEq, Eq)]
pub enum GitStep {
    /// `git rev-parse --is-inside-work-tree`
    CheckWorkTree,
    /// `git fetch origin`
    Fetch,
    /// `git diff --quiet`
    DiffQuiet,
    /// `git diff --cached --quiet`
    DiffCachedQuiet,
    /// `git rev-parse --abbrev-ref --symbolic-full-name @{u}`
    CheckUpstream,
    /// `git rebase @{u}`
    Rebase,
    /// `git rebase --abort`, then report the carried message.
    AbortRebase(String),
}

/// What running a step's command gave: it could not be started (`ran` is
/// false and `detail` is the error's text), or it exited with `success`
/// and wrote `detail` to standard error.
#[derive(Debug, Clone, PartialEq, Eq)]
pub struct GitOutcome {
    pub ran: bool,
    pub success: bool,
    pub detail: String,
}

/// Run the next command, or stop with the note for the log.
#[derive(Debug, Clone, PartialEq, Eq)]
pub enum GitSyncAction {
    Run(GitStep),
    Finish(String),
}

pub open spec fn git_step_args(step: GitStep) -> Seq<Seq<char>> {
    match step {
        GitStep::CheckWorkTree => seq!["rev-parse"@, "--is-inside-work-tree"@],
        GitStep::Fetch => seq!["fetch"@, "origin"@],
        GitStep::DiffQuiet => seq!["diff"@, "--quiet"@],
        GitStep::DiffCachedQuiet => seq!["diff"@, "--cached"@, "--quiet"@],
        GitStep::CheckUpstream => seq![
            "rev-parse"@,
            "--abbrev-ref"@,
            "--symbolic-full-name"@,
            "@{u}"@,
        ],
        GitStep::Rebase => seq!["rebase"@, "@{u}"@],
        GitStep::AbortRebase(_) => seq!["rebase"@, "--abort"@],
    }
}

pub open spec fn spec_git_next(step: GitStep, ran: bool, success: bool, detail: Seq<char>) -> (
    Option<GitStep>,
    Seq<char>,
) {
    let ok = ran && success;
    match step {
        GitStep::CheckWorkTree => if ok {
            (Some(GitStep::Fetch), Seq::<char>::empty())
        } else {
            (None, "warn: not a git work tree; skipping fetch"@)
        },
        GitStep::Fetch => if ok {
            (Some(GitStep::DiffQuiet), Seq::<char>::empty())
        } else if ran {
            (
                None,
                "warn: git fetch origin failed ("@ + trim(detail)
                    + "); continuing with local tree"@,
            )
        } else {
            (None, "warn: git fetch origin failed ("@ + detail + "); continuing with local tree"@)
        },
        GitStep::DiffQuiet => if ok {
            (Some(GitStep::DiffCachedQuiet), Seq::<char>::empty())
        } else {
            (
                None,
                "warn: uncommitted changes; fetched but skipping rebase so local work is not destroyed"@,
            )
        },
        GitStep::DiffCachedQuiet => if ok {
            (Some(GitStep::CheckUpstream), Seq::<char>::empty())
        } else {
            (
                None,
                "warn: uncommitted changes; fetched but skipping rebase so local work is not destroyed"@,
            )
        },
        GitStep::CheckUpstream => if ok {
            (Some(GitStep::Rebase), Seq::<char>::empty())
        } else {
            (None, "warn: no upstream tracking branch; fetched but skipping rebase"@)
        },
        GitStep::Rebase => if ok {
            (None, "fetched origin; rebased onto @{u}"@)
        } else if ran {
            (
                None,
                "warn: git rebase @{u} failed ("@ + trim(detail)
                    + "); aborted rebase and continuing"@,
            )
        } else {
            (None, "warn: git rebase @{u} failed ("@ + detail + "); continuing with local tree"@)
        },
        GitStep::AbortRebase(msg) => (None, msg@),
    }
}

/// After a failed rebase the abort still runs before the note is returned.
pub open spec fn spec_git_action_ok(step: GitStep, outcome: GitOutcome, r: GitSyncAction) -> bool {
    let (next, note) = spec_git_next(step, outcome.ran, outcome.success, outcome.detail@);
    match next {
        Some(s) => r == GitSyncAction::Run(s),
        None => if step is Rebase && !(outcome.ran && outcome.success) {
            r matches GitSyncAction::Run(GitStep::AbortRebase(m)) && m@ == note
        } else {
            r matches GitSyncAction::Finish(m) && m@ == note
        },
    }
}

impl GitStep {
    /// Arguments of the `git` command for this step.
    pub fn args(&self) -> (r: Vec<String>)
        ensures
            r@.map_values(|a: String| a@) == git_step_args(*self),
    {
        let items: Vec<&str> = match self {
            GitStep::CheckWorkTree => vec!["rev-parse", "--is-inside-work-tree"],
            GitStep::Fetch => vec!["fetch", "origin"],
            GitStep::DiffQuiet => vec!["diff", "--quiet"],
            GitStep::DiffCachedQuiet => vec!["diff", "--cached", "--quiet"],
            GitStep::CheckUpstream => vec!["rev-parse", "--abbrev-ref", "--symbolic-full-name", "@{u}"],
            GitStep::Rebase => vec!["rebase", "@{u}"],
            GitStep::AbortRebase(_) => vec!["rebase", "--abort"],
        };
        let r = strings_from(items.as_slice());
        assert(items@.map_values(|s: &str| s@) =~= git_step_args(*self));
        r
    }
}

/// The first command of the sync.
pub fn git_sync_start() -> (r: GitStep)
    ensures
        r == GitStep::CheckWorkTree,
{
    GitStep::CheckWorkTree
}

fn note3(a: &str, mid: &str, b: &str) -> (r: String)
    ensures
        r@ == a@ + mid@ + b@,
{
    let mut s = str_to_string(a);
    push_str(&mut s, mid);
    push_str(&mut s, b);
    s
}

/// Decides what follows a step of the upstream sync: fetch `origin`, and
/// rebase onto `@{u}` only when the tree is clean and an upstream exists.
pub fn git_sync_next(step: &GitStep, outcome: &GitOutcome) -> (r: GitSyncAction)
    ensures
        spec_git_action_ok(*step, *outcome, r),
{
    let ok = outcome.ran && outcome.success;
    let trimmed = {
        let cs = chars_of(outcome.detail.as_str());
        let t = trim_chars(cs.as_slice());
        string_from_chars(t.as_slice())
    };
    match step {
        GitStep::CheckWorkTree => if ok {
            GitSyncAction::Run(GitStep::Fetch)
        } else {
            GitSyncAction::Finish(str_to_string("warn: not a git work tree; skipping fetch"))
        },
        GitStep::Fetch => if ok {
            GitSyncAction::Run(GitStep::DiffQuiet)
        } else if outcome.ran {
            GitSyncAction::Finish(
                note3(
                    "warn: git fetch origin failed (",
                    trimmed.as_str(),
                    "); continuing with local tree",
                ),
            )
        } else {
            GitSyncAction::Finish(
                note3(
                    "warn: git fetch origin failed (",
                    outcome.detail.as_str(),
                    "); continuing with local tree",
                ),
            )
        },
        GitStep::DiffQuiet => if ok {
            GitSyncAction::Run(GitStep::DiffCachedQuiet)
        } else {
            GitSyncAction::Finish(
                str_to_string(
                    "warn: uncommitted changes; fetched but skipping rebase so local work is not destroyed",
                ),
            )
        },
        GitStep::DiffCachedQuiet => if ok {
            GitSyncAction::Run(GitStep::CheckUpstream)
        } else {
            GitSyncAction::Finish(
                str_to_string(
                    "warn: uncommitted changes; fetched but skipping rebase so local work is not destroyed",
                ),
            )
        },
        GitStep::CheckUpstream => if ok {
            GitSyncAction::Run(GitStep::Rebase)
        } else {
            GitSyncAction::Finish(
                str_to_string("warn: no upstream tracking branch; fetched but skipping rebase"),
            )
        },
        GitStep::Rebase => if ok {
            GitSyncAction::Finish(str_to_string("fetched origin; rebased onto @{u}"))
        } else if outcome.ran {
            GitSyncAction::Run(
                GitStep::AbortRebase(
                    note3(
                        "warn: git rebase @{u} failed (",
                        trimmed.as_str(),
                        "); aborted rebase and continuing",
                    ),
                ),
            )
        } else {
            GitSyncAction::Run(
                GitStep::AbortRebase(
                    note3(
                        "warn: git rebase @{u} failed (",
                        outcome.detail.as_str(),
                        "); continuing with local tree",
                    ),
                ),
            )
        },
        GitStep::AbortRebase(msg) => GitSyncAction::Finish(
            {
                let cs = chars_of(msg.as_str());
                string_from_chars(cs.as_slice())
            },
        ),
    }
}

/// Session id of a local training slice: `sim-SYNTHUSDT-` and the trimmed
/// `date +%Y%m%dT%H%M%S` output, or `local` when there is none.
pub open spec fn spec_session_id(stamp_output: Option<Seq<char>>) -> Seq<char> {
    "sim-SYNTHUSDT-"@ + match stamp_output {
        Some(s) => if trim(s).len() > 0 {
            trim(s)
        } else {
            "local"@
        },
        None => "local"@,
    }
}

pub fn local_session_id(stamp_output: Option<&str>) -> (r: String)
    ensures
        r@ == spec_session_id(
            match stamp_output {
                Some(s) => Some(s@),
                None => None,
            },
        ),
{
    let mut id = str_to_string("sim-SYNTHUSDT-");
    match stamp_output {
        Some(s) => {
            let cs = chars_of(s);
            let t = trim_chars(cs.as_slice());
            if t.len() > 0 {
                push_chars(&mut id, t.as_slice());
            } else {
                push_str(&mut id, "local");
            }
        },
        None => {
            push_str(&mut id, "local");
        },
    }
    id
}

} // verus!

verus! {

/// ClickHouse state of a prepared local training slice. The tick tape the
/// slice trains on travels beside it.
#[derive(Debug, Clone)]
pub struct LocalTrainPrep {
    pub session_id: String,
    pub ticks_written: usize,
    pub data_window: String,
    pub clickhouse_ok: bool,
    pub note: String,
}

pub open spec fn inserted_note(ticks_written: usize, session_id: Seq<char>) -> Seq<char> {
    "inserted+reloaded "@ + decimal(ticks_written as nat) + " ticks session="@ + session_id
}

impl LocalTrainPrep {
    /// The record of a slice whose ticks were inserted into ClickHouse and
    /// read back.
    pub fn inserted(session_id: &str, ticks_written: usize, data_window: &str) -> (r: Self)
        ensures
            r.session_id@ == session_id@,
            r.ticks_written == ticks_written,
            r.data_window@ == data_window@,
            r.clickhouse_ok,
            r.note@ == inserted_note(ticks_written, session_id@),
    {
        let mut note = str_to_string("inserted+reloaded ");
        let n = decimal_string(ticks_written as u64);
        push_str(&mut note, n.as_str());
        push_str(&mut note, " ticks session=");
        push_str(&mut note, session_id);
        proof {
            reveal_strlit("inserted+reloaded ");
            reveal_strlit(" ticks session=");
        }
        LocalTrainPrep {
            session_id: str_to_string(session_id),
            ticks_written,
            data_window: str_to_string(data_window),
            clickhouse_ok: true,
            note,
        }
    }
}

pub open spec fn insert_failed_text(url: Seq<char>, err: Seq<char>) -> Seq<char> {
    "training bails: ClickHouse is reachable at "@ + url + " but insert failed ("@ + err + ")"@
}

/// Why a slice bails when ClickHouse answers but the tick insert fails.
pub fn insert_failed_error(url: &str, err: &str) -> (r: String)
    ensures
        r@ == insert_failed_text(url@, err@),
{
    let mut s = str_to_string("training bails: ClickHouse is reachable at ");
    push_str(&mut s, url);
    push_str(&mut s, " but insert failed (");
    push_str(&mut s, err);
    push_str(&mut s, ")");
    s
}

} // verus!

verus! {

// ---------------------------------------------------------------------------
// Command line and slice budget of the orchestrator binary
// ---------------------------------------------------------------------------

/// What one run of the orchestrator does.
#[derive(Debug, Clone, Copy, PartialEq, Eq, Structural)]
pub enum Mode {
    Once,
    Continue,
    Daemon,
    Probe,
}

/// Outcome of reading the command line.
#[derive(Debug, Clone, PartialEq, Eq)]
pub enum ModeChoice {
    Run(Mode),
    /// `-h` / `--help`: print usage and exit successfully.
    Help,
    /// An argument that is not an option: print usage and exit with status 2.
    Unknown(String),
}

/// The outcome as a spec value, an unknown argument by its characters.
pub enum ModeOutcome {
    Run(Mode),
    Help,
    Unknown(Seq<char>),
}

pub open spec fn choice_view(c: ModeChoice) -> ModeOutcome {
    match c {
        ModeChoice::Run(m) => ModeOutcome::Run(m),
        ModeChoice::Help => ModeOutcome::Help,
        ModeChoice::Unknown(a) => ModeOutcome::Unknown(a@),
    }
}

/// Reads the arguments left to right: each option sets the mode, the last
/// one wins; help or an unknown argument stops the scan.
pub open spec fn spec_scan_args(args: Seq<Seq<char>>, mode: Mode) -> ModeOutcome
    decreases args.len(),
{
    if args.len() == 0 {
        ModeOutcome::Run(mode)
    } else {
        let a = args[0];
        let rest = args.drop_first();
        if a == "--once"@ {
            spec_scan_args(rest, Mode::Once)
        } else if a == "--continue"@ || a == "--continue-local"@ {
            spec_scan_args(rest, Mode::Continue)
        } else if a == "--daemon"@ {
            spec_scan_args(rest, Mode::Daemon)
        } else if a == "--probe"@ {
            spec_scan_args(rest, Mode::Probe)
        } else if a == "-h"@ || a == "--help"@ {
            ModeOutcome::Help
        } else {
            ModeOutcome::Unknown(a)
        }
    }
}

/// `TROLLY_CONTINUE_LOCAL` switches continue mode on when it is `1` or
/// `true` (ASCII case ignored).
pub open spec fn continue_requested(env: Option<&str>) -> bool {
    match env {
        Some(v) => v@ == "1"@ || crate::text::eq_ignore_case(v@, "true"@),
        None => false,
    }
}

pub open spec fn args_view(args: Seq<String>) -> Seq<Seq<char>> {
    args.map_values(|a: String| a@)
}

/// Mode chosen from `TROLLY_CONTINUE_LOCAL` and the arguments: a request to
/// continue wins, else the arguments are scanned from the default `once`.
pub open spec fn spec_mode(continue_env: Option<&str>, args: Seq<Seq<char>>) -> ModeOutcome {
    if continue_requested(continue_env) {
        ModeOutcome::Run(Mode::Continue)
    } else {
        spec_scan_args(args, Mode::Once)
    }
}

/// Mode of the orchestrator from `TROLLY_CONTINUE_LOCAL` (`None` when unset)
/// and the arguments after the program name.
pub fn parse_mode(continue_env: Option<&str>, args: &[String]) -> (r: ModeChoice)
    ensures
        choice_view(r) == spec_mode(continue_env, args_view(args@)),
{
    if let Some(v) = continue_env {
        let cs = chars_of(v);
        let t = chars_of("true");
        if eq_lit(cs.as_slice(), "1") || crate::text::eq_ignore_ascii_case(
            cs.as_slice(),
            t.as_slice(),
        ) {
            return ModeChoice::Run(Mode::Continue);
        }
    }
    let ghost all = args_view(args@);
    let mut mode = Mode::Once;
    let mut i: usize = 0;
    assert(all.skip(0) =~= all);
    while i < args.len()
        invariant
            !continue_requested(continue_env),
            i <= args.len(),
            all == args_view(args@),
            spec_scan_args(all, Mode::Once) == spec_scan_args(all.skip(i as int), mode),
        decreases args.len() - i,
    {
        let cs = chars_of(args[i].as_str());
        let a = cs.as_slice();
        proof {
            assert(all.skip(i as int)[0] == args@[i as int]@);
            assert(all.skip(i as int).drop_first() =~= all.skip(i + 1));
        }
        if eq_lit(a, "--once") {
            mode = Mode::Once;
        } else if eq_lit(a, "--continue") || eq_lit(a, "--continue-local") {
            mode = Mode::Continue;
        } else if eq_lit(a, "--daemon") {
            mode = Mode::Daemon;
        } else if eq_lit(a, "--probe") {
            mode = Mode::Probe;
        } else if eq_lit(a, "-h") || eq_lit(a, "--help") {
            return ModeChoice::Help;
        } else {
            return ModeChoice::Unknown(str_to_string(args[i].as_str()));
        }
        i = i + 1;
    }
    proof {
        assert(all.skip(i as int) =~= Seq::<Seq<char>>::empty());
    }
    ModeChoice::Run(mode)
}

/// Seconds a training window may use: what is left of the working window,
/// capped by `TROLLY_TRAIN_DURATION_SECS` when that is set, and at least one.
pub fn window_budget(remaining_secs: u64, cap: Option<u64>) -> (r: u64)
    ensures
        r == {
            let c = match cap {
                Some(c) => c,
                None => remaining_secs,
            };
            let m = if remaining_secs < c {
                remaining_secs
            } else {
                c
            };
            if m < 1 {
                1
            } else {
                m
            }
        },
{
    let c = match cap {
        Some(c) => c,
        None => remaining_secs,
    };
    let m = if remaining_secs < c {
        remaining_secs
    } else {
        c
    };
    if m < 1 {
        1
    } else {
        m
    }
}

/// Seconds each job gets: an equal share of the budget, at least one.
pub fn job_slice_secs(budget: u64, jobs: usize) -> (r: u64)
    requires
        jobs > 0,
    ensures
        r == if budget / (jobs as u64) < 1 {
            1
        } else {
            budget / (jobs as u64)
        },
{
    let share = budget / (jobs as u64);
    if share < 1 {
        1
    } else {
        share
    }
}

/// How long the daemon sleeps before looking at the clock again: the wait
/// for the next window, at least one second and at most an hour.
pub fn daemon_sleep_secs(wait: u64) -> (r: u64)
    ensures
        r == if wait < 1 {
            1
        } else if wait > 3600 {
            3600
        } else {
            wait
        },
{
    let w = if wait < 1 {
        1
    } else {
        wait
    };
    if w > 3600 {
        3600
    } else {
        w
    }
}

} // verus!

verus! {

/// A job the orchestrator knows how to train.
#[derive(Debug, Clone, Copy, PartialEq, Eq, Structural)]
pub enum TrainJob {
    Matrix,
    Microstructure,
}

pub open spec fn unknown_job_text(job: Seq<char>) -> Seq<char> {
    "unknown TROLLY_TRAIN_JOBS entry: "@ + job
}

/// The trainer behind a job name; any other name stops the window.
pub fn classify_job(job: &str) -> (r: Result<TrainJob, String>)
    ensures
        job@ == "matrix"@ ==> r == Ok::<TrainJob, String>(TrainJob::Matrix),
        job@ == "microstructure"@ ==> r == Ok::<TrainJob, String>(TrainJob::Microstructure),
        job@ != "matrix"@ && job@ != "microstructure"@ ==> (r matches Err(e) && e@
            == unknown_job_text(job@)),
{
    let cs = chars_of(job);
    proof {
        reveal_strlit("matrix");
        reveal_strlit("microstructure");
        assert("matrix"@.len() != "microstructure"@.len());
    }
    if eq_lit(cs.as_slice(), "matrix") {
        Ok(TrainJob::Matrix)
    } else if eq_lit(cs.as_slice(), "microstructure") {
        Ok(TrainJob::Microstructure)
    } else {
        let mut e = str_to_string("unknown TROLLY_TRAIN_JOBS entry: ");
        push_str(&mut e, job);
        Err(e)
    }
}

/// `TROLLY_TRAIN_DURATION_SECS` read from the environment (`None` when
/// unset): its value when it parses as a `u64`.
pub fn duration_secs_setting(raw: Option<&str>) -> (r: Option<u64>)
    ensures
        r == match raw {
            Some(s) => match parse_unsigned(s@, u64::MAX as nat) {
                Some(n) => Some(n as u64),
                None => None::<u64>,
            },
            None => None::<u64>,
        },
{
    match raw {
        Some(s) => {
            let cs = chars_of(s);
            parse_u64_chars(cs.as_slice())
        },
        None => None,
    }
}

} // verus!

verus! {

// ---------------------------------------------------------------------------
// Laws of the working-hours schedule
// ---------------------------------------------------------------------------

/// Weekday reached `t` minutes after minute `m` of weekday `wd`.
pub open spec fn advance_day(wd: int, m: int, t: int) -> int {
    (wd - 1 + (m + t) / 1440) % 7 + 1
}

/// Minute of the day reached `t` minutes after minute `m`.
pub open spec fn advance_minute(m: int, t: int) -> int {
    (m + t) % 1440
}

impl WorkingHours {
    /// Day offset `k` is where the next-window search stops: its day is
    /// enabled and, for today, the window has not opened yet.
    pub open spec fn opens_at(&self, wd: int, m: int, k: int) -> bool {
        self.enabled(spec_wrap_weekday(wd, k)) && (k > 0 || m < self.start_minutes)
    }

    /// Minutes from minute `m` to the opening of the window `k` days on.
    pub open spec fn minutes_to_open(&self, m: int, k: int) -> int {
        if k == 0 {
            self.start_minutes - m
        } else {
            (1440 - m) + (k - 1) * 1440 + self.start_minutes
        }
    }
}

proof fn lemma_search_defined(hours: WorkingHours, wd: int, m: int, off: nat)
    requires
        1 <= wd <= 7,
        0 <= m < 1440,
        hours.start_minutes < 1440,
        off <= 8,
    ensures
        hours.wait_from(wd, m, off) is Secs,
    decreases 8 - off,
{
    if off < 8 {
        lemma_search_defined(hours, wd, m, off + 1);
    }
}

proof fn lemma_search_finds(hours: WorkingHours, wd: int, m: int, off: nat, w: int) -> (k: int)
    requires
        1 <= wd <= 7,
        0 <= m < 1440,
        hours.start_minutes < 1440,
        off <= w < 8,
        hours.opens_at(wd, m, w),
    ensures
        off <= k <= w,
        hours.opens_at(wd, m, k),
        forall|j: int| off <= j < k ==> !hours.opens_at(wd, m, j),
        hours.wait_from(wd, m, off) == WaitResult::Secs((hours.minutes_to_open(m, k) * 60) as nat),
    decreases 8 - off,
{
    if hours.opens_at(wd, m, off as int) {
        assert(hours.minutes_to_open(m, off as int) <= 1440 + 6 * 1440 + 1440) by (nonlinear_arith)
            requires
                off <= 7,
                0 <= m < 1440,
                hours.start_minutes < 1440,
                hours.minutes_to_open(m, off as int) == if off == 0 {
                    hours.start_minutes - m
                } else {
                    (1440 - m) + (off - 1) * 1440 + hours.start_minutes
                },
        ;
        off as int
    } else {
        lemma_search_finds(hours, wd, m, off + 1, w)
    }
}

/// Inside a valid week and day, with a start time inside the day, the
/// next-window search never overflows its minute sums: the bound that
/// `secs_until_next_window` requires always holds.
pub proof fn lemma_next_window_defined(hours: WorkingHours, wd: int, m: int)
    requires
        1 <= wd <= 7,
        0 <= m < 1440,
        hours.start_minutes < 1440,
    ensures
        hours.wait_defined(wd, m),
{
    lemma_search_defined(hours, wd, m, 0);
}

/// The wait is zero exactly inside the window.
pub proof fn lemma_next_window_zero_iff_inside(hours: WorkingHours, wd: int, m: int)
    requires
        1 <= wd <= 7,
        0 <= m < 1440,
        hours.start_minutes < 1440,
    ensures
        hours.spec_secs_until_next_window(wd, m) == 0 <==> hours.in_window(wd, m),
{
    if !hours.in_window(wd, m) {
        lemma_search_defined(hours, wd, m, 0);
        if exists|k: int| 0 <= k < 8 && hours.opens_at(wd, m, k) {
            let w = choose|k: int| 0 <= k < 8 && hours.opens_at(wd, m, k);
            let k = lemma_search_finds(hours, wd, m, 0, w);
            assert(hours.minutes_to_open(m, k) > 0) by (nonlinear_arith)
                requires
                    0 <= k,
                    0 <= m < 1440,
                    k == 0 ==> m < hours.start_minutes,
                    hours.minutes_to_open(m, k) == if k == 0 {
                        hours.start_minutes - m
                    } else {
                        (1440 - m) + (k - 1) * 1440 + hours.start_minutes
                    },
            ;
        } else {
            lemma_search_none(hours, wd, m, 0);
        }
    }
}

proof fn lemma_search_none(hours: WorkingHours, wd: int, m: int, off: nat)
    requires
        1 <= wd <= 7,
        0 <= m < 1440,
        off <= 8,
        forall|k: int| off <= k < 8 ==> !hours.opens_at(wd, m, k),
    ensures
        hours.wait_from(wd, m, off) == WaitResult::Secs(24 * 3600),
    decreases 8 - off,
{
    if off < 8 {
        assert(!hours.opens_at(wd, m, off as int));
        lemma_search_none(hours, wd, m, off + 1);
    }
}

proof fn lemma_advance_from_open(wd: int, m: int, k: int, start: int)
    requires
        1 <= wd <= 7,
        0 <= m < 1440,
        0 <= start < 1440,
        0 <= k <= 7,
        k == 0 ==> m < start,
    ensures
        ({
            let t = if k == 0 {
                start - m
            } else {
                (1440 - m) + (k - 1) * 1440 + start
            };
            &&& advance_minute(m, t) == start
            &&& advance_day(wd, m, t) == spec_wrap_weekday(wd, k)
        }),
{
    let t = if k == 0 {
        start - m
    } else {
        (1440 - m) + (k - 1) * 1440 + start
    };
    assert(m + t == k * 1440 + start) by (nonlinear_arith)
        requires
            t == if k == 0 {
                start - m
            } else {
                (1440 - m) + (k - 1) * 1440 + start
            },
    ;
    vstd::arithmetic::div_mod::lemma_fundamental_div_mod_converse(m + t, 1440, k, start);
    if wd - 1 + k >= 7 {
        vstd::arithmetic::div_mod::lemma_fundamental_div_mod_converse(wd - 1 + k, 7, 1, wd - 1 + k
            - 7);
    } else {
        vstd::arithmetic::div_mod::lemma_small_mod((wd - 1 + k) as nat, 7);
    }
}

proof fn lemma_advance_before_open(hours: WorkingHours, wd: int, m: int, k: int, t: int)
    requires
        1 <= wd <= 7,
        0 <= m < 1440,
        hours.start_minutes < 1440,
        0 <= k <= 7,
        hours.opens_at(wd, m, k),
        forall|j: int| 0 <= j < k ==> !hours.opens_at(wd, m, j),
        !hours.in_window(wd, m),
        0 <= t < hours.minutes_to_open(m, k),
    ensures
        !hours.in_window(advance_day(wd, m, t), advance_minute(m, t)),
{
    let start = hours.start_minutes as int;
    let total = m + t;
    let j = total / 1440;
    let minute = total % 1440;
    vstd::arithmetic::div_mod::lemma_fundamental_div_mod(total, 1440);
    assert(total < (k + 1) * 1440) by (nonlinear_arith)
        requires
            total == m + t,
            0 <= m < 1440,
            0 <= t,
            t < hours.minutes_to_open(m, k),
            start < 1440,
            hours.minutes_to_open(m, k) == if k == 0 {
                start - m
            } else {
                (1440 - m) + (k - 1) * 1440 + start
            },
    ;
    assert(0 <= j <= k) by (nonlinear_arith)
        requires
            total == 1440 * j + minute,
            0 <= minute < 1440,
            0 <= total < (k + 1) * 1440,
    ;
    if wd - 1 + j >= 7 {
        vstd::arithmetic::div_mod::lemma_fundamental_div_mod_converse(wd - 1 + j, 7, 1, wd - 1 + j
            - 7);
    } else {
        vstd::arithmetic::div_mod::lemma_small_mod((wd - 1 + j) as nat, 7);
    }
    assert(advance_day(wd, m, t) == spec_wrap_weekday(wd, j));
    if j == k {
        assert(minute < start) by (nonlinear_arith)
            requires
                total == 1440 * j + minute,
                j == k,
                total == m + t,
                t < hours.minutes_to_open(m, k),
                hours.minutes_to_open(m, k) == if k == 0 {
                    start - m
                } else {
                    (1440 - m) + (k - 1) * 1440 + start
                },
        ;
    } else if j == 0 {
        assert(!hours.opens_at(wd, m, 0));
        assert(minute == m + t);
    } else {
        assert(!hours.opens_at(wd, m, j));
    }
}

/// Outside the window, with some weekday enabled and a non-empty window,
/// the wait is a positive whole number of minutes that ends exactly at a
/// window opening, and no earlier minute on the way lies in a window.
pub proof fn lemma_next_window_lands(hours: WorkingHours, wd: int, m: int)
    requires
        1 <= wd <= 7,
        0 <= m < 1440,
        hours.start_minutes < hours.end_minutes,
        hours.start_minutes < 1440,
        exists|d: int| 1 <= d <= 7 && #[trigger] hours.weekdays@[d],
        !hours.in_window(wd, m),
    ensures
        hours.wait_defined(wd, m),
        ({
            let s = hours.spec_secs_until_next_window(wd, m) as int;
            &&& s > 0
            &&& s % 60 == 0
            &&& hours.in_window(advance_day(wd, m, s / 60), advance_minute(m, s / 60))
            &&& forall|t: int|
                0 <= t < s / 60 ==> !hours.in_window(
                    #[trigger] advance_day(wd, m, t),
                    advance_minute(m, t),
                )
        }),
{
    lemma_search_defined(hours, wd, m, 0);
    let d = choose|d: int| 1 <= d <= 7 && #[trigger] hours.weekdays@[d];
    let k0 = if d >= wd {
        d - wd
    } else {
        d - wd + 7
    };
    let w = if k0 == 0 && m >= hours.start_minutes {
        7
    } else {
        k0
    };
    assert(hours.opens_at(wd, m, w));
    let k = lemma_search_finds(hours, wd, m, 0, w);
    let mins = hours.minutes_to_open(m, k);
    assert(mins > 0) by (nonlinear_arith)
        requires
            0 <= k,
            0 <= m < 1440,
            k == 0 ==> m < hours.start_minutes,
            mins == if k == 0 {
                hours.start_minutes - m
            } else {
                (1440 - m) + (k - 1) * 1440 + hours.start_minutes
            },
    ;
    let s = hours.spec_secs_until_next_window(wd, m) as int;
    assert(s == mins * 60);
    assert(s / 60 == mins && s % 60 == 0) by (nonlinear_arith)
        requires
            s == mins * 60,
            mins > 0,
    ;
    lemma_advance_from_open(wd, m, k, hours.start_minutes as int);
    assert forall|t: int| 0 <= t < s / 60 implies !hours.in_window(
        #[trigger] advance_day(wd, m, t),
        advance_minute(m, t),
    ) by {
        lemma_advance_before_open(hours, wd, m, k, t);
    }
}

/// Job selection always yields at least one job and never an empty job name;
/// without an override, an incomplete microstructure track comes first.
pub proof fn lemma_select_jobs_nonempty(override_jobs: Option<Seq<char>>, tree: CheckpointTree)
    ensures
        spec_select_jobs(override_jobs, tree).0.len() >= 1,
        forall|i: int|
            0 <= i < spec_select_jobs(override_jobs, tree).0.len() ==> (
            #[trigger] spec_select_jobs(override_jobs, tree).0[i]).len() > 0,
        !(override_jobs is Some && spec_job_list(override_jobs->0).len() > 0)
            && !tree.microstructure_complete ==> spec_select_jobs(override_jobs, tree).0[0]
            == "microstructure"@,
{
    reveal_strlit("microstructure");
    reveal_strlit("matrix");
    if override_jobs is Some && spec_job_list(override_jobs->0).len() > 0 {
        let raw = override_jobs->0;
        let items = split_on(raw, ',').map_values(|p: Seq<char>| job_item(p));
        let pred = |j: Seq<char>| j.len() > 0;
        assert forall|i: int| 0 <= i < items.filter(pred).len() implies (#[trigger] items.filter(
            pred,
        )[i]).len() > 0 by {
            items.lemma_filter_pred(pred, i);
        }
    }
}

/// A device spec written out (`auto`, `cpu`, `cuda:N`) parses back to itself.
pub proof fn lemma_device_text_roundtrip(d: DeviceSpec)
    ensures
        spec_parse_device(device_text(d)) == Some(d),
{
    reveal_strlit("auto");
    reveal_strlit("cpu");
    reveal_strlit("cuda");
    reveal_strlit("gpu");
    reveal_strlit("rocm");
    reveal_strlit("hip");
    reveal_strlit("cuda:");
    reveal_strlit("");
    let t = device_text(d);
    match d {
        DeviceSpec::Cuda(i) => {
            crate::text::lemma_decimal_reads_back(i as nat);
            let digits = decimal(i as nat);
            assert(t.last() == digits.last());
            crate::text::lemma_trim_plain(t);
            assert(ascii_lower(t) =~= t);
            assert(t.skip(5) =~= digits);
            assert(t.take(5) =~= "cuda:"@);
            assert(starts_with(t, "cuda:"@));
            assert(t.len() > 5);
        },
        _ => {
            crate::text::lemma_trim_plain(t);
            assert(ascii_lower(t) =~= t);
        },
    }
}

/// Times read by `parse_hhmm` are minutes of one day.
pub proof fn lemma_parse_hhmm_in_day(raw: Seq<char>)
    ensures
        spec_parse_hhmm(raw) matches Some(m) ==> m < 1440,
{
}

/// Whitespace around a time is ignored: only the trimmed text is read.
pub proof fn lemma_parse_hhmm_ignores_edges(raw: Seq<char>)
    ensures
        spec_parse_hhmm(trim(raw)) == spec_parse_hhmm(raw),
{
    crate::text::lemma_trim_idempotent(raw);
}

/// Two-digit, zero-padded rendering of a number below 100 (`{:02}`).
pub open spec fn two_digits(n: nat) -> Seq<char> {
    seq![crate::text::digit_char(n / 10), crate::text::digit_char(n % 10)]
}

proof fn lemma_two_digits(n: nat)
    requires
        n < 100,
    ensures
        crate::text::all_digits(two_digits(n)),
        parse_unsigned(two_digits(n), 0xffff) == Some(n),
        two_digits(n)[0] != ':' && two_digits(n)[1] != ':',
        !crate::text::is_whitespace(two_digits(n)[0]),
        !crate::text::is_whitespace(two_digits(n)[1]),
{
    let t = two_digits(n);
    assert(crate::text::digit_value(crate::text::digit_char(n / 10)) == n / 10);
    assert(crate::text::digit_value(crate::text::digit_char(n % 10)) == n % 10);
    assert(t.drop_last().drop_last() =~= Seq::<char>::empty());
    assert(crate::text::digits_value(t.drop_last().drop_last()) == 0);
    assert(t.drop_last().last() == t[0]);
    assert(crate::text::digits_value(t.drop_last()) == n / 10);
    assert(crate::text::digits_value(t) == (n / 10) * 10 + n % 10);
    assert(crate::text::literal_body(t) == t);
}

/// `HH:MM` and `HHMM` written with two digits each read back as minutes
/// since midnight exactly when the hour is below 24 and the minute below 60.
pub proof fn lemma_parse_hhmm_round_trip(h: nat, m: nat)
    requires
        h < 100,
        m < 100,
    ensures
        spec_parse_hhmm(two_digits(h) + seq![':'] + two_digits(m)) == if h < 24 && m < 60 {
            Some((h * 60 + m) as u16)
        } else {
            None
        },
        spec_parse_hhmm(two_digits(h) + two_digits(m)) == if h < 24 && m < 60 {
            Some((h * 60 + m) as u16)
        } else {
            None
        },
{
    lemma_two_digits(h);
    lemma_two_digits(m);
    let a = two_digits(h) + seq![':'] + two_digits(m);
    assert(a.len() == 5);
    crate::text::lemma_trim_plain(a);
    assert(a[2] == ':');
    assert(a[0] != ':' && a[1] != ':' && a[3] != ':' && a[4] != ':');
    let i = choose|i: int| 0 <= i < a.len() && a[i] == ':' && forall|j: int| 0 <= j < i ==> a[j] != ':';
    assert(i == 2);
    assert(a.take(2) =~= two_digits(h));
    assert(a.skip(3) =~= two_digits(m));
    let b = two_digits(h) + two_digits(m);
    assert(b.len() == 4);
    crate::text::lemma_trim_plain(b);
    assert(!(exists|i: int| 0 <= i < b.len() && b[i] == ':'));
    assert(crate::text::all_digits(b));
    assert(b.take(2) =~= two_digits(h));
    assert(b.skip(2) =~= two_digits(m));
}

/// Device requests ignore surrounding whitespace and ASCII case.
pub proof fn lemma_parse_device_ignores_case_and_edges(raw: Seq<char>)
    ensures
        spec_parse_device(raw) == spec_parse_device(ascii_lower(trim(raw))),
{
    crate::text::lemma_lower_trimmed(raw);
}

/// Entries joined by commas, as a `TROLLY_WORK_WEEKDAYS` list is written.
pub open spec fn comma_join(parts: Seq<Seq<char>>) -> Seq<char>
    decreases parts.len(),
{
    if parts.len() == 0 {
        Seq::empty()
    } else if parts.len() == 1 {
        parts[0]
    } else {
        parts[0] + seq![','] + comma_join(parts.drop_first())
    }
}

/// A list entry: no comma, and no dash (which would make a range).
pub open spec fn plain_entry(part: Seq<char>) -> bool {
    forall|i: int| 0 <= i < part.len() ==> part[i] != ',' && part[i] != '-'
}

proof fn lemma_comma_join_no_dash(parts: Seq<Seq<char>>)
    requires
        forall|k: int| 0 <= k < parts.len() ==> plain_entry(#[trigger] parts[k]),
    ensures
        forall|i: int| 0 <= i < comma_join(parts).len() ==> comma_join(parts)[i] != '-',
    decreases parts.len(),
{
    if parts.len() >= 2 {
        let rest = parts.drop_first();
        assert forall|k: int| 0 <= k < rest.len() implies plain_entry(#[trigger] rest[k]) by {
            assert(rest[k] == parts[k + 1]);
        }
        lemma_comma_join_no_dash(rest);
        assert(plain_entry(parts[0]));
        let j = comma_join(parts);
        assert forall|i: int| 0 <= i < j.len() implies j[i] != '-' by {
            if i < parts[0].len() {
            } else if i == parts[0].len() {
            } else {
                assert(j[i] == comma_join(rest)[i - parts[0].len() - 1]);
            }
        }
    } else if parts.len() == 1 {
        assert(plain_entry(parts[0]));
    }
}

/// Text ending in a non-whitespace character keeps its end when trimmed.
proof fn lemma_trim_end_comma(y: Seq<char>, z: Seq<char>)
    ensures
        trim_end(y + seq![','] + z) == y + seq![','] + trim_end(z),
{
    let yc = y + seq![','];
    assert(y + seq![','] + z =~= yc + z);
    crate::text::lemma_trim_end_concat(yc, z);
    assert(yc.last() == ',');
    assert(trim_end(yc) == yc);
    if trim_end(z).len() == 0 {
        assert(yc + trim_end(z) =~= yc);
    }
}

/// Splitting the end-trimmed list gives one entry per part, each with the
/// part's trim.
proof fn lemma_split_trim_end_join(q: Seq<Seq<char>>)
    requires
        q.len() >= 1,
        forall|k: int| 0 <= k < q.len() ==> plain_entry(#[trigger] q[k]),
    ensures
        split_on(trim_end(comma_join(q)), ',').len() == q.len(),
        forall|i: int|
            0 <= i < q.len() ==> trim(#[trigger] split_on(trim_end(comma_join(q)), ',')[i]) == trim(q[i]),
    decreases q.len(),
{
    assert(plain_entry(q[0]));
    if q.len() == 1 {
        let e = trim_end(q[0]);
        crate::text::lemma_trim_end_prefix(q[0]);
        assert forall|i: int| 0 <= i < e.len() implies e[i] != ',' by {
            assert(e[i] == q[0][i]);
        }
        crate::text::lemma_split_on_plain(e, ',');
        crate::text::lemma_trim_after_trim_end(q[0]);
    } else {
        let rest = q.drop_first();
        assert forall|k: int| 0 <= k < rest.len() implies plain_entry(#[trigger] rest[k]) by {
            assert(rest[k] == q[k + 1]);
        }
        lemma_split_trim_end_join(rest);
        lemma_trim_end_comma(q[0], comma_join(rest));
        crate::text::lemma_split_on_concat(q[0], trim_end(comma_join(rest)), ',');
        crate::text::lemma_split_on_plain(q[0], ',');
        let l = split_on(trim_end(comma_join(q)), ',');
        let lr = split_on(trim_end(comma_join(rest)), ',');
        assert(l =~= seq![q[0]] + lr);
        assert forall|i: int| 0 <= i < q.len() implies trim(#[trigger] l[i]) == trim(q[i]) by {
            if i == 0 {
                assert(l[0] == q[0]);
            } else {
                assert(l[i] == lr[i - 1]);
                assert(q[i] == rest[i - 1]);
            }
        }
    }
}

/// Splitting the trimmed list gives one entry per part, each with the part's
/// trim.
proof fn lemma_split_trim_join(p: Seq<Seq<char>>)
    requires
        p.len() >= 1,
        forall|k: int| 0 <= k < p.len() ==> plain_entry(#[trigger] p[k]),
    ensures
        split_on(trim(comma_join(p)), ',').len() == p.len(),
        forall|i: int| 0 <= i < p.len() ==> trim(#[trigger] split_on(trim(comma_join(p)), ',')[i]) == trim(p[i]),
{
    assert(plain_entry(p[0]));
    if p.len() == 1 {
        let t = trim(p[0]);
        crate::text::lemma_trim_keeps_absent(p[0], ',');
        crate::text::lemma_split_on_plain(t, ',');
        crate::text::lemma_trim_idempotent(p[0]);
    } else {
        let rest = p.drop_first();
        assert forall|k: int| 0 <= k < rest.len() implies plain_entry(#[trigger] rest[k]) by {
            assert(rest[k] == p[k + 1]);
        }
        let j = comma_join(rest);
        let cj = comma_join(p);
        assert(cj == p[0] + (seq![','] + j));
        crate::text::lemma_trim_start_concat(p[0], seq![','] + j);
        assert((seq![','] + j)[0] == ',');
        let ts = trim_start(p[0]);
        assert(trim_start(cj) == ts + seq![','] + j) by {
            if ts.len() == 0 {
                assert(trim_start(seq![','] + j) == seq![','] + j);
                assert(ts + seq![','] + j =~= seq![','] + j);
            } else {
                assert(ts + (seq![','] + j) =~= ts + seq![','] + j);
            }
        }
        lemma_trim_end_comma(ts, j);
        crate::text::lemma_split_on_concat(ts, trim_end(j), ',');
        crate::text::lemma_trim_start_lead(p[0]);
        let k0 = p[0].len() - ts.len();
        assert forall|i: int| 0 <= i < ts.len() implies ts[i] != ',' by {
            assert(ts[i] == p[0][i + k0]);
        }
        crate::text::lemma_split_on_plain(ts, ',');
        lemma_split_trim_end_join(rest);
        let l = split_on(trim(cj), ',');
        let lr = split_on(trim_end(j), ',');
        assert(l =~= seq![ts] + lr);
        assert forall|i: int| 0 <= i < p.len() implies trim(#[trigger] l[i]) == trim(p[i]) by {
            if i == 0 {
                crate::text::lemma_trim_after_trim_start(p[0]);
            } else {
                assert(l[i] == lr[i - 1]);
                assert(p[i] == rest[i - 1]);
            }
        }
    }
}

/// In a comma list of weekdays, whitespace around each entry is ignored: the
/// list reads as the same list with every entry trimmed.
pub proof fn lemma_weekday_entries_ignore_spaces(parts: Seq<Seq<char>>)
    requires
        parts.len() >= 1,
        forall|k: int| 0 <= k < parts.len() ==> plain_entry(#[trigger] parts[k]),
    ensures
        spec_parse_weekdays(comma_join(parts)) == spec_parse_weekdays(
            comma_join(parts.map_values(|e: Seq<char>| trim(e))),
        ),
{
    let tp = parts.map_values(|e: Seq<char>| trim(e));
    assert forall|k: int| 0 <= k < tp.len() implies plain_entry(#[trigger] tp[k]) by {
        assert(plain_entry(parts[k]));
        crate::text::lemma_trim_keeps_absent(parts[k], ',');
        crate::text::lemma_trim_keeps_absent(parts[k], '-');
    }
    let a = comma_join(parts);
    let b = comma_join(tp);
    lemma_comma_join_no_dash(parts);
    lemma_comma_join_no_dash(tp);
    crate::text::lemma_trim_keeps_absent(a, '-');
    crate::text::lemma_trim_keeps_absent(b, '-');
    assert(split_once(trim(a), '-') is None);
    assert(split_once(trim(b), '-') is None);
    lemma_split_trim_join(parts);
    lemma_split_trim_join(tp);
    let la = split_on(trim(a), ',');
    let lb = split_on(trim(b), ',');
    assert forall|i: int| 0 <= i < la.len() implies #[trigger] part_day(la[i]) == part_day(lb[i]) by {
        crate::text::lemma_trim_idempotent(parts[i]);
        assert(trim(lb[i]) == trim(tp[i]));
    }
    assert((forall|i: int| 0 <= i < la.len() ==> valid_day(#[trigger] part_day(la[i]))) == (forall|
        i: int,
    | 0 <= i < lb.len() ==> valid_day(#[trigger] part_day(lb[i])))) by {
        if forall|i: int| 0 <= i < la.len() ==> valid_day(#[trigger] part_day(la[i])) {
            assert forall|i: int| 0 <= i < lb.len() implies valid_day(#[trigger] part_day(lb[i])) by {
                assert(part_day(la[i]) == part_day(lb[i]));
            }
        }
        if forall|i: int| 0 <= i < lb.len() ==> valid_day(#[trigger] part_day(lb[i])) {
            assert forall|i: int| 0 <= i < la.len() implies valid_day(#[trigger] part_day(la[i])) by {
                assert(part_day(la[i]) == part_day(lb[i]));
            }
        }
    }
    let ma = Seq::new(8, |d: int| exists|i: int| 0 <= i < la.len() && part_day(la[i]) == Some(d as nat));
    let mb = Seq::new(8, |d: int| exists|i: int| 0 <= i < lb.len() && part_day(lb[i]) == Some(d as nat));
    assert forall|d: int| 0 <= d < 8 implies ma[d] == mb[d] by {
        if ma[d] {
            let i = choose|i: int| 0 <= i < la.len() && part_day(la[i]) == Some(d as nat);
            assert(part_day(la[i]) == part_day(lb[i]));
        }
        if mb[d] {
            let i = choose|i: int| 0 <= i < lb.len() && part_day(lb[i]) == Some(d as nat);
            assert(part_day(la[i]) == part_day(lb[i]));
        }
    }
    assert(ma =~= mb);
}

/// Without an override, a tree with no microstructure checkpoint started (and
/// none complete) trains microstructure first, then the matrix gate, whether
/// or not matrix training has started.
pub proof fn lemma_untrained_tree_trains_both(override_jobs: Option<Seq<char>>, tree: CheckpointTree)
    requires
        !(override_jobs is Some && spec_job_list(override_jobs->0).len() > 0),
        !tree.microstructure_started,
        !tree.microstructure_complete,
    ensures
        spec_select_jobs(override_jobs, tree).0 == seq!["microstructure"@, "matrix"@],
        spec_select_jobs(override_jobs, tree).1
            == "no stream-shaped checkpoints; train microstructure first (closest to live policy), then matrix NES gate"@,
        spec_select_jobs(override_jobs, tree) == spec_select_jobs(
            override_jobs,
            CheckpointTree { matrix_started: !tree.matrix_started, ..tree },
        ),
{
}

/// Without an override, while microstructure is incomplete the choice does
/// not depend on the matrix track; once it is complete, the matrix gate is
/// always among the jobs.
pub proof fn lemma_jobs_follow_microstructure_first(override_jobs: Option<Seq<char>>, tree: CheckpointTree)
    requires
        !(override_jobs is Some && spec_job_list(override_jobs->0).len() > 0),
    ensures
        !tree.microstructure_complete ==> spec_select_jobs(override_jobs, tree) == spec_select_jobs(
            override_jobs,
            CheckpointTree { matrix_started: !tree.matrix_started, ..tree },
        ),
        !tree.microstructure_complete && tree.microstructure_started ==> spec_select_jobs(
            override_jobs,
            tree,
        ).0 == seq!["microstructure"@],
        tree.microstructure_complete ==> spec_select_jobs(override_jobs, tree).0.contains("matrix"@),
{
    if tree.microstructure_complete {
        let j = spec_select_jobs(override_jobs, tree).0;
        if tree.matrix_started {
            assert(j[1] == "matrix"@);
        } else {
            assert(j[0] == "matrix"@);
        }
    }
}

/// A progress value whose trimmed text is a JSON boolean, object or array is
/// written unquoted, as that trimmed text.
pub proof fn lemma_json_literals_stay_raw(raw: Seq<char>)
    ensures
        trim(raw) == "true"@ || trim(raw) == "false"@ ==> spec_json_value(raw) == trim(raw),
        starts_with(trim(raw), "{"@) || starts_with(trim(raw), "["@) ==> spec_json_value(raw) == trim(raw),
{
}

/// A whole number written in decimal is a JSON number and stays unquoted.
pub proof fn lemma_json_numbers_stay_raw(n: nat)
    ensures
        spec_json_value(decimal(n)) == decimal(n),
{
    crate::text::lemma_decimal_reads_back(n);
    let d = decimal(n);
    crate::text::lemma_trim_plain(d);
    assert(crate::text::is_digit(d[0]));
    assert(strip_sign(d) == d);
    assert(!(exists|i: int| 0 <= i < d.len() && d[i] == 'e')) by {
        assert forall|i: int| 0 <= i < d.len() implies d[i] != 'e' by {
            assert(crate::text::is_digit(d[i]));
        }
    }
    assert(!(exists|i: int| 0 <= i < d.len() && d[i] == '.')) by {
        assert forall|i: int| 0 <= i < d.len() implies d[i] != '.' by {
            assert(crate::text::is_digit(d[i]));
        }
    }
    assert(is_float_literal(d));
}

/// Every documented GPU alias, in any ASCII case and with any surrounding
/// whitespace, asks for the first GPU; `cpu` asks for the CPU; blank text or
/// `auto` leaves the choice to the machine.
pub proof fn lemma_device_aliases(raw: Seq<char>)
    ensures
        ({
            let s = ascii_lower(trim(raw));
            s == "cuda"@ || s == "gpu"@ || s == "rocm"@ || s == "hip"@
        }) ==> spec_parse_device(raw) == Some(DeviceSpec::Cuda(0)),
        ascii_lower(trim(raw)) == "cpu"@ ==> spec_parse_device(raw) == Some(DeviceSpec::Cpu),
        ascii_lower(trim(raw)) == ""@ || ascii_lower(trim(raw)) == "auto"@ ==> spec_parse_device(raw)
            == Some(DeviceSpec::Auto),
{
    reveal_strlit("");
    reveal_strlit("auto");
    reveal_strlit("cpu");
    reveal_strlit("cuda");
    reveal_strlit("gpu");
    reveal_strlit("rocm");
    reveal_strlit("hip");
    reveal_strlit("cuda:");
    let s = ascii_lower(trim(raw));
    if s == "cuda"@ || s == "gpu"@ || s == "rocm"@ || s == "hip"@ {
        assert(s[0] != "auto"@[0]);
        assert(s.len() != 0);
        assert(s[0] != "cpu"@[0] || s.len() != 3);
    }
}

/// `TROLLY_CONTINUE_LOCAL` set to `1`, or to `true` in any ASCII case, runs
/// the continue mode whatever the arguments; set to `0` it changes nothing.
pub proof fn lemma_continue_local_wins(v: &str, args: Seq<Seq<char>>)
    ensures
        v@ == "1"@ || ascii_lower(v@) == ascii_lower("true"@) ==> spec_mode(Some(v), args)
            == ModeOutcome::Run(Mode::Continue),
        v@ == "0"@ ==> spec_mode(Some(v), args) == spec_mode(None, args),
{
    if v@ == "0"@ {
        reveal_strlit("0");
        reveal_strlit("true");
        let l = ascii_lower(v@);
        assert(l.len() == 1);
        assert(l[0] == crate::text::lower_char('0'));
        assert(v@ != "1"@) by {
            reveal_strlit("1");
            assert(v@[0] == '0');
        }
        assert(l != ascii_lower("true"@));
    }
}

/// A range `a-b` of ISO weekdays (Monday = 1) enables exactly the days from
/// `a` to `b`; a range that leaves 1..=7 or runs backwards is refused.
pub proof fn lemma_weekday_range(a: nat, b: nat)
    requires
        a < 10,
        b < 10,
    ensures
        spec_parse_weekdays(decimal(a) + seq!['-'] + decimal(b)) == if 1 <= a <= b <= 7 {
            Some(Seq::new(8, |d: int| a <= d <= b))
        } else {
            None::<Seq<bool>>
        },
{
    crate::text::lemma_decimal_reads_back(a);
    crate::text::lemma_decimal_reads_back(b);
    let da = decimal(a);
    let db = decimal(b);
    assert(da.len() == 1 && db.len() == 1);
    let t = da + seq!['-'] + db;
    assert(t.len() == 3);
    crate::text::lemma_trim_plain(t);
    assert(t[0] == da[0] && t[1] == '-' && t[2] == db[0]);
    assert(crate::text::is_digit(da[0]) && crate::text::is_digit(db[0]));
    let i = choose|i: int| 0 <= i < t.len() && t[i] == '-' && forall|j: int| 0 <= j < i ==> t[j] != '-';
    assert(i == 1);
    assert(t.take(1) =~= da);
    assert(t.skip(2) =~= db);
}

/// A parsed weekday mask has eight entries and never enables the unused
/// index 0.
pub proof fn lemma_parse_weekdays_mask(raw: Seq<char>)
    ensures
        spec_parse_weekdays(raw) matches Some(w) ==> w.len() == 8 && !w[0],
{
    let t = trim(raw);
    if split_once(t, '-') is None {
        let parts = split_on(t, ',');
        if forall|i: int| 0 <= i < parts.len() ==> valid_day(#[trigger] part_day(parts[i])) {
            if exists|i: int| 0 <= i < parts.len() && part_day(parts[i]) == Some(0nat) {
                let i = choose|i: int| 0 <= i < parts.len() && part_day(parts[i]) == Some(0nat);
                assert(valid_day(part_day(parts[i])));
            }
        }
    }
}

/// Hours read from the environment open inside the day and never enable the
/// unused weekday 0, so the next-window search is defined for every valid
/// weekday and minute.
pub proof fn lemma_hours_from_env_valid(start: Option<&str>, weekdays: Option<&str>)
    ensures
        minutes_setting(start, 540u16) < 1440,
        !weekday_setting(weekdays, 0),
{
    match start {
        Some(s) => lemma_parse_hhmm_in_day(s@),
        None => {},
    }
    match weekdays {
        Some(s) => lemma_parse_weekdays_mask(s@),
        None => {},
    }
}

/// Position of a step in the fixed order of the sync.
pub open spec fn git_step_rank(step: GitStep) -> nat {
    match step {
        GitStep::CheckWorkTree => 0,
        GitStep::Fetch => 1,
        GitStep::DiffQuiet => 2,
        GitStep::DiffCachedQuiet => 3,
        GitStep::CheckUpstream => 4,
        GitStep::Rebase => 5,
        GitStep::AbortRebase(_) => 6,
    }
}

/// No command of the sync resets the tree or rebases interactively.
pub proof fn lemma_git_never_destructive(step: GitStep, i: int)
    requires
        0 <= i < git_step_args(step).len(),
    ensures
        git_step_args(step)[i] != "reset"@,
        git_step_args(step)[i] != "--hard"@,
        git_step_args(step)[i] != "-i"@,
        git_step_args(step)[i] != "--interactive"@,
{
    reveal_strlit("reset");
    reveal_strlit("--hard");
    reveal_strlit("-i");
    reveal_strlit("--interactive");
    reveal_strlit("rev-parse");
    reveal_strlit("--is-inside-work-tree");
    reveal_strlit("fetch");
    reveal_strlit("origin");
    reveal_strlit("diff");
    reveal_strlit("--quiet");
    reveal_strlit("--cached");
    reveal_strlit("--abbrev-ref");
    reveal_strlit("--symbolic-full-name");
    reveal_strlit("@{u}");
    reveal_strlit("rebase");
    reveal_strlit("--abort");
    let a = git_step_args(step)[i];
    if a.len() == 5 {
        assert(a[0] != "reset"@[0]);
    }
    if a.len() == 6 {
        assert(a[0] != "--hard"@[0]);
    }
}

/// The sync moves forward through its fixed order one command at a time and
/// only on success: the rebase runs only after the upstream check passed,
/// which runs only after both diff checks found a clean tree, which run only
/// after the fetch succeeded. A failed rebase is always aborted, and the
/// abort ends the sync.
pub proof fn lemma_git_sync_order(step: GitStep, outcome: GitOutcome, r: GitSyncAction)
    requires
        spec_git_action_ok(step, outcome, r),
    ensures
        r matches GitSyncAction::Run(next) ==> git_step_rank(next) > git_step_rank(step),
        r == GitSyncAction::Run(GitStep::Rebase) ==> step == GitStep::CheckUpstream && outcome.ran
            && outcome.success,
        r == GitSyncAction::Run(GitStep::CheckUpstream) ==> step == GitStep::DiffCachedQuiet
            && outcome.ran && outcome.success,
        r == GitSyncAction::Run(GitStep::DiffCachedQuiet) ==> step == GitStep::DiffQuiet
            && outcome.ran && outcome.success,
        r == GitSyncAction::Run(GitStep::DiffQuiet) ==> step == GitStep::Fetch && outcome.ran
            && outcome.success,
        step == GitStep::Rebase && !(outcome.ran && outcome.success) ==> r is Run && (r->Run_0) is AbortRebase,
        step is AbortRebase ==> r is Finish,
{
}

/// Inside the window, the remaining time runs to the end of the window: every
/// minute until then is inside, the end itself is not.
pub proof fn lemma_remaining_stays_inside(hours: WorkingHours, wd: int, m: int, t: int)
    requires
        hours.in_window(wd, m),
        0 <= t < hours.end_minutes - m,
    ensures
        hours.in_window(wd, m + t),
        !hours.in_window(wd, hours.end_minutes as int),
{
}

} // verus!
