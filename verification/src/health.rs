//! The health derivations of the POWER / HEALTH and INSIGHTS panels: alert
//! counting, the system-health score and its dominant cause, the overall
//! verdict, the power label and the list of advisories.
//!
//! The dashboard's readings and thresholds are floating-point numbers; the
//! caller compares them and hands the outcome of each comparison in here as
//! a level or a flag, and everything decided from those outcomes is here.

use vstd::prelude::*;

verus! {

/// Cross-platform health flags surfaced under POWER / HEALTH. All are derived
/// from generally-available data (temperature, cpufreq, load, memory) and are
/// `false` where a signal is missing.
#[derive(Clone, Copy, Debug, PartialEq, Eq, Structural)]
pub struct HealthFlags {
    /// CPU temperature at or above the warning threshold.
    pub thermal_warn: bool,
    /// Current frequency is running well below the hardware ceiling.
    pub freq_scaled: bool,
    /// Load average per core exceeds the configured limit (run queue backing up).
    pub cpu_pressure: bool,
    /// RAM or swap utilisation is high.
    pub mem_pressure: bool,
}

impl Default for HealthFlags {
    /// No flag raised.
    fn default() -> (r: Self)
        ensures
            !r.thermal_warn && !r.freq_scaled && !r.cpu_pressure && !r.mem_pressure,
    {
        HealthFlags { thermal_warn: false, freq_scaled: false, cpu_pressure: false, mem_pressure: false }
    }
}

/// The power label for a set of flags.
pub open spec fn power_label_spec(h: HealthFlags) -> Seq<char> {
    if h.thermal_warn {
        "Thermal-limited"@
    } else if h.cpu_pressure {
        "Under load"@
    } else {
        "Nominal"@
    }
}

/// INSIGHTS power label: `Thermal-limited` when hot, else `Under load` under
/// CPU pressure, else `Nominal`.
pub fn power_label(h: &HealthFlags) -> (r: &'static str)
    ensures
        r@ == power_label_spec(*h),
{
    if h.thermal_warn {
        "Thermal-limited"
    } else if h.cpu_pressure {
        "Under load"
    } else {
        "Nominal"
    }
}

/// 1 for a raised condition, 0 otherwise.
pub open spec fn count_of(b: bool) -> int {
    if b {
        1
    } else {
        0
    }
}

/// The number of alert conditions raised: thermal warning, CPU pressure,
/// memory pressure, CPU load above its limit, disk above its limit.
pub open spec fn alerts_spec(h: HealthFlags, cpu_load_high: bool, disk_full: bool) -> int {
    count_of(h.thermal_warn) + count_of(h.cpu_pressure) + count_of(h.mem_pressure) + count_of(
        cpu_load_high,
    ) + count_of(disk_full)
}

/// Count of tripped alert conditions shown in INSIGHTS. `cpu_load_high` is
/// "CPU load above the configured high percentage", `disk_full` is "disk use
/// above the configured full percentage". Frequency scaling is not an alert.
pub fn count_alerts(h: &HealthFlags, cpu_load_high: bool, disk_full: bool) -> (r: u32)
    ensures
        r == alerts_spec(*h, cpu_load_high, disk_full),
        r <= 5,
{
    let mut n: u32 = 0;
    if h.thermal_warn {
        n += 1;
    }
    if h.cpu_pressure {
        n += 1;
    }
    if h.mem_pressure {
        n += 1;
    }
    if cpu_load_high {
        n += 1;
    }
    if disk_full {
        n += 1;
    }
    n
}

/// Where the CPU temperature stands against the warning temperature `w`.
#[derive(Clone, Copy, Debug, PartialEq, Eq, Structural)]
pub enum TempLevel {
    /// At or above `w`.
    AtWarning,
    /// Above `w - 10`, below `w`.
    WithinTen,
    /// Above `w - 20`, at most `w - 10`.
    WithinTwenty,
    /// At most `w - 20`.
    Cool,
}

/// Where the load average per core stands against the configured limit `l`.
#[derive(Clone, Copy, Debug, PartialEq, Eq, Structural)]
pub enum LoadLevel {
    /// Above `2 * l`.
    Severe,
    /// Above `l`, at most `2 * l`.
    High,
    /// At most `l`.
    Normal,
}

/// The dominant reason behind a system-health score.
#[derive(Clone, Copy, Debug, PartialEq, Eq, Structural)]
pub enum HealthCause {
    /// Nothing worth naming.
    Nominal,
    /// The CPU is within ten degrees of the warning temperature, or above it.
    Temp,
    /// The load per core is above twice its limit.
    Load,
    /// RAM or swap is under pressure.
    MemoryPressure,
}

/// The penalty for the CPU temperature.
pub open spec fn temp_penalty(t: TempLevel) -> int {
    match t {
        TempLevel::AtWarning => 30,
        TempLevel::WithinTen => 15,
        TempLevel::WithinTwenty => 5,
        TempLevel::Cool => 0,
    }
}

/// The penalty for the load per core.
pub open spec fn load_penalty(l: LoadLevel) -> int {
    match l {
        LoadLevel::Severe => 20,
        LoadLevel::High => 10,
        LoadLevel::Normal => 0,
    }
}

/// The system-health score: 100 less the penalties, clamped to 0..=100.
pub open spec fn health_score_spec(
    temp: TempLevel,
    load: LoadLevel,
    cpu_load_high: bool,
    mem_pressure: bool,
) -> int {
    let s = 100 - temp_penalty(temp) - load_penalty(load) - 10 * count_of(cpu_load_high) - 10
        * count_of(mem_pressure);
    if s < 0 {
        0
    } else if s > 100 {
        100
    } else {
        s
    }
}

/// The dominant cause: temperature first, then a severe load, then memory
/// pressure.
pub open spec fn health_cause_spec(temp: TempLevel, load: LoadLevel, mem_pressure: bool) -> HealthCause {
    if temp == TempLevel::AtWarning || temp == TempLevel::WithinTen {
        HealthCause::Temp
    } else if load == LoadLevel::Severe {
        HealthCause::Load
    } else if mem_pressure {
        HealthCause::MemoryPressure
    } else {
        HealthCause::Nominal
    }
}

/// System health score (0..=100) plus its dominant cause. Penalties: 30 at or
/// above the warning temperature, 15 within ten degrees below it, 5 within
/// twenty; 20 for a load per core above twice its limit, 10 above it; 10 for
/// CPU load above its limit (`cpu_load_high`); 10 for memory pressure.
pub fn derive_system_health(
    temp: TempLevel,
    load: LoadLevel,
    cpu_load_high: bool,
    mem_pressure: bool,
) -> (r: (u32, HealthCause))
    ensures
        r.0 == health_score_spec(temp, load, cpu_load_high, mem_pressure),
        r.1 == health_cause_spec(temp, load, mem_pressure),
        0 <= r.0 <= 100,
{
    let mut health: i64 = 100;
    let mut why = HealthCause::Nominal;
    match temp {
        TempLevel::AtWarning => {
            health -= 30;
            why = HealthCause::Temp;
        },
        TempLevel::WithinTen => {
            health -= 15;
            why = HealthCause::Temp;
        },
        TempLevel::WithinTwenty => {
            health -= 5;
        },
        TempLevel::Cool => {},
    }
    match load {
        LoadLevel::Severe => {
            health -= 20;
            if why == HealthCause::Nominal {
                why = HealthCause::Load;
            }
        },
        LoadLevel::High => {
            health -= 10;
        },
        LoadLevel::Normal => {},
    }
    if cpu_load_high {
        health -= 10;
    }
    if mem_pressure {
        health -= 10;
        if why == HealthCause::Nominal {
            why = HealthCause::MemoryPressure;
        }
    }
    let score: u32 = if health < 0 {
        0
    } else if health > 100 {
        100
    } else {
        health as u32
    };
    (score, why)
}

/// Where the worse of the system and storage health scores stands.
#[derive(Clone, Copy, Debug, PartialEq, Eq, Structural)]
pub enum ScoreBand {
    /// Below 50.
    Low,
    /// At least 50, below 80.
    Fair,
    /// At least 80.
    Good,
}

/// 2 for `Critical`, 1 for `Degraded`, 0 for `Healthy`.
pub open spec fn status_severity(worst: ScoreBand, alerts: u32) -> int {
    if worst == ScoreBand::Low || alerts >= 3 {
        2
    } else if worst == ScoreBand::Fair || alerts >= 1 {
        1
    } else {
        0
    }
}

/// The verdict text for a severity.
pub open spec fn status_text(severity: int) -> Seq<char> {
    if severity == 2 {
        "Critical"@
    } else if severity == 1 {
        "Degraded"@
    } else {
        "Healthy"@
    }
}

/// One-word overall verdict from the band of the worst health score and the
/// alert count: `Critical` below 50 or with 3+ alerts, else `Degraded` below
/// 80 or with an alert, else `Healthy`.
pub fn overall_status(worst: ScoreBand, alerts: u32) -> (r: &'static str)
    ensures
        r@ == status_text(status_severity(worst, alerts)),
{
    if worst == ScoreBand::Low || alerts >= 3 {
        "Critical"
    } else if worst == ScoreBand::Fair || alerts >= 1 {
        "Degraded"
    } else {
        "Healthy"
    }
}

/// 0 for the worst band, 2 for the best.
pub open spec fn band_rank(b: ScoreBand) -> int {
    match b {
        ScoreBand::Low => 0,
        ScoreBand::Fair => 1,
        ScoreBand::Good => 2,
    }
}

/// More alerts, or a worse score band, never make the verdict better.
pub proof fn lemma_status_monotone(b1: ScoreBand, a1: u32, b2: ScoreBand, a2: u32)
    requires
        a1 <= a2,
        band_rank(b2) <= band_rank(b1),
    ensures
        status_severity(b1, a1) <= status_severity(b2, a2),
{
}

/// An actionable note for something that is amiss.
#[derive(Clone, Copy, Debug, PartialEq, Eq, Structural)]
pub enum Advisory {
    /// Running hot: improve cooling.
    RunningHot,
    /// High CPU load.
    HighCpuLoad,
    /// Memory pressure.
    MemoryPressure,
    /// Swap in use.
    Swapping,
    /// Disk nearly full: free space.
    DiskNearlyFull,
}

/// The advisories for the given conditions, in display order.
pub open spec fn advisories_spec(
    h: HealthFlags,
    cpu_load_high: bool,
    swap_in_use: bool,
    disk_full: bool,
) -> Seq<Advisory> {
    let a0 = if h.thermal_warn {
        seq![Advisory::RunningHot]
    } else {
        Seq::<Advisory>::empty()
    };
    let a1 = if cpu_load_high || h.cpu_pressure {
        a0.push(Advisory::HighCpuLoad)
    } else {
        a0
    };
    let a2 = if h.mem_pressure {
        a1.push(Advisory::MemoryPressure)
    } else {
        a1
    };
    let a3 = if swap_in_use {
        a2.push(Advisory::Swapping)
    } else {
        a2
    };
    if disk_full {
        a3.push(Advisory::DiskNearlyFull)
    } else {
        a3
    }
}

/// Actionable notes for whatever is currently amiss, in display order: hot
/// CPU, high CPU load (above its limit or under CPU pressure), memory
/// pressure, swap in use (`swap_in_use`: swap above 5%), disk above its limit.
/// Empty exactly when everything is nominal.
pub fn advisories(h: &HealthFlags, cpu_load_high: bool, swap_in_use: bool, disk_full: bool) -> (r:
    Vec<Advisory>)
    ensures
        r@ == advisories_spec(*h, cpu_load_high, swap_in_use, disk_full),
        r@.len() == 0 <==> !h.thermal_warn && !cpu_load_high && !h.cpu_pressure
            && !h.mem_pressure && !swap_in_use && !disk_full,
{
    let mut v: Vec<Advisory> = Vec::new();
    if h.thermal_warn {
        v.push(Advisory::RunningHot);
    }
    if cpu_load_high || h.cpu_pressure {
        v.push(Advisory::HighCpuLoad);
    }
    if h.mem_pressure {
        v.push(Advisory::MemoryPressure);
    }
    if swap_in_use {
        v.push(Advisory::Swapping);
    }
    if disk_full {
        v.push(Advisory::DiskNearlyFull);
    }
    v
}


/// The cause named with a health score: `Temp` exactly when the CPU is at or
/// within ten degrees below the warning temperature; otherwise `Load`
/// exactly when the load per core is above twice its limit; otherwise
/// `MemoryPressure` exactly under memory pressure; `Nominal` only when none
/// of these holds. A `Nominal` cause goes with a score of at least 75, and
/// any other cause with a score of at most 90.
pub proof fn lemma_health_cause(
    temp: TempLevel,
    load: LoadLevel,
    cpu_load_high: bool,
    mem_pressure: bool,
)
    ensures
        health_cause_spec(temp, load, mem_pressure) == HealthCause::Temp <==> (temp
            == TempLevel::AtWarning || temp == TempLevel::WithinTen),
        health_cause_spec(temp, load, mem_pressure) == HealthCause::Load <==> (temp
            != TempLevel::AtWarning && temp != TempLevel::WithinTen && load == LoadLevel::Severe),
        health_cause_spec(temp, load, mem_pressure) == HealthCause::MemoryPressure <==> (temp
            != TempLevel::AtWarning && temp != TempLevel::WithinTen && load != LoadLevel::Severe
            && mem_pressure),
        health_cause_spec(temp, load, mem_pressure) == HealthCause::Nominal <==> (temp
            != TempLevel::AtWarning && temp != TempLevel::WithinTen && load != LoadLevel::Severe
            && !mem_pressure),
        health_cause_spec(temp, load, mem_pressure) == HealthCause::Nominal ==> health_score_spec(
            temp,
            load,
            cpu_load_high,
            mem_pressure,
        ) >= 75,
        health_cause_spec(temp, load, mem_pressure) != HealthCause::Nominal ==> health_score_spec(
            temp,
            load,
            cpu_load_high,
            mem_pressure,
        ) <= 90,
{
}

/// The score is 100 with nothing amiss, and each condition lowers it by its
/// penalty: 30 at or 15 within ten degrees below the warning temperature, 5
/// within twenty; 20 for a load per core above twice its limit, 10 above it;
/// 10 each for CPU load above its limit and for memory pressure. No
/// combination takes it below zero.
pub proof fn lemma_health_score(
    temp: TempLevel,
    load: LoadLevel,
    cpu_load_high: bool,
    mem_pressure: bool,
)
    ensures
        health_score_spec(temp, load, cpu_load_high, mem_pressure) == 100 - (match temp {
            TempLevel::AtWarning => 30int,
            TempLevel::WithinTen => 15,
            TempLevel::WithinTwenty => 5,
            TempLevel::Cool => 0,
        }) - (match load {
            LoadLevel::Severe => 20int,
            LoadLevel::High => 10,
            LoadLevel::Normal => 0,
        }) - (if cpu_load_high {
            10int
        } else {
            0
        }) - (if mem_pressure {
            10int
        } else {
            0
        }),
        health_score_spec(TempLevel::Cool, LoadLevel::Normal, false, false) == 100,
        health_score_spec(temp, load, cpu_load_high, mem_pressure) >= 30,
{
}

/// The overall status is `Critical` exactly with a score below 50 or three
/// or more alerts; otherwise `Degraded` exactly with a score below 80 or at
/// least one alert; `Healthy` exactly with every score at least 80 and no
/// alert. So with a good or fair score one or two alerts give `Degraded`.
pub proof fn lemma_status_verdict(worst: ScoreBand, alerts: u32)
    ensures
        status_text(status_severity(worst, alerts)) == "Critical"@ <==> (worst == ScoreBand::Low
            || alerts >= 3),
        status_text(status_severity(worst, alerts)) == "Degraded"@ <==> (worst != ScoreBand::Low
            && alerts < 3 && (worst == ScoreBand::Fair || alerts >= 1)),
        status_text(status_severity(worst, alerts)) == "Healthy"@ <==> (worst == ScoreBand::Good
            && alerts == 0),
        worst != ScoreBand::Low && 1 <= alerts <= 2 ==> status_text(status_severity(worst, alerts))
            == "Degraded"@,
{
    reveal_strlit("Critical");
    reveal_strlit("Degraded");
    reveal_strlit("Healthy");
    assert("Critical"@[0] != "Degraded"@[0]);
    assert("Critical"@[0] != "Healthy"@[0]);
    assert("Degraded"@[0] != "Healthy"@[0]);
}


/// The power label names the most pressing condition: `Thermal-limited`
/// exactly when the thermal warning is raised, otherwise `Under load`
/// exactly under CPU pressure, otherwise `Nominal`; frequency scaling and
/// memory pressure never change it.
pub proof fn lemma_power_label(h: HealthFlags, freq_scaled: bool, mem_pressure: bool)
    ensures
        power_label_spec(h) == "Thermal-limited"@ <==> h.thermal_warn,
        power_label_spec(h) == "Under load"@ <==> !h.thermal_warn && h.cpu_pressure,
        power_label_spec(h) == "Nominal"@ <==> !h.thermal_warn && !h.cpu_pressure,
        power_label_spec(h) == power_label_spec(
            HealthFlags { freq_scaled, mem_pressure, ..h },
        ),
{
    reveal_strlit("Thermal-limited");
    reveal_strlit("Under load");
    reveal_strlit("Nominal");
    assert("Thermal-limited"@[0] != "Under load"@[0]);
    assert("Thermal-limited"@[0] != "Nominal"@[0]);
    assert("Under load"@[0] != "Nominal"@[0]);
}

/// The alert count counts conditions: zero with none raised, five with all,
/// raising one more condition adds exactly one, and frequency scaling is
/// never an alert.
pub proof fn lemma_alert_count(h: HealthFlags, cpu_load_high: bool, disk_full: bool)
    ensures
        0 <= alerts_spec(h, cpu_load_high, disk_full) <= 5,
        alerts_spec(h, cpu_load_high, disk_full) == 0 <==> !h.thermal_warn && !h.cpu_pressure
            && !h.mem_pressure && !cpu_load_high && !disk_full,
        alerts_spec(h, cpu_load_high, disk_full) == 5 <==> h.thermal_warn && h.cpu_pressure
            && h.mem_pressure && cpu_load_high && disk_full,
        !disk_full ==> alerts_spec(h, cpu_load_high, true) == alerts_spec(h, cpu_load_high, false)
            + 1,
        !cpu_load_high ==> alerts_spec(h, true, disk_full) == alerts_spec(h, false, disk_full) + 1,
        !h.thermal_warn ==> alerts_spec(HealthFlags { thermal_warn: true, ..h }, cpu_load_high, disk_full)
            == alerts_spec(h, cpu_load_high, disk_full) + 1,
        !h.cpu_pressure ==> alerts_spec(HealthFlags { cpu_pressure: true, ..h }, cpu_load_high, disk_full)
            == alerts_spec(h, cpu_load_high, disk_full) + 1,
        !h.mem_pressure ==> alerts_spec(HealthFlags { mem_pressure: true, ..h }, cpu_load_high, disk_full)
            == alerts_spec(h, cpu_load_high, disk_full) + 1,
        alerts_spec(HealthFlags { freq_scaled: !h.freq_scaled, ..h }, cpu_load_high, disk_full)
            == alerts_spec(h, cpu_load_high, disk_full),
{
}

/// Each advisory appears exactly when its condition holds, at most once, in
/// the fixed display order hot, CPU load, memory, swap, disk.
pub proof fn lemma_advisories(
    h: HealthFlags,
    cpu_load_high: bool,
    swap_in_use: bool,
    disk_full: bool,
)
    ensures
        advisories_spec(h, cpu_load_high, swap_in_use, disk_full).contains(Advisory::RunningHot)
            <==> h.thermal_warn,
        advisories_spec(h, cpu_load_high, swap_in_use, disk_full).contains(Advisory::HighCpuLoad)
            <==> (cpu_load_high || h.cpu_pressure),
        advisories_spec(h, cpu_load_high, swap_in_use, disk_full).contains(
            Advisory::MemoryPressure,
        ) <==> h.mem_pressure,
        advisories_spec(h, cpu_load_high, swap_in_use, disk_full).contains(Advisory::Swapping)
            <==> swap_in_use,
        advisories_spec(h, cpu_load_high, swap_in_use, disk_full).contains(
            Advisory::DiskNearlyFull,
        ) <==> disk_full,
        forall|i: int, j: int|
            0 <= i < j < advisories_spec(h, cpu_load_high, swap_in_use, disk_full).len()
                ==> advisory_rank(
                #[trigger] advisories_spec(h, cpu_load_high, swap_in_use, disk_full)[i],
            ) < advisory_rank(
                #[trigger] advisories_spec(h, cpu_load_high, swap_in_use, disk_full)[j],
            ),
{
    let e = Seq::<Advisory>::empty();
    let a0 = if h.thermal_warn {
        e.push(Advisory::RunningHot)
    } else {
        e
    };
    assert(seq![Advisory::RunningHot] =~= e.push(Advisory::RunningHot));
    let a1 = if cpu_load_high || h.cpu_pressure {
        a0.push(Advisory::HighCpuLoad)
    } else {
        a0
    };
    let a2 = if h.mem_pressure {
        a1.push(Advisory::MemoryPressure)
    } else {
        a1
    };
    let a3 = if swap_in_use {
        a2.push(Advisory::Swapping)
    } else {
        a2
    };
    assert forall|x: Advisory| #![auto] advisories_spec(h, cpu_load_high, swap_in_use, disk_full).contains(x) <==> (match x {
        Advisory::RunningHot => h.thermal_warn,
        Advisory::HighCpuLoad => cpu_load_high || h.cpu_pressure,
        Advisory::MemoryPressure => h.mem_pressure,
        Advisory::Swapping => swap_in_use,
        Advisory::DiskNearlyFull => disk_full,
    }) by {
        assert(!e.contains(x));
        lemma_push_contains(e, Advisory::RunningHot, x);
        lemma_push_contains(a0, Advisory::HighCpuLoad, x);
        lemma_push_contains(a1, Advisory::MemoryPressure, x);
        lemma_push_contains(a2, Advisory::Swapping, x);
        lemma_push_contains(a3, Advisory::DiskNearlyFull, x);
    }
}

proof fn lemma_push_contains(s: Seq<Advisory>, y: Advisory, x: Advisory)
    ensures
        s.push(y).contains(x) == (s.contains(x) || x == y),
{
    let t = s.push(y);
    if t.contains(x) {
        let k = choose|k: int| 0 <= k < t.len() && t[k] == x;
        if k < s.len() {
            assert(s[k] == x);
        }
    }
    if s.contains(x) {
        let k = choose|k: int| 0 <= k < s.len() && s[k] == x;
        assert(t[k] == x);
    }
    assert(t[s.len() as int] == y);
}

/// The place of an advisory in the display order.
pub open spec fn advisory_rank(a: Advisory) -> int {
    match a {
        Advisory::RunningHot => 0,
        Advisory::HighCpuLoad => 1,
        Advisory::MemoryPressure => 2,
        Advisory::Swapping => 3,
        Advisory::DiskNearlyFull => 4,
    }
}

} // verus!
