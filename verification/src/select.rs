//! Choosing among samples: the busiest/last-maximal entry, the interface to
//! display, the disk whose usage is shown, and the CPU frequency ceiling.

use vstd::prelude::*;
use crate::sources::{is_loopback, is_loopback_spec, opt_view};
use crate::text::{chars_eq, matches_at, to_chars};

verus! {

/// `i` is the last position of a maximum of `keys`, as `Iterator::max_by_key`
/// picks it on ties.
pub open spec fn is_last_max(keys: Seq<u64>, i: int) -> bool {
    &&& 0 <= i < keys.len()
    &&& forall|j: int| 0 <= j < keys.len() ==> #[trigger] keys[j] <= keys[i]
    &&& forall|j: int| i < j < keys.len() ==> #[trigger] keys[j] < keys[i]
}

/// The position of the last maximum of `keys`; `None` when `keys` is empty.
pub fn last_max_index(keys: &Vec<u64>) -> (r: Option<usize>)
    ensures
        r is None <==> keys@.len() == 0,
        r matches Some(i) ==> is_last_max(keys@, i as int),
{
    if keys.len() == 0 {
        return None;
    }
    let mut best: usize = 0;
    let mut i: usize = 1;
    while i < keys.len()
        invariant
            1 <= i <= keys.len(),
            best < i,
            forall|j: int| 0 <= j < i ==> #[trigger] keys@[j] <= keys@[best as int],
            forall|j: int| best < j < i ==> #[trigger] keys@[j] < keys@[best as int],
        decreases keys.len() - i,
    {
        if keys[i] >= keys[best] {
            best = i;
        }
        i += 1;
    }
    Some(best)
}

/// What the dashboard knows of one network interface this tick.
pub struct LinkSample {
    /// Interface name.
    pub name: String,
    /// Bytes received since the previous refresh.
    pub received: u64,
    /// Bytes transmitted since the previous refresh.
    pub transmitted: u64,
    /// Cumulative bytes received plus transmitted.
    pub cumulative: u64,
}

/// A link that is not a loopback interface.
pub open spec fn is_real(ls: Seq<LinkSample>, i: int) -> bool {
    0 <= i < ls.len() && !is_loopback_spec(ls[i].name@)
}

/// `i` is the link the dashboard shows: the first real link named by the
/// default route when there is one, otherwise the last real link with the
/// largest cumulative traffic.
pub open spec fn is_primary(ls: Seq<LinkSample>, route: Option<Seq<char>>, i: int) -> bool {
    let named = |j: int| is_real(ls, j) && route == Some(ls[j].name@);
    if exists|j: int| #[trigger] named(j) {
        named(i) && forall|j: int| 0 <= j < i ==> !#[trigger] named(j)
    } else {
        &&& is_real(ls, i)
        &&& forall|j: int| #[trigger] is_real(ls, j) ==> ls[j].cumulative <= ls[i].cumulative
        &&& forall|j: int| i < j && #[trigger] is_real(ls, j) ==> ls[j].cumulative < ls[i].cumulative
    }
}

/// Choose the interface to display and rate: the default-route link when it
/// is among the non-loopback links, otherwise the busiest non-loopback link
/// (so a virtual bridge is not picked). Returns (name, bytes received this
/// tick, bytes transmitted this tick); `None` when every link is a loopback.
pub fn primary_iface(links: &Vec<LinkSample>, default_route: Option<String>) -> (r: Option<
    (String, u64, u64),
>)
    ensures
        r is None <==> forall|j: int| !#[trigger] is_real(links@, j),
        r matches Some(t) ==> exists|i: int|
            #[trigger] is_primary(links@, opt_view(default_route), i) && t.0@ == links@[i].name@
                && t.1 == links@[i].received && t.2 == links@[i].transmitted,
{
    let ghost ls = links@;
    let ghost route = opt_view(default_route);
    let ghost named = |j: int| is_real(ls, j) && route == Some(ls[j].name@);
    let n = links.len();
    let route_chars: Option<Vec<char>> = match &default_route {
        Some(s) => Some(to_chars(s.as_str())),
        None => None,
    };
    // The first real link named by the default route.
    let mut i: usize = 0;
    let mut found: Option<usize> = None;
    while i < n
        invariant
            n == links.len(),
            ls == links@,
            route == opt_view(default_route),
            named == (|j: int| is_real(ls, j) && route == Some(ls[j].name@)),
            match route_chars {
                Some(rc) => route == Some(rc@),
                None => route is None,
            },
            0 <= i <= n,
            found is None ==> forall|j: int| 0 <= j < i ==> !#[trigger] named(j),
            found matches Some(f) ==> f < n && named(f as int) && forall|j: int|
                0 <= j < f ==> !#[trigger] named(j),
        decreases n - i,
    {
        if found.is_none() {
            let name = to_chars(links[i].name.as_str());
            let not_lo = !is_loopback(links[i].name.as_str());
            let hit = match &route_chars {
                Some(rc) => chars_eq(&name, rc),
                None => false,
            };
            if not_lo && hit {
                found = Some(i);
            }
        }
        i += 1;
    }
    if let Some(f) = found {
        proof {
            assert(is_primary(ls, route, f as int));
        }
        return Some((links[f].name.clone(), links[f].received, links[f].transmitted));
    }
    assert(!exists|j: int| #[trigger] named(j));
    // Otherwise the last real link with the largest cumulative traffic.
    let mut best: Option<usize> = None;
    let mut k: usize = 0;
    while k < n
        invariant
            n == links.len(),
            ls == links@,
            0 <= k <= n,
            best is None ==> forall|j: int| 0 <= j < k ==> !#[trigger] is_real(ls, j),
            best matches Some(b) ==> b < k && is_real(ls, b as int) && (forall|j: int|
                0 <= j < k && #[trigger] is_real(ls, j) ==> ls[j].cumulative
                    <= ls[b as int].cumulative) && (forall|j: int|
                b < j < k && #[trigger] is_real(ls, j) ==> ls[j].cumulative
                    < ls[b as int].cumulative),
        decreases n - k,
    {
        if !is_loopback(links[k].name.as_str()) {
            match best {
                None => {
                    best = Some(k);
                },
                Some(b) => {
                    if links[k].cumulative >= links[b].cumulative {
                        best = Some(k);
                    }
                },
            }
        }
        k += 1;
    }
    match best {
        None => None,
        Some(b) => {
            proof {
                assert(is_primary(ls, route, b as int));
            }
            Some((links[b].name.clone(), links[b].received, links[b].transmitted))
        },
    }
}

/// What the dashboard knows of one mounted disk.
pub struct DiskSample {
    /// Mounted at `/`.
    pub is_root: bool,
    /// Total space in bytes.
    pub total_space: u64,
}

/// `i` is the disk whose usage is shown: the first one mounted at `/`, or
/// when none is, the last one with the largest total space.
pub open spec fn is_shown_disk(ds: Seq<DiskSample>, i: int) -> bool {
    if exists|j: int| 0 <= j < ds.len() && #[trigger] ds[j].is_root {
        0 <= i < ds.len() && ds[i].is_root && forall|j: int| 0 <= j < i ==> !#[trigger] ds[j].is_root
    } else {
        &&& 0 <= i < ds.len()
        &&& forall|j: int| 0 <= j < ds.len() ==> #[trigger] ds[j].total_space <= ds[i].total_space
        &&& forall|j: int| i < j < ds.len() ==> #[trigger] ds[j].total_space < ds[i].total_space
    }
}

/// The disk whose usage the dashboard shows: the `/` mount, falling back to
/// the largest disk; `None` when there is no disk.
pub fn root_disk_index(disks: &Vec<DiskSample>) -> (r: Option<usize>)
    ensures
        r is None <==> disks@.len() == 0,
        r matches Some(i) ==> is_shown_disk(disks@, i as int),
{
    let n = disks.len();
    let mut i: usize = 0;
    while i < n
        invariant
            n == disks.len(),
            0 <= i <= n,
            forall|j: int| 0 <= j < i ==> !#[trigger] disks@[j].is_root,
        decreases n - i,
    {
        if disks[i].is_root {
            assert(is_shown_disk(disks@, i as int));
            return Some(i);
        }
        i += 1;
    }
    if n == 0 {
        return None;
    }
    let mut best: usize = 0;
    let mut k: usize = 1;
    while k < n
        invariant
            n == disks.len(),
            1 <= k <= n,
            best < k,
            forall|j: int| 0 <= j < k ==> #[trigger] disks@[j].total_space
                <= disks@[best as int].total_space,
            forall|j: int| best < j < k ==> #[trigger] disks@[j].total_space
                < disks@[best as int].total_space,
        decreases n - k,
    {
        if disks[k].total_space >= disks[best].total_space {
            best = k;
        }
        k += 1;
    }
    Some(best)
}

/// The larger of two frequencies.
pub open spec fn max_u64(a: u64, b: u64) -> u64 {
    if a >= b {
        a
    } else {
        b
    }
}

/// Tracks the highest CPU frequency seen, the ceiling to fall back on where
/// cpufreq does not report one.
pub struct FreqTracker {
    /// Highest frequency seen so far, in MHz.
    pub peak_mhz: u64,
}

impl FreqTracker {
    /// A tracker that has seen nothing.
    pub fn new() -> (r: Self)
        ensures
            r.peak_mhz == 0,
    {
        FreqTracker { peak_mhz: 0 }
    }

    /// One tick: the current frequency is cpufreq's reading, else the first
    /// CPU's, else 0; the ceiling is the larger of cpufreq's ceiling (0 when
    /// unknown) and the peak seen so far. Returns (current, ceiling).
    pub fn update(
        &mut self,
        cpufreq_cur: Option<u64>,
        first_cpu_mhz: Option<u64>,
        cpufreq_max: Option<u64>,
    ) -> (r: (u64, u64))
        ensures
            r.0 == match cpufreq_cur {
                Some(f) => f,
                None => match first_cpu_mhz {
                    Some(f) => f,
                    None => 0,
                },
            },
            final(self).peak_mhz == max_u64(old(self).peak_mhz, r.0),
            r.1 == max_u64(
                match cpufreq_max {
                    Some(m) => m,
                    None => 0,
                },
                final(self).peak_mhz,
            ),
            r.0 <= r.1,
            old(self).peak_mhz <= final(self).peak_mhz,
    {
        let cur = match cpufreq_cur {
            Some(f) => f,
            None => match first_cpu_mhz {
                Some(f) => f,
                None => 0,
            },
        };
        if cur > self.peak_mhz {
            self.peak_mhz = cur;
        }
        let ceiling = match cpufreq_max {
            Some(m) => m,
            None => 0,
        };
        let max = if ceiling >= self.peak_mhz {
            ceiling
        } else {
            self.peak_mhz
        };
        (cur, max)
    }
}

/// Whether to look for a GPU on the next tick. Probing starts on and stops
/// for good after the first probe that finds none, so a host without a GPU
/// pays for one probe only.
pub struct GpuProbe {
    /// Probe on the next tick.
    pub active: bool,
}

impl GpuProbe {
    /// A probe that will look on the first tick.
    pub fn new() -> (r: Self)
        ensures
            r.active,
    {
        GpuProbe { active: true }
    }

    /// Records the outcome of a probe: a miss switches probing off, and
    /// nothing switches it on again.
    pub fn record(&mut self, found: bool)
        ensures
            final(self).active == (old(self).active && found),
    {
        if !found {
            self.active = false;
        }
    }
}


/// The lowercase form of a text, as `str::to_lowercase` gives it.
pub uninterp spec fn lowercase(s: Seq<char>) -> Seq<char>;

/// Calls `str::to_lowercase`; its result is named `lowercase` of the input
/// (Unicode's lowercase mapping, a function of the text alone).
#[verifier::external_body]
fn to_lowercase(s: &str) -> (r: String)
    ensures
        r@ == lowercase(s@),
{
    s.to_lowercase()
}

/// `p` occurs in `s`.
pub open spec fn has_infix(s: Seq<char>, p: Seq<char>) -> bool {
    exists|i: int| 0 <= i <= s.len() - p.len() && #[trigger] s.subrange(i, i + p.len()) == p
}

fn contains_text(s: &Vec<char>, p: &Vec<char>) -> (r: bool)
    ensures
        r == has_infix(s@, p@),
{
    if p.len() > s.len() {
        return false;
    }
    let mut i: usize = 0;
    while i <= s.len() - p.len()
        invariant
            p.len() <= s.len(),
            0 <= i <= s.len() - p.len() + 1,
            forall|j: int| 0 <= j < i ==> #[trigger] s@.subrange(j, j + p@.len()) != p@,
        decreases s.len() - p.len() + 1 - i,
    {
        if matches_at(s, i, p) {
            assert(s@.skip(i as int).take(p@.len() as int) =~= s@.subrange(i as int, i + p@.len()));
            return true;
        }
        assert(s@.skip(i as int).take(p@.len() as int) =~= s@.subrange(i as int, i + p@.len()));
        if i == s.len() - p.len() {
            return false;
        }
        i += 1;
    }
    false
}

/// `i` is the first label whose lowercase form contains `needle`.
pub open spec fn first_label_with(labels: Seq<Seq<char>>, needle: Seq<char>, i: int) -> bool {
    &&& 0 <= i < labels.len()
    &&& has_infix(lowercase(labels[i]), needle)
    &&& forall|j: int| 0 <= j < i ==> !has_infix(lowercase(#[trigger] labels[j]), needle)
}

/// Some label's lowercase form contains `needle`.
pub open spec fn some_label_with(labels: Seq<Seq<char>>, needle: Seq<char>) -> bool {
    exists|j: int| 0 <= j < labels.len() && has_infix(lowercase(#[trigger] labels[j]), needle)
}

/// The sensor read as the CPU temperature: the first whose label mentions
/// `package`, else `cpu`, else `core` (ignoring case), else the first sensor.
pub open spec fn is_cpu_sensor(labels: Seq<Seq<char>>, i: int) -> bool {
    if some_label_with(labels, "package"@) {
        first_label_with(labels, "package"@, i)
    } else if some_label_with(labels, "cpu"@) {
        first_label_with(labels, "cpu"@, i)
    } else if some_label_with(labels, "core"@) {
        first_label_with(labels, "core"@, i)
    } else {
        i == 0 && labels.len() > 0
    }
}

fn first_with(lows: &Vec<Vec<char>>, needle: &Vec<char>) -> (r: Option<usize>)
    ensures
        r is None ==> forall|j: int| 0 <= j < lows@.len() ==> !has_infix(#[trigger] lows@[j]@, needle@),
        r matches Some(i) ==> i < lows@.len() && has_infix(lows@[i as int]@, needle@) && forall|j: int|
            0 <= j < i ==> !has_infix(#[trigger] lows@[j]@, needle@),
{
    let mut i: usize = 0;
    while i < lows.len()
        invariant
            0 <= i <= lows.len(),
            forall|j: int| 0 <= j < i ==> !has_infix(#[trigger] lows@[j]@, needle@),
        decreases lows.len() - i,
    {
        if contains_text(&lows[i], needle) {
            return Some(i);
        }
        i += 1;
    }
    None
}

/// Pick the temperature sensor that looks like the CPU package or a CPU
/// core, by label; the first sensor when none does; `None` without sensors.
pub fn pick_cpu_sensor(labels: &Vec<String>) -> (r: Option<usize>)
    ensures
        r is None <==> labels@.len() == 0,
        r matches Some(i) ==> is_cpu_sensor(labels@.map_values(|l: String| l@), i as int),
{
    let ghost lv = labels@.map_values(|l: String| l@);
    let mut lows: Vec<Vec<char>> = Vec::new();
    let mut k: usize = 0;
    while k < labels.len()
        invariant
            lv == labels@.map_values(|l: String| l@),
            0 <= k <= labels.len(),
            lows@.len() == k,
            forall|j: int| 0 <= j < k ==> #[trigger] lows@[j]@ == lowercase(lv[j]),
        decreases labels.len() - k,
    {
        let low = to_lowercase(labels[k].as_str());
        lows.push(to_chars(low.as_str()));
        k += 1;
    }
    let package = to_chars("package");
    let cpu = to_chars("cpu");
    let core = to_chars("core");
    let r1 = first_with(&lows, &package);
    let r2 = first_with(&lows, &cpu);
    let r3 = first_with(&lows, &core);
    proof {
        assert(lows@.len() == lv.len());
        assert forall|j: int| 0 <= j < lv.len() implies #[trigger] lowercase(lv[j]) == lows@[j]@ by {}
        if r1 is None {
            assert(!some_label_with(lv, "package"@));
        }
        if r2 is None {
            assert(!some_label_with(lv, "cpu"@));
        }
        if r3 is None {
            assert(!some_label_with(lv, "core"@));
        }
    }
    match r1 {
        Some(i) => {
            assert(first_label_with(lv, "package"@, i as int));
            return Some(i);
        },
        None => {},
    }
    match r2 {
        Some(i) => {
            assert(first_label_with(lv, "cpu"@, i as int));
            return Some(i);
        },
        None => {},
    }
    match r3 {
        Some(i) => {
            assert(first_label_with(lv, "core"@, i as int));
            return Some(i);
        },
        None => {},
    }
    if labels.len() > 0 {
        Some(0)
    } else {
        None
    }
}


/// The last maximum is the one position holding a largest key with only
/// smaller keys after it: no other position qualifies.
pub proof fn lemma_last_max_unique(keys: Seq<u64>, i: int, j: int)
    requires
        is_last_max(keys, i),
        is_last_max(keys, j),
    ensures
        i == j,
        forall|k: int| 0 <= k < keys.len() ==> keys[k] <= #[trigger] keys[i],
        forall|k: int| i < k < keys.len() ==> #[trigger] keys[k] != keys[i],
{
    if i < j {
        assert(keys[j] < keys[i]);
        assert(keys[i] <= keys[j]);
    } else if j < i {
        assert(keys[i] < keys[j]);
        assert(keys[j] <= keys[i]);
    }
}

/// The link shown is never a loopback. When the default route names a
/// non-loopback link, the link shown is the first such; otherwise it is a
/// non-loopback link with the most cumulative traffic, and no later
/// non-loopback link has as much. Exactly one link qualifies.
pub proof fn lemma_primary_link(ls: Seq<LinkSample>, route: Option<Seq<char>>, i: int, i2: int)
    requires
        is_primary(ls, route, i),
    ensures
        0 <= i < ls.len() && !is_loopback_spec(ls[i].name@),
        (exists|j: int|
            0 <= j < ls.len() && !is_loopback_spec(#[trigger] ls[j].name@) && route == Some(
                ls[j].name@,
            )) ==> route == Some(ls[i].name@) && forall|j: int|
            0 <= j < i && !is_loopback_spec(#[trigger] ls[j].name@) ==> route != Some(ls[j].name@),
        !(exists|j: int|
            0 <= j < ls.len() && !is_loopback_spec(#[trigger] ls[j].name@) && route == Some(
                ls[j].name@,
            )) ==> (forall|j: int|
            0 <= j < ls.len() && !is_loopback_spec(#[trigger] ls[j].name@) ==> ls[j].cumulative
                <= ls[i].cumulative) && (forall|j: int|
            i < j < ls.len() && !is_loopback_spec(#[trigger] ls[j].name@) ==> ls[j].cumulative
                < ls[i].cumulative),
        is_primary(ls, route, i2) ==> i2 == i,
{
    let named = |j: int| is_real(ls, j) && route == Some(ls[j].name@);
    if exists|j: int|
        0 <= j < ls.len() && !is_loopback_spec(#[trigger] ls[j].name@) && route == Some(
            ls[j].name@,
        ) {
        let j = choose|j: int|
            0 <= j < ls.len() && !is_loopback_spec(#[trigger] ls[j].name@) && route == Some(
                ls[j].name@,
            );
        assert(named(j));
        assert forall|k: int| 0 <= k < i && !is_loopback_spec(#[trigger] ls[k].name@) implies route
            != Some(ls[k].name@) by {
            assert(!named(k));
        }
        if is_primary(ls, route, i2) {
            if i2 < i {
                assert(!named(i2));
            } else if i < i2 {
                assert(!named(i));
            }
        }
    } else {
        assert(!exists|j: int| #[trigger] named(j));
        assert forall|j: int|
            0 <= j < ls.len() && !is_loopback_spec(#[trigger] ls[j].name@) implies ls[j].cumulative
            <= ls[i].cumulative by {
            assert(is_real(ls, j));
        }
        assert forall|j: int|
            i < j < ls.len() && !is_loopback_spec(#[trigger] ls[j].name@) implies ls[j].cumulative
            < ls[i].cumulative by {
            assert(is_real(ls, j));
        }
        if is_primary(ls, route, i2) {
            assert(is_real(ls, i2));
            assert(is_real(ls, i));
        }
    }
}

/// The disk shown is the first one mounted at `/` when there is one;
/// otherwise it is one of the largest, and no later disk is as large.
/// Exactly one disk qualifies.
pub proof fn lemma_shown_disk(ds: Seq<DiskSample>, i: int, i2: int)
    requires
        is_shown_disk(ds, i),
    ensures
        0 <= i < ds.len(),
        (exists|j: int| 0 <= j < ds.len() && #[trigger] ds[j].is_root) ==> ds[i].is_root && forall|
            j: int,
        | 0 <= j < i ==> !#[trigger] ds[j].is_root,
        !(exists|j: int| 0 <= j < ds.len() && #[trigger] ds[j].is_root) ==> (forall|j: int|
            0 <= j < ds.len() ==> #[trigger] ds[j].total_space <= ds[i].total_space) && (forall|
            j: int,
        | i < j < ds.len() ==> #[trigger] ds[j].total_space < ds[i].total_space),
        is_shown_disk(ds, i2) ==> i2 == i,
{
    if is_shown_disk(ds, i2) {
        if exists|j: int| 0 <= j < ds.len() && #[trigger] ds[j].is_root {
            if i2 < i {
                assert(!ds[i2].is_root);
            } else if i < i2 {
                assert(!ds[i].is_root);
            }
        } else {
            if i2 < i {
                assert(ds[i2].total_space < ds[i].total_space);
                assert(ds[i].total_space <= ds[i2].total_space);
            } else if i < i2 {
                assert(ds[i].total_space < ds[i2].total_space);
                assert(ds[i2].total_space <= ds[i].total_space);
            }
        }
    }
}

/// The CPU sensor is chosen by label, ignoring case: a label mentioning
/// `package` wins over one mentioning `cpu`, which wins over one mentioning
/// `core`; among labels of the winning kind the first is taken, and with no
/// such label the first sensor is.
pub proof fn lemma_cpu_sensor_priority(labels: Seq<Seq<char>>, i: int)
    requires
        is_cpu_sensor(labels, i),
    ensures
        0 <= i < labels.len(),
        (exists|j: int| 0 <= j < labels.len() && has_infix(lowercase(#[trigger] labels[j]), "package"@))
            ==> has_infix(lowercase(labels[i]), "package"@) && forall|j: int|
            0 <= j < i ==> !has_infix(lowercase(#[trigger] labels[j]), "package"@),
        !(exists|j: int| 0 <= j < labels.len() && has_infix(lowercase(#[trigger] labels[j]), "package"@))
            && (exists|j: int| 0 <= j < labels.len() && has_infix(lowercase(#[trigger] labels[j]), "cpu"@))
            ==> has_infix(lowercase(labels[i]), "cpu"@) && forall|j: int|
            0 <= j < i ==> !has_infix(lowercase(#[trigger] labels[j]), "cpu"@),
        !(exists|j: int| 0 <= j < labels.len() && has_infix(lowercase(#[trigger] labels[j]), "package"@))
            && !(exists|j: int| 0 <= j < labels.len() && has_infix(lowercase(#[trigger] labels[j]), "cpu"@))
            && (exists|j: int| 0 <= j < labels.len() && has_infix(lowercase(#[trigger] labels[j]), "core"@))
            ==> has_infix(lowercase(labels[i]), "core"@) && forall|j: int|
            0 <= j < i ==> !has_infix(lowercase(#[trigger] labels[j]), "core"@),
        !(exists|j: int| 0 <= j < labels.len() && has_infix(lowercase(#[trigger] labels[j]), "package"@))
            && !(exists|j: int| 0 <= j < labels.len() && has_infix(lowercase(#[trigger] labels[j]), "cpu"@))
            && !(exists|j: int| 0 <= j < labels.len() && has_infix(lowercase(#[trigger] labels[j]), "core"@))
            ==> i == 0,
{
}

} // verus!
